use loqng::wav::wav;

#[test]
fn header_is_44_bytes_and_says_what_it_is() {
    let pcm = [0u8; 320];
    let w = wav(&pcm, 16000);
    assert_eq!(w.len(), 44 + pcm.len());
    assert_eq!(&w[0..4], b"RIFF");
    assert_eq!(&w[8..12], b"WAVE");
    assert_eq!(&w[36..40], b"data");
    assert_eq!(
        u32::from_le_bytes(w[4..8].try_into().unwrap()),
        36 + pcm.len() as u32
    );
    assert_eq!(
        u32::from_le_bytes(w[40..44].try_into().unwrap()),
        pcm.len() as u32
    );
    assert_eq!(u32::from_le_bytes(w[24..28].try_into().unwrap()), 16000);
    assert_eq!(u32::from_le_bytes(w[28..32].try_into().unwrap()), 32000);
    assert_eq!(u16::from_le_bytes(w[32..34].try_into().unwrap()), 2);
    assert_eq!(u16::from_le_bytes(w[34..36].try_into().unwrap()), 16);
}

#[test]
fn samples_are_untouched() {
    let pcm: Vec<u8> = (0..256).map(|k| k as u8).collect();
    assert_eq!(&wav(&pcm, 22050)[44..], &pcm[..]);
}
