use loqng::engine::calls::import::call_named;
use loqng::engine::paths::{norm, real_place, stored, stored_dir, Mount, Place};
use loqng::engine::runtime::{Modules, Runtime, Symbol};
use loqng::engine::scan::Bits;
use loqng::engine::world::{Action, Answer, Need};
use loqng::xrt::mem::Mem;

const FILES: &[(&str, &[u8])] = &[
    ("/loq/data/a.txt", b"hello\nworld\n"),
    ("/loq/data/voice/b.bin", &[1, 2, 3, 4, 5]),
    ("/loq/data/voice/c.bin", &[9]),
];

const IMAGE: &[u8] = &[0; 64];

fn modules() -> Modules {
    Modules {
        regions: vec![(0x1000, IMAGE)],
        host_data: vec![
            Symbol { name: "stdin".to_string(), at: 0x1000 },
            Symbol { name: "stdout".to_string(), at: 0x1004 },
            Symbol { name: "environ".to_string(), at: 0x1008 },
        ],
        exports: vec![
            Symbol { name: "ttsRead".to_string(), at: 0x1234 },
            Symbol { name: "ttsNew".to_string(), at: 0x2345 },
        ],
        names: vec!["LoqTTS6.so".to_string(), "loqmsx.so".to_string()],
    }
}

fn start() -> (Runtime, Mem) {
    Runtime::with("", "", FILES, &modules()).unwrap()
}

fn call_with(rt: &mut Runtime, m: &mut Mem, name: &str, args: &[u32], ans: Answer) -> (u32, Action) {
    let mut c = rt.call_frame(m, args).unwrap();
    let k = call_named(name).unwrap();
    let did = rt.import(k, &mut c, m, &ans);
    (c.r[0], did)
}

fn call(rt: &mut Runtime, m: &mut Mem, name: &str, args: &[u32]) -> u32 {
    let (v, did) = call_with(rt, m, name, args, Answer::default());
    assert!(matches!(did, Action::Done), "{name}: {did:?}");
    v
}

fn faults(rt: &mut Runtime, m: &mut Mem, name: &str, args: &[u32]) -> bool {
    let (_, did) = call_with(rt, m, name, args, Answer::default());
    matches!(did, Action::Fault)
}

fn need(rt: &mut Runtime, m: &mut Mem, name: &str, args: &[u32]) -> Need {
    let c = rt.call_frame(m, args).unwrap();
    rt.needs(call_named(name).unwrap(), &c, m)
}

fn text(rt: &mut Runtime, m: &mut Mem, s: &str) -> u32 {
    rt.cstring(m, s).unwrap()
}

fn bytes(rt: &mut Runtime, m: &mut Mem, b: &[u8]) -> u32 {
    let a = rt.allot(b.len() as u32 + 1).unwrap();
    m.write(a, b);
    a
}

fn string_at(m: &Mem, a: u32) -> Vec<u8> {
    let mut v = Vec::new();
    let mut k = a;
    while m.r8(k) != 0 {
        v.push(m.r8(k));
        k += 1;
    }
    v
}

#[test]
fn the_runtime_starts_with_its_streams_and_its_session_file() {
    let (rt, m) = start();
    let f = m.r32(0x1000);
    assert_ne!(f, 0);
    assert_ne!(m.r32(0x1004), f);
    assert_eq!(m.r32(0x1008), 0);
    assert_eq!(rt.files.len(), 2);
    assert_eq!(rt.overlays[0].name, "/loq/default.session");
    assert!(rt.overlays[0].data.starts_with(b"\"DataPath\" = \"/loq/data\"\n"));
    assert!(rt.overlays[0].data.ends_with(b"\"LogFile\" = \"stderr\"\n"));
    assert!(rt.mounts.is_empty());
    assert_eq!(string_at(&m, rt.dl_err), b"cannot open shared object");
    assert_eq!(rt.errno, 0x1000_0000);
    assert_eq!(rt.dl_err, 0x1000_0008);
}

#[test]
fn modules_that_overlap_do_not_start() {
    let mut mods = modules();
    mods.regions.push((0x1010, IMAGE));
    assert!(Runtime::built_in(FILES, &mods).is_none());
    let mut mods = modules();
    mods.regions.push((0x1000_0100, IMAGE));
    assert!(Runtime::built_in(FILES, &mods).is_none());
    let mut mods = modules();
    mods.host_data.push(Symbol { name: "stderr".to_string(), at: 0x9000_0000 });
    assert!(Runtime::built_in(FILES, &mods).is_none());
}

#[test]
fn directories_are_mounted_where_they_are_named() {
    let (rt, _) = Runtime::new("/srv/lib", "/srv/data", &modules()).unwrap();
    assert_eq!(rt.mounts.len(), 3);
    assert_eq!(rt.mounts[0].prefix, "/loq/lib");
    assert_eq!(rt.mounts[1].dir, "/srv/data");
    assert_eq!(rt.mounts[2].prefix, "/loq");
}

#[test]
fn a_call_puts_its_fifth_argument_on_the_stack() {
    let (rt, mut m) = start();
    let c = rt.call_frame(&mut m, &[1, 2, 3, 4, 5, 6]).unwrap();
    assert_eq!(&c.r[0..4], &[1, 2, 3, 4]);
    assert_eq!(c.r[13], 0x7EFF_FFB8);
    assert_eq!(c.r[14], 0xDEAD_BEEF);
    assert_eq!(m.r32(c.r[13]), 5);
    assert_eq!(m.r32(c.r[13] + 4), 6);
    assert_eq!(rt.sp(), 0x7EFF_FFC0);
    assert!(rt.call_frame(&mut m, &vec![0; 0x30_0000]).is_none());
}

#[test]
fn routines_are_found_by_name() {
    let (rt, _) = start();
    assert_eq!(rt.lookup("ttsNew"), Some(0x2345));
    assert_eq!(rt.lookup("ttsOld"), None);
}

#[test]
fn a_freed_block_is_given_out_again() {
    let (mut rt, mut m) = start();
    let a = call(&mut rt, &mut m, "malloc", &[20]);
    let b = call(&mut rt, &mut m, "ELQmalloc", &[5]);
    assert_eq!(b, a + 24);
    call(&mut rt, &mut m, "free", &[a]);
    assert_eq!(call(&mut rt, &mut m, "malloc", &[23]), a);
    call(&mut rt, &mut m, "free", &[0]);
    call(&mut rt, &mut m, "free", &[12345]);
    assert_eq!(call(&mut rt, &mut m, "malloc", &[0]), b + 8);
    assert!(faults(&mut rt, &mut m, "malloc", &[0x0600_0000]));
    assert!(faults(&mut rt, &mut m, "malloc", &[u32::MAX]));
}

#[test]
fn blocks_of_zeros_are_zeroed_and_resized_ones_keep_their_contents() {
    let (mut rt, mut m) = start();
    let a = call(&mut rt, &mut m, "malloc", &[16]);
    m.write(a, &[7; 16]);
    call(&mut rt, &mut m, "free", &[a]);
    let z = call(&mut rt, &mut m, "calloc", &[4, 4]);
    assert_eq!(z, a);
    assert_eq!(m.read(z, 16), vec![0; 16]);
    m.write(z, &[1, 2, 3, 4]);
    let r = call(&mut rt, &mut m, "realloc", &[z, 64]);
    assert_ne!(r, z);
    assert_eq!(m.read(r, 4), vec![1, 2, 3, 4]);
    let s = call(&mut rt, &mut m, "ELQrealloc", &[0, 8]);
    assert_eq!(s, z);
    assert!(faults(&mut rt, &mut m, "calloc", &[0x1_0000, 0x1_0000]));
}

#[test]
fn bytes_are_copied_set_and_compared() {
    let (mut rt, mut m) = start();
    let a = bytes(&mut rt, &mut m, b"abcdef");
    let b = bytes(&mut rt, &mut m, b"......");
    assert_eq!(call(&mut rt, &mut m, "memcpy", &[b, a, 3]), b);
    assert_eq!(m.read(b, 6), b"abc...");
    assert_eq!(call(&mut rt, &mut m, "memmove", &[a + 1, a, 4]), a + 1);
    assert_eq!(m.read(a, 6), b"aabcdf");
    assert_eq!(call(&mut rt, &mut m, "memset", &[b, 0x141, 2]), b);
    assert_eq!(m.read(b, 6), b"AAc...");
    assert_eq!(call(&mut rt, &mut m, "memcmp", &[a, b, 6]), 32);
    assert_eq!(call(&mut rt, &mut m, "memcmp", &[b, a, 6]), (-32i32) as u32);
    assert_eq!(call(&mut rt, &mut m, "memcmp", &[a, b, 0]), 0);
    assert!(faults(&mut rt, &mut m, "memcpy", &[b, 0x9000_0000, 3]));
    assert!(faults(&mut rt, &mut m, "memset", &[0x9000_0000, 0, 1]));
}

#[test]
fn texts_are_measured_copied_and_joined() {
    let (mut rt, mut m) = start();
    let s = text(&mut rt, &mut m, "hello");
    let d = rt.allot(64).unwrap();
    assert_eq!(call(&mut rt, &mut m, "strlen", &[s]), 5);
    assert_eq!(call(&mut rt, &mut m, "strcpy", &[d, s]), d);
    assert_eq!(call(&mut rt, &mut m, "strcat", &[d, s]), d);
    assert_eq!(string_at(&m, d), b"hellohello");
    call(&mut rt, &mut m, "strncat", &[d, s, 2]);
    assert_eq!(string_at(&m, d), b"hellohellohe");
    call(&mut rt, &mut m, "strncat", &[d, s, 99]);
    assert_eq!(string_at(&m, d), b"hellohellohehello");
    m.write(d, &[0x55; 8]);
    assert_eq!(call(&mut rt, &mut m, "strncpy", &[d, s, 7]), d);
    assert_eq!(m.read(d, 8), b"hello\0\0U");
    call(&mut rt, &mut m, "strncpy", &[d, s, 3]);
    assert_eq!(m.read(d, 8), b"hello\0\0U");
    call(&mut rt, &mut m, "strcpy", &[d, 0]);
    assert_eq!(m.r8(d), 0);
    assert!(faults(&mut rt, &mut m, "strlen", &[0]));
    assert!(faults(&mut rt, &mut m, "strcpy", &[d, 0x9000_0000]));
}

#[test]
fn bytes_that_are_no_text_are_replaced_when_copied() {
    let (mut rt, mut m) = start();
    let s = bytes(&mut rt, &mut m, b"a\xe9b\0");
    let d = rt.allot(64).unwrap();
    call(&mut rt, &mut m, "strcpy", &[d, s]);
    assert_eq!(string_at(&m, d), b"a\xef\xbf\xbdb");
    let s = bytes(&mut rt, &mut m, b"a\xc3\xa9b\0");
    call(&mut rt, &mut m, "strcpy", &[d, s]);
    assert_eq!(string_at(&m, d), b"a\xc3\xa9b");
}

#[test]
fn texts_are_compared() {
    let (mut rt, mut m) = start();
    let a = text(&mut rt, &mut m, "Apple");
    let b = text(&mut rt, &mut m, "apple");
    let c = text(&mut rt, &mut m, "apply");
    assert_eq!(call(&mut rt, &mut m, "strcmp", &[a, a]), 0);
    assert_eq!(call(&mut rt, &mut m, "strcmp", &[a, b]), u32::MAX);
    assert_eq!(call(&mut rt, &mut m, "strcmp", &[c, b]), 1);
    assert_eq!(call(&mut rt, &mut m, "ELQstricmp", &[a, b]), 0);
    assert_eq!(call(&mut rt, &mut m, "strncmp", &[b, c, 4]), 0);
    assert_eq!(call(&mut rt, &mut m, "strncmp", &[b, c, 5]), (-20i32) as u32);
    assert_eq!(call(&mut rt, &mut m, "strncmp", &[b, b, 99]), 0);
    let e = text(&mut rt, &mut m, "app");
    assert_eq!(call(&mut rt, &mut m, "strcmp", &[e, b]), u32::MAX);
    assert_eq!(call(&mut rt, &mut m, "strcmp", &[b, e]), 1);
}

#[test]
fn bytes_and_texts_are_found_in_texts() {
    let (mut rt, mut m) = start();
    let s = text(&mut rt, &mut m, "banana");
    let n = text(&mut rt, &mut m, "nan");
    let x = text(&mut rt, &mut m, "xyz");
    let set = text(&mut rt, &mut m, "ab");
    assert_eq!(call(&mut rt, &mut m, "strchr", &[s, b'n' as u32]), s + 2);
    assert_eq!(call(&mut rt, &mut m, "strrchr", &[s, b'n' as u32]), s + 4);
    assert_eq!(call(&mut rt, &mut m, "strchr", &[s, b'q' as u32]), 0);
    assert_eq!(call(&mut rt, &mut m, "strchr", &[s, 0]), s + 6);
    assert_eq!(call(&mut rt, &mut m, "strrchr", &[s, 0]), s + 6);
    assert_eq!(call(&mut rt, &mut m, "strstr", &[s, n]), s + 2);
    assert_eq!(call(&mut rt, &mut m, "strstr", &[s, x]), 0);
    let none = text(&mut rt, &mut m, "");
    assert_eq!(call(&mut rt, &mut m, "strstr", &[s, none]), s);
    assert_eq!(call(&mut rt, &mut m, "strpbrk", &[s, n]), s + 1);
    assert_eq!(call(&mut rt, &mut m, "strpbrk", &[s, x]), 0);
    assert_eq!(call(&mut rt, &mut m, "strspn", &[s, set]), 2);
    assert_eq!(call(&mut rt, &mut m, "strcspn", &[s, n]), 1);
    assert_eq!(call(&mut rt, &mut m, "strcspn", &[s, x]), 6);
}

#[test]
fn whole_numbers_are_read_out_of_texts() {
    let (mut rt, mut m) = start();
    let end = rt.allot(4).unwrap();
    let mut read = |s: &str, base: u32| {
        let a = text(&mut rt, &mut m, s);
        let v = call(&mut rt, &mut m, "__strtol_internal", &[a, end, base]);
        (v, m.r32(end) - a)
    };
    assert_eq!(read("  -42abc", 0), ((-42i32) as u32, 5));
    assert_eq!(read("ff", 16), (255, 2));
    assert_eq!(read("zz", 36), (1295, 2));
    assert_eq!(read("+7", 10), (7, 1));
    assert_eq!(read("abc", 10), (0, 0));
    assert_eq!(read("99999999999999999999", 10), (0, 20));
    assert_eq!(read("4294967297", 10), (1, 10));
    let a = text(&mut rt, &mut m, "1");
    assert_eq!(call(&mut rt, &mut m, "__strtoul_internal", &[a, 0, 10]), 1);
    assert!(faults(&mut rt, &mut m, "__strtol_internal", &[a, 0, 37]));
    assert!(faults(&mut rt, &mut m, "__strtol_internal", &[a, 0, 1]));
}

#[test]
fn a_carried_file_is_read_line_by_line() {
    let (mut rt, mut m) = start();
    let path = text(&mut rt, &mut m, "data\\./x/../a.txt");
    let mode = text(&mut rt, &mut m, "rb");
    let buf = rt.allot(64).unwrap();
    let f = call(&mut rt, &mut m, "fopen", &[path, mode]);
    assert_ne!(f, 0);
    assert_eq!(call(&mut rt, &mut m, "fgets", &[buf, 64, f]), buf);
    assert_eq!(string_at(&m, buf), b"hello\n");
    assert_eq!(call(&mut rt, &mut m, "ftell", &[f]), 6);
    assert_eq!(call(&mut rt, &mut m, "ELQfgets", &[buf, 4, f]), buf);
    assert_eq!(string_at(&m, buf), b"wor");
    assert_eq!(call(&mut rt, &mut m, "fgetc", &[f]), b'l' as u32);
    assert_eq!(call(&mut rt, &mut m, "feof", &[f]), 0);
    assert_eq!(call(&mut rt, &mut m, "fseek", &[f, (-2i32) as u32, 2]), 0);
    assert_eq!(call(&mut rt, &mut m, "fread", &[buf, 2, 5, f]), 1);
    assert_eq!(m.read(buf, 2), b"d\n");
    assert_eq!(call(&mut rt, &mut m, "feof", &[f]), 1);
    assert_eq!(call(&mut rt, &mut m, "fgetc", &[f]), u32::MAX);
    assert_eq!(call(&mut rt, &mut m, "fgets", &[buf, 64, f]), 0);
    let mut c = rt.call_frame(&mut m, &[f]).unwrap();
    let k = call_named("rewind").unwrap();
    assert!(matches!(rt.import(k, &mut c, &mut m, &Answer::default()), Action::Done));
    assert_eq!(c.r[0], f);
    assert_eq!(call(&mut rt, &mut m, "fread", &[buf, 0, 5, f]), 0);
    assert_eq!(call(&mut rt, &mut m, "fread", &[buf, 5, 1, f]), 1);
    assert_eq!(m.read(buf, 5), b"hello");
    assert_eq!(call(&mut rt, &mut m, "fileno", &[f]), f);
    assert_eq!(call(&mut rt, &mut m, "fclose", &[f]), 0);
    assert_eq!(call(&mut rt, &mut m, "ftell", &[f]), 0);
    assert!(faults(&mut rt, &mut m, "fread", &[buf, 0x1_0000, 0x1_0000, f]));
    let missing = text(&mut rt, &mut m, "/loq/none");
    assert_eq!(call(&mut rt, &mut m, "ELQfopen", &[missing, mode]), 0);
}

#[test]
fn what_is_written_to_the_audio_path_is_captured() {
    let (mut rt, mut m) = start();
    let path = text(&mut rt, &mut m, "/loq/out.raw");
    let mode = text(&mut rt, &mut m, "wb");
    let data = bytes(&mut rt, &mut m, &[1, 2, 3, 4]);
    let f = call(&mut rt, &mut m, "fopen", &[path, mode]);
    assert_eq!(call(&mut rt, &mut m, "fwrite", &[data, 2, 2, f]), 2);
    assert_eq!(rt.sink("/loq/out.raw"), vec![1, 2, 3, 4]);
    assert_eq!(rt.take_sink("/loq/out.raw"), vec![1, 2, 3, 4]);
    assert_eq!(rt.sink("/loq/out.raw"), Vec::<u8>::new());
    assert_eq!(call(&mut rt, &mut m, "fwrite", &[data, 1, 1, f]), 1);
    assert_eq!(call(&mut rt, &mut m, "fclose", &[f]), 0);
    assert_eq!(rt.sink("/loq/out.raw"), vec![1]);
    assert_eq!(rt.take_sink("/loq/out.raw"), vec![1]);
    assert_eq!(rt.take_sink("/loq/else"), Vec::<u8>::new());
}

#[test]
fn a_write_lands_at_the_position_and_a_byte_at_the_end() {
    let (mut rt, mut m) = start();
    let path = text(&mut rt, &mut m, "/loq/out.raw");
    let mode = text(&mut rt, &mut m, "w");
    let data = bytes(&mut rt, &mut m, b"abcdef");
    let f = call(&mut rt, &mut m, "fopen", &[path, mode]);
    call(&mut rt, &mut m, "fwrite", &[data, 1, 6, f]);
    call(&mut rt, &mut m, "fseek", &[f, 1, 0]);
    call(&mut rt, &mut m, "fwrite", &[data, 1, 2, f]);
    assert_eq!(rt.sink("/loq/out.raw"), b"aabdef");
    assert_eq!(call(&mut rt, &mut m, "fputc", &[b'!' as u32, f]), b'!' as u32);
    assert_eq!(rt.sink("/loq/out.raw"), b"aabdef!");
    assert_eq!(call(&mut rt, &mut m, "ftell", &[f]), 4);
    let t = text(&mut rt, &mut m, "xy");
    assert_eq!(call(&mut rt, &mut m, "fputs", &[t, f]), 0);
    assert_eq!(rt.sink("/loq/out.raw"), b"aabdef!xy");
    assert_eq!(call(&mut rt, &mut m, "ftell", &[f]), 9);
}

#[test]
fn a_file_on_disk_is_asked_for_and_written_back() {
    let (mut rt, mut m) = Runtime::with("/srv/lib", "/srv/data", FILES, &modules()).unwrap();
    let path = text(&mut rt, &mut m, "/loq/data/new/x.txt");
    let mode = text(&mut rt, &mut m, "r");
    match need(&mut rt, &mut m, "fopen", &[path, mode]) {
        Need::File(p) => assert_eq!(
            p,
            Place { dir: "/srv/data".to_string(), rest: "new/x.txt".to_string() }
        ),
        other => panic!("{other:?}"),
    }
    let mut ans = Answer::default();
    ans.file = Some(b"disk".to_vec());
    let (f, _) = call_with(&mut rt, &mut m, "fopen", &[path, mode], ans);
    assert_ne!(f, 0);
    let carried = text(&mut rt, &mut m, "/loq/data/a.txt");
    assert!(matches!(need(&mut rt, &mut m, "fopen", &[carried, mode]), Need::Nothing));
    let append = text(&mut rt, &mut m, "a");
    let g = call(&mut rt, &mut m, "fopen", &[path, append]);
    let t = text(&mut rt, &mut m, "tail");
    call(&mut rt, &mut m, "fputs", &[t, g]);
    match call_with(&mut rt, &mut m, "fclose", &[g], Answer::default()).1 {
        Action::Write { place, data } => {
            assert_eq!(place.rest, "new/x.txt");
            assert_eq!(data, b"tail");
        }
        other => panic!("{other:?}"),
    }
    match call_with(&mut rt, &mut m, "remove", &[path], Answer::default()).1 {
        Action::Remove(p) => assert_eq!(p.dir, "/srv/data"),
        other => panic!("{other:?}"),
    }
    match call_with(&mut rt, &mut m, "fflush", &[f], Answer::default()).1 {
        Action::Done => {}
        other => panic!("{other:?}"),
    }
}

#[test]
fn the_console_is_logged() {
    let (mut rt, mut m) = start();
    let out = m.r32(0x1004);
    let t = text(&mut rt, &mut m, "log ");
    call(&mut rt, &mut m, "fputs", &[t, out]);
    call(&mut rt, &mut m, "putchar", &[b'x' as u32]);
    let f = text(&mut rt, &mut m, "%d%%\n");
    assert_eq!(call(&mut rt, &mut m, "printf", &[f, 7]), 3);
    assert_eq!(call(&mut rt, &mut m, "fprintf", &[out, f, 8]), 3);
    assert_eq!(rt.log, b"log x7%\n8%\n");
}

fn sprintf(fmt: &str, args: &[u32]) -> Vec<u8> {
    let (mut rt, mut m) = start();
    let f = text(&mut rt, &mut m, fmt);
    let d = rt.allot(256).unwrap();
    let mut v = vec![d, f];
    v.extend_from_slice(args);
    let n = call(&mut rt, &mut m, "sprintf", &v);
    let s = string_at(&m, d);
    assert_eq!(n as usize, s.len());
    s
}

#[test]
fn conversions_are_written_as_their_flags_say() {
    assert_eq!(sprintf("no conversions", &[]), b"no conversions");
    assert_eq!(sprintf("[%5d]", &[42]), b"[   42]");
    assert_eq!(sprintf("[%-5d]", &[42]), b"[42   ]");
    assert_eq!(sprintf("[%05d]", &[(-42i32) as u32]), b"[-0042]");
    assert_eq!(sprintf("[%+d]", &[42]), b"[+42]");
    assert_eq!(sprintf("[% d]", &[42]), b"[ 42]");
    assert_eq!(sprintf("[%.4d]", &[42]), b"[0042]");
    assert_eq!(sprintf("[%u]", &[u32::MAX]), b"[4294967295]");
    assert_eq!(sprintf("[%x %X %#x %#X]", &[255, 255, 255, 255]), b"[ff FF 0xff 0XFF]");
    assert_eq!(sprintf("[%o]", &[8]), b"[10]");
    assert_eq!(sprintf("[%p]", &[0xbeef]), b"[0x0000beef]");
    assert_eq!(sprintf("[%c%c]", &[65, 0xe9]), b"[A\xc3\xa9]");
    assert_eq!(sprintf("[%*d]", &[4, 7]), b"[   7]");
    assert_eq!(sprintf("[%.*d]", &[3, 7]), b"[007]");
    assert_eq!(sprintf("[%ld %hd]", &[1, 2]), b"[1 2]");
    assert_eq!(sprintf("[%s]", &[0]), b"[(null)]");
    assert_eq!(sprintf("[%.3s]", &[0]), b"[(nu]");
    assert_eq!(sprintf("[%010s]", &[0]), b"[    (null)]");
    assert_eq!(sprintf("cut %", &[]), b"cut ");
    assert_eq!(sprintf("[%3%]", &[]), b"[  %]");
}

#[test]
fn a_limit_cuts_the_text_but_not_its_length() {
    let (mut rt, mut m) = start();
    let f = text(&mut rt, &mut m, "abcdef");
    let d = rt.allot(16).unwrap();
    assert_eq!(call(&mut rt, &mut m, "snprintf", &[d, 4, f]), 6);
    assert_eq!(string_at(&m, d), b"abc");
    assert_eq!(call(&mut rt, &mut m, "snprintf", &[d, 0, f]), 6);
    assert_eq!(string_at(&m, d), b"");
    let bad = text(&mut rt, &mut m, "%q");
    assert!(faults(&mut rt, &mut m, "printf", &[bad]));
    let wide = text(&mut rt, &mut m, "%*d");
    assert!(faults(&mut rt, &mut m, "printf", &[wide, u32::MAX, 1]));
    let s = text(&mut rt, &mut m, "%.1s");
    let e = bytes(&mut rt, &mut m, b"\xc3\xa9\0");
    assert!(faults(&mut rt, &mut m, "printf", &[s, e]));
}

#[test]
fn numbers_with_a_fraction_are_left_to_be_written() {
    let (mut rt, mut m) = start();
    let f = text(&mut rt, &mut m, "<%8.2f>%d");
    let bits = 1.5f64.to_bits();
    let args = [f, (bits >> 32) as u32, bits as u32, 9];
    match need(&mut rt, &mut m, "printf", &args) {
        Need::Texts(v) => {
            assert_eq!(v.len(), 1);
            assert_eq!(v[0].0, bits);
            assert_eq!(v[0].1.conv, b'f');
            assert_eq!(v[0].1.prec, Some(2));
        }
        other => panic!("{other:?}"),
    }
    let mut ans = Answer::default();
    ans.texts = vec!["1.50".to_string()];
    let (n, _) = call_with(&mut rt, &mut m, "printf", &args, ans);
    assert_eq!(n, 11);
    assert_eq!(rt.log, b"<    1.50>9");
    assert!(faults(&mut rt, &mut m, "printf", &args));
}

#[test]
fn values_are_read_out_of_texts() {
    let (mut rt, mut m) = start();
    let s = text(&mut rt, &mut m, " 12 ab-3 x1F Z");
    let f = text(&mut rt, &mut m, "%d %2s%i x%x %c");
    let d = rt.allot(64).unwrap();
    let n = call(&mut rt, &mut m, "sscanf", &[s, f, d, d + 8, d + 16, d + 24, d + 32]);
    assert_eq!(n, 5);
    assert_eq!(m.r32(d), 12);
    assert_eq!(string_at(&m, d + 8), b"ab");
    assert_eq!(m.r32(d + 16), (-3i32) as u32);
    assert_eq!(m.r32(d + 24), 0x1f);
    assert_eq!(m.r8(d + 32), b'Z');
    let f = text(&mut rt, &mut m, "%*d %s");
    let n = call(&mut rt, &mut m, "sscanf", &[s, f, d]);
    assert_eq!(n, 1);
    assert_eq!(string_at(&m, d), b"ab-3");
    let f = text(&mut rt, &mut m, "x%d");
    assert_eq!(call(&mut rt, &mut m, "sscanf", &[s, f, d]), 0);
    let f = text(&mut rt, &mut m, "%[a]");
    assert!(faults(&mut rt, &mut m, "sscanf", &[s, f, d]));
    let f = text(&mut rt, &mut m, "%d");
    assert!(faults(&mut rt, &mut m, "sscanf", &[s, f, 0x9000_0000]));
}

#[test]
fn fractions_are_read_as_double_or_single() {
    let (mut rt, mut m) = start();
    let s = text(&mut rt, &mut m, "1.5 -2e3");
    let f = text(&mut rt, &mut m, "%lf %f");
    let d = rt.allot(16).unwrap();
    match need(&mut rt, &mut m, "sscanf", &[s, f, d, d + 8]) {
        Need::Values(v) => assert_eq!(v, vec!["1.5", "-2e3"]),
        other => panic!("{other:?}"),
    }
    let mut ans = Answer::default();
    ans.values = vec![
        Bits { double: 1.5f64.to_bits(), single: 1.5f32.to_bits() },
        Bits { double: (-2000f64).to_bits(), single: (-2000f32).to_bits() },
    ];
    let (n, _) = call_with(&mut rt, &mut m, "sscanf", &[s, f, d, d + 8], ans);
    assert_eq!(n, 2);
    assert_eq!(((m.r32(d) as u64) << 32) | m.r32(d + 4) as u64, 1.5f64.to_bits());
    assert_eq!(m.r32(d + 8), (-2000f32).to_bits());
}

#[test]
fn directories_are_listed_in_order() {
    let (mut rt, mut m) = start();
    let p = text(&mut rt, &mut m, "/loq/data/");
    let d = call(&mut rt, &mut m, "opendir", &[p]);
    assert_ne!(d, 0);
    let mut names = Vec::new();
    loop {
        let e = call(&mut rt, &mut m, "readdir", &[d]);
        if e == 0 {
            break;
        }
        names.push(string_at(&m, e + 11));
    }
    assert_eq!(names, vec![b".".to_vec(), b"..".to_vec(), b"a.txt".to_vec(), b"voice".to_vec()]);
    assert_eq!(call(&mut rt, &mut m, "closedir", &[d]), 0);
    assert_eq!(call(&mut rt, &mut m, "readdir", &[d]), 0);
    let none = text(&mut rt, &mut m, "/loq/none");
    assert_eq!(call(&mut rt, &mut m, "opendir", &[none]), 0);
}

#[test]
fn a_directory_outside_is_asked_for() {
    let (mut rt, mut m) = Runtime::new("/srv/lib", "/srv/data", &modules()).unwrap();
    let p = text(&mut rt, &mut m, "lib");
    match need(&mut rt, &mut m, "opendir", &[p]) {
        Need::Names(p) => assert_eq!((p.dir.as_str(), p.rest.as_str()), ("/srv/lib", "")),
        other => panic!("{other:?}"),
    }
    let mut ans = Answer::default();
    ans.names = Some(vec!["z".to_string(), "B".to_string(), "a".to_string()]);
    let (d, _) = call_with(&mut rt, &mut m, "opendir", &[p], ans);
    assert_ne!(d, 0);
    assert_eq!(rt.dirs[0].names, vec![".", "..", "B", "a", "z"]);
}

#[test]
fn modules_and_routines_are_looked_up() {
    let (mut rt, mut m) = start();
    let p = text(&mut rt, &mut m, "/loq/lib\\loqmsx.so");
    assert_eq!(call(&mut rt, &mut m, "dlopen", &[p]), 0x9000_0001);
    let p = text(&mut rt, &mut m, "other.so");
    assert_eq!(call(&mut rt, &mut m, "dlopen", &[p]), 0);
    let s = text(&mut rt, &mut m, "ttsRead");
    assert_eq!(call(&mut rt, &mut m, "dlsym", &[0, s]), 0x1234);
    assert_eq!(call(&mut rt, &mut m, "dlsym", &[0, p]), 0);
    let e = call(&mut rt, &mut m, "dlerror", &[]);
    assert_eq!(e, rt.dl_err);
    assert_eq!(call(&mut rt, &mut m, "dlclose", &[1]), 0);
}

#[test]
fn a_file_is_mapped_from_an_offset_not_from_its_position() {
    let (mut rt, mut m) = start();
    let path = text(&mut rt, &mut m, "/loq/data/voice/b.bin");
    let mode = text(&mut rt, &mut m, "r");
    let f = call(&mut rt, &mut m, "fopen", &[path, mode]);
    call(&mut rt, &mut m, "fseek", &[f, 5, 0]);
    let a = call(&mut rt, &mut m, "mmap", &[0, 8, 0, 0, f, 1]);
    assert_eq!(a, 0x6000_0000);
    assert_eq!(m.read(a, 8), vec![2, 3, 4, 5, 0, 0, 0, 0]);
    let b = call(&mut rt, &mut m, "mmap", &[0, 0x1001, 0, 0, f, 99]);
    assert_eq!(b, 0x6000_1000);
    assert_eq!(rt.mmap_next, 0x6000_3000);
    assert_eq!(call(&mut rt, &mut m, "mmap", &[0, 8, 0, 0, 77, 0]), u32::MAX);
    assert_eq!(call(&mut rt, &mut m, "munmap", &[a, 8]), 0);
}

#[test]
fn odds_and_ends_give_what_they_always_give() {
    let (mut rt, mut m) = start();
    let d = rt.allot(16).unwrap();
    assert_eq!(call(&mut rt, &mut m, "__errno_location", &[]), rt.errno);
    assert_eq!(call(&mut rt, &mut m, "getpid", &[]), 1000);
    assert_eq!(call(&mut rt, &mut m, "getenv", &[d]), 0);
    assert_eq!(call(&mut rt, &mut m, "nanosleep", &[d]), 0);
    assert_eq!(call(&mut rt, &mut m, "gmtime_r", &[1, 2]), 2);
    assert_eq!(call(&mut rt, &mut m, "shmget", &[]), u32::MAX);
    assert_eq!(call(&mut rt, &mut m, "semctl", &[]), 0);
    assert_eq!(call(&mut rt, &mut m, "gethostname", &[d, 16]), 0);
    assert_eq!(string_at(&m, d), b"loqng");
    let mut ans = Answer::default();
    ans.secs = 77;
    ans.micros = 5;
    assert_eq!(call_with(&mut rt, &mut m, "time", &[d], ans.clone()).0, 77);
    assert_eq!(m.r32(d), 77);
    assert_eq!(call_with(&mut rt, &mut m, "gettimeofday", &[d], ans).0, 0);
    assert_eq!((m.r32(d), m.r32(d + 4)), (77, 5));
    assert!(matches!(need(&mut rt, &mut m, "time", &[0]), Need::Clock));
    assert!(matches!(need(&mut rt, &mut m, "gettimeofday", &[0]), Need::Nothing));
    assert!(call_named("fork").is_none());
}

#[test]
fn random_numbers_follow_their_seed() {
    let (mut rt, mut m) = start();
    assert_eq!(call(&mut rt, &mut m, "rand", &[]), 16838);
    assert_eq!(call(&mut rt, &mut m, "rand", &[]), 5758);
    let k = call_named("srand").unwrap();
    let mut c = rt.call_frame(&mut m, &[1]).unwrap();
    rt.import(k, &mut c, &mut m, &Answer::default());
    assert_eq!(call(&mut rt, &mut m, "rand", &[]), 16838);
}

#[test]
fn division_rounds_toward_zero_and_survives_zero() {
    let (mut rt, mut m) = start();
    let w = |v: i32| v as u32;
    assert_eq!(call(&mut rt, &mut m, "__divsi3", &[w(-7), 2]), w(-3));
    assert_eq!(call(&mut rt, &mut m, "__modsi3", &[w(-7), 2]), w(-1));
    assert_eq!(call(&mut rt, &mut m, "__modsi3", &[7, w(-2)]), 1);
    assert_eq!(call(&mut rt, &mut m, "__divsi3", &[w(i32::MIN), w(-1)]), w(i32::MIN));
    assert_eq!(call(&mut rt, &mut m, "__modsi3", &[w(i32::MIN), w(-1)]), 0);
    assert_eq!(call(&mut rt, &mut m, "__divsi3", &[7, 0]), 0);
    assert_eq!(call(&mut rt, &mut m, "__udivsi3", &[w(-1), 2]), 0x7fff_ffff);
    assert_eq!(call(&mut rt, &mut m, "__umodsi3", &[7, 0]), 0);
    assert_eq!(call(&mut rt, &mut m, "__umodsi3", &[7, 4]), 3);
}

#[test]
fn threads_are_started_woken_and_waited_for_outside() {
    let (mut rt, mut m) = start();
    let d = rt.allot(4).unwrap();
    assert_eq!(call(&mut rt, &mut m, "pthread_mutex_lock", &[d]), 0);
    assert!(matches!(need(&mut rt, &mut m, "pthread_create", &[d, 0, 0x40, 0x50]), Need::Enrol));
    let mut ans = Answer::default();
    ans.thread = 1;
    match call_with(&mut rt, &mut m, "pthread_create", &[d, 0, 0x40, 0x50], ans.clone()).1 {
        Action::Spawn { entry, arg, sp } => {
            assert_eq!((entry, arg, sp), (0x40, 0x50, 0x7DFF_FFC0));
        }
        other => panic!("{other:?}"),
    }
    assert_eq!(m.r32(d), 2);
    assert_eq!(rt.deferred, vec![(0x40, 0x50)]);
    assert!(m.mapped(0x7DC0_0000, 0x40_0000));
    assert_eq!(call_with(&mut rt, &mut m, "pthread_self", &[], ans).0, 2);
    match call_with(&mut rt, &mut m, "pthread_cond_wait", &[d, 0], Answer::default()).1 {
        Action::Wait(c) => assert_eq!(c, d),
        other => panic!("{other:?}"),
    }
    assert_eq!(rt.cond_waits, 1);
    match call_with(&mut rt, &mut m, "pthread_cond_broadcast", &[d], Answer::default()).1 {
        Action::Signal(c) => assert_eq!(c, d),
        other => panic!("{other:?}"),
    }
    match call_with(&mut rt, &mut m, "pthread_join", &[2], Answer::default()).1 {
        Action::Join(k) => assert_eq!(k, 1),
        other => panic!("{other:?}"),
    }
    assert!(faults(&mut rt, &mut m, "pthread_create", &[d, 0, 0, 0]));
    assert!(matches!(
        call_with(&mut rt, &mut m, "abort", &[], Answer::default()).1,
        Action::Abort
    ));
    assert!(matches!(
        call_with(&mut rt, &mut m, "exit", &[3], Answer::default()).1,
        Action::Exit(3)
    ));
}

#[test]
fn functions_of_fractions_are_computed_outside() {
    let (mut rt, mut m) = start();
    let x = 2.25f64.to_bits();
    let args = [(x >> 32) as u32, x as u32, 0, 0];
    match need(&mut rt, &mut m, "sqrt", &args) {
        Need::Number(_, a, _) => assert_eq!(a, x),
        other => panic!("{other:?}"),
    }
    let mut c = rt.call_frame(&mut m, &args).unwrap();
    let mut ans = Answer::default();
    ans.bits = 1.5f64.to_bits();
    rt.import(call_named("sqrt").unwrap(), &mut c, &mut m, &ans);
    assert_eq!(f64::from_bits(c.fp[0]), 1.5);
    let s = text(&mut rt, &mut m, "  1.25e1x");
    let end = rt.allot(4).unwrap();
    match need(&mut rt, &mut m, "__strtod_internal", &[s, end]) {
        Need::Value(v) => assert_eq!(v.iter().collect::<String>(), "1.25e1"),
        other => panic!("{other:?}"),
    }
    let mut c = rt.call_frame(&mut m, &[s, end]).unwrap();
    ans.bits = 12.5f64.to_bits();
    rt.import(call_named("__strtod_internal").unwrap(), &mut c, &mut m, &ans);
    assert_eq!(f64::from_bits(c.fp[0]), 12.5);
    assert_eq!(m.r32(end), s + 8);
}

#[test]
fn without_a_stack_no_call_is_made() {
    let (mut rt, mut m) = start();
    let mut c = rt.call_frame(&mut m, &[]).unwrap();
    c.r[13] = 0x7EFF_FFC4;
    let k = call_named("getpid").unwrap();
    assert!(matches!(rt.import(k, &mut c, &mut m, &Answer::default()), Action::Fault));
}

#[test]
fn paths_lose_their_detours() {
    assert_eq!(norm("a/b"), "/loq/a/b");
    assert_eq!(norm("/x//y/./z/../w"), "/x/y/w");
    assert_eq!(norm("..\\..\\.."), "/");
    assert_eq!(norm(""), "/loq");
    assert_eq!(norm(&norm("..\\a/./b")), norm("..\\a/./b"));
}

#[test]
fn the_longest_mount_wins() {
    let ms = vec![
        Mount { prefix: "/loq".to_string(), dir: "R".to_string() },
        Mount { prefix: "/loq/data".to_string(), dir: "D".to_string() },
    ];
    let p = real_place(&ms, "/loq/data//x/y").unwrap();
    assert_eq!((p.dir.as_str(), p.rest.as_str()), ("D", "x/y"));
    let p = real_place(&ms, "/loq/database").unwrap();
    assert_eq!((p.dir.as_str(), p.rest.as_str()), ("R", "database"));
    let p = real_place(&ms, "/loq").unwrap();
    assert_eq!((p.dir.as_str(), p.rest.as_str()), ("R", ""));
    assert!(real_place(&ms, "/lo").is_none());
}

#[test]
fn carried_files_and_directories_are_found() {
    assert_eq!(stored(FILES, "/loq/data/voice/c.bin"), Some(&[9u8][..]));
    assert_eq!(stored(FILES, "/loq/data/voice"), None);
    assert_eq!(stored_dir(FILES, "/loq/data"), vec!["a.txt", "voice"]);
    assert_eq!(stored_dir(FILES, "/loq/data/voice//"), vec!["b.bin", "c.bin"]);
    assert!(stored_dir(FILES, "/loq/dat").is_empty());
}

#[test]
fn without_mounts_nothing_is_asked_of_the_disk() {
    let (mut rt, mut m) = start();
    let path = text(&mut rt, &mut m, "/etc/passwd");
    let mode = text(&mut rt, &mut m, "r");
    let append = text(&mut rt, &mut m, "a");
    assert!(matches!(need(&mut rt, &mut m, "fopen", &[path, mode]), Need::Nothing));
    assert!(matches!(need(&mut rt, &mut m, "opendir", &[path]), Need::Nothing));
    assert_eq!(call(&mut rt, &mut m, "remove", &[path]), 0);
    let f = call(&mut rt, &mut m, "fopen", &[path, append]);
    let t = text(&mut rt, &mut m, "x");
    call(&mut rt, &mut m, "fputs", &[t, f]);
    assert_eq!(call(&mut rt, &mut m, "fclose", &[f]), 0);
}

#[test]
fn a_captured_path_is_never_written_out() {
    let (mut rt, mut m) = Runtime::new("/srv/lib", "/srv/data", &modules()).unwrap();
    let path = text(&mut rt, &mut m, "/loq/out.raw");
    let mode = text(&mut rt, &mut m, "w");
    let f = call(&mut rt, &mut m, "fopen", &[path, mode]);
    let t = text(&mut rt, &mut m, "pcm");
    call(&mut rt, &mut m, "fputs", &[t, f]);
    assert_eq!(call(&mut rt, &mut m, "fflush", &[f]), 0);
    assert_eq!(rt.sinks[0].data, b"pcm");
    assert_eq!(call(&mut rt, &mut m, "fclose", &[f]), 0);
}

fn line(rt: &mut Runtime, m: &mut Mem, name: &str, args: &[u32], ans: &Answer, there: bool) -> Option<String> {
    let c = rt.call_frame(m, args).unwrap();
    rt.report(call_named(name).unwrap(), &c, m, ans, there)
}

#[test]
fn opened_files_are_reported_with_where_they_come_from() {
    let mods = modules();
    let (mut rt, mut m) = Runtime::with("lib", "dat", FILES, &mods).unwrap();
    let mut of = |path: &str, mode: &str, file: Option<Vec<u8>>, there: bool| {
        let p = text(&mut rt, &mut m, path);
        let o = text(&mut rt, &mut m, mode);
        let ans = Answer { file, ..Answer::default() };
        line(&mut rt, &mut m, "fopen", &[p, o], &ans, there)
    };
    let open = |s: &str| Some(format!("[open] {s}"));
    assert_eq!(
        of("default.session", "r", None, false),
        open("\"/loq/default.session\" \"r\" -> 73 bytes (overlay)")
    );
    assert_eq!(of("out.raw", "wb", None, false), open("\"/loq/out.raw\" \"wb\" -> 0 bytes (sink)"));
    assert_eq!(
        of("data/a.txt", "r", None, false),
        open("\"/loq/data/a.txt\" \"r\" -> 12 bytes (built in)")
    );
    assert_eq!(
        of("data/x\"y", "r", Some(vec![1, 2, 3]), true),
        open("\"/loq/data/x\\\"y\" \"r\" -> 3 bytes (disk)")
    );
    assert_eq!(of("data/x", "r", None, false), None);
    assert_eq!(of("data/x", "w", None, false), open("\"/loq/data/x\" \"w\" -> 0 bytes (sink)  MISSING"));
    assert_eq!(of("data/x", "w", None, true), open("\"/loq/data/x\" \"w\" -> 0 bytes (sink)"));
    assert_eq!(of("data/x", "a", None, false), open("\"/loq/data/x\" \"a\" -> 0 bytes (disk)  MISSING"));
}

#[test]
fn a_report_looks_where_the_call_would() {
    let mods = modules();
    let (mut rt, mut m) = Runtime::with("lib", "dat", FILES, &mods).unwrap();
    let p = text(&mut rt, &mut m, "data/x");
    let c = rt.call_frame(&mut m, &[p, p]).unwrap();
    let place = rt.looks_for(call_named("fopen").unwrap(), &c, &m).unwrap();
    assert_eq!((place.dir.as_str(), place.rest.as_str()), ("dat", "x"));
    assert!(rt.looks_for(call_named("strlen").unwrap(), &c, &m).is_none());
}

#[test]
fn modules_routines_mappings_and_threads_are_reported() {
    let (mut rt, mut m) = start();
    let ans = Answer { thread: 2, ..Answer::default() };
    let so = text(&mut rt, &mut m, "/loq/lib/loqmsx.so");
    let no = text(&mut rt, &mut m, "none.so");
    let read = text(&mut rt, &mut m, "ttsRead");
    let path = text(&mut rt, &mut m, "data/a.txt");
    let f = call(&mut rt, &mut m, "fopen", &[path, path]);
    let mut of = |name: &str, args: &[u32]| line(&mut rt, &mut m, name, args, &ans, false);
    assert_eq!(
        of("dlopen", &[so]).unwrap(),
        "[dlopen] \"/loq/lib/loqmsx.so\" -> 0x90000001"
    );
    assert_eq!(
        of("dlopen", &[no]).unwrap(),
        "[dlopen] \"none.so\" -> 0x00000000  NOT BUILT IN"
    );
    assert_eq!(of("dlsym", &[0, read]), None);
    assert_eq!(
        of("dlsym", &[0, no]).unwrap(),
        "[dlsym] \"none.so\" is not exported by any module"
    );
    assert_eq!(
        of("mmap", &[0, 12, 0, 0, f, 3]).unwrap(),
        format!("[mmap] fd 0x{f:08x} +3 len 12 -> 0x60000000")
    );
    assert_eq!(
        of("mmap", &[0, 12, 0, 0, 1, 3]).unwrap(),
        "[mmap] no open file for fd 0x00000001"
    );
    assert_eq!(
        of("pthread_create", &[0, 0, 0x1234, 5]).unwrap(),
        "[sched] thread 2 at 0x00001234, stack 0x7dc00000"
    );
    assert_eq!(of("strlen", &[so]), None);
}
