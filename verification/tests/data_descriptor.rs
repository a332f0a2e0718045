use loqng::data::descriptor::Descriptor;

const VDE: &str = "\
; Voice descriptor file for Loquendo TTS\n\
\n\
\"Include\"\t\t=\t\"EnglishUs6.9.lde\"\n\
\"Name\"\t\t\t=\t\"Dave-19200\"\n\
;\"Lexicon[1]\"\t\t=\t\"EnglishUs/Dave/Dave.lex\"\n\
\"Lexicon[1]\"\t\t=\t\"EnglishUs/Dave/DaveAU.lex\"\n\
\"SignalDescriptor[0]\" \t=\t\"EnglishUs/Dave/Dave\"\n\
\"SignalDescriptor[2]\"   =\t\"EnglishUs/Dave/DaveAU\"\n\
\"SignalDescriptor[1]\" \t=\t\"EnglishUs/Dave/DaveGilded\"\n";

#[test]
fn parses_a_voice_descriptor() {
    let d = Descriptor::parse("Dave.vde", VDE).unwrap();
    assert_eq!(d.get("Name"), Some("Dave-19200"));
    assert_eq!(d.get("name"), Some("Dave-19200"));
    assert_eq!(d.includes(), vec!["EnglishUs6.9.lde"]);
}

#[test]
fn comments_are_not_entries() {
    let d = Descriptor::parse("Dave.vde", VDE).unwrap();
    assert_eq!(
        d.get_indexed("Lexicon", 1),
        Some("EnglishUs/Dave/DaveAU.lex")
    );
    assert_eq!(d.all("Lexicon").len(), 1);
}

#[test]
fn indexed_entries_sort_by_index_not_file_order() {
    let d = Descriptor::parse("Dave.vde", VDE).unwrap();
    let sd = d.indexed("SignalDescriptor");
    assert_eq!(
        sd,
        vec![
            (0, "EnglishUs/Dave/Dave"),
            (1, "EnglishUs/Dave/DaveGilded"),
            (2, "EnglishUs/Dave/DaveAU"),
        ]
    );
}

#[test]
fn merge_keeps_the_more_specific_value() {
    let mut voice = Descriptor::parse("v", "\"Description\" = \"voice\"\n").unwrap();
    let lang = Descriptor::parse(
        "l",
        "\"Description\" = \"lang\"\n\"Library\" = \"LoqEnglish6.9\"\n",
    )
    .unwrap();
    voice.merge_under(&lang);
    assert_eq!(voice.get("Description"), Some("voice"));
    assert_eq!(voice.get("Library"), Some("LoqEnglish6.9"));
}

#[test]
fn a_value_may_contain_an_equals_sign() {
    let d = Descriptor::parse("s", "\"Extra\" = \"Language=English\"\n").unwrap();
    assert_eq!(d.get("Extra"), Some("Language=English"));
}
