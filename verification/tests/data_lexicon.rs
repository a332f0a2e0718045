use loqng::data::lexicon::Lexicon;

const LEX: &str = "\
EnglishUs6.9\n\
;;; This file contains abbreviations, acronyms, symbols\n\
; The syntax is: \"word\" = \"expansion\"\n\
\n\
\"s. Martin\" = \"saint Martin\"\n\
\"%\" = \"per cent\"\n\
\"\\xCC\" = \"Carabinieri\"\n\
\"cc\" = \"carbon copy\"\n";

const THREE: &str = "\
EnglishUs6.9\n\
\"\\xCC\" = \"Carabinieri\"\n\
\"\\xCc\" = \"carbon copy\"\n\
\"\\xcc\" = \"conto corrente\"\n";

#[test]
fn reads_name_and_entries() {
    let l = Lexicon::parse("EnglishUs6.9.lex", LEX).unwrap();
    assert_eq!(l.name, "EnglishUs6.9");
    assert_eq!(l.len(), 4);
}

#[test]
fn multi_word_keys_survive() {
    let l = Lexicon::parse("x.lex", LEX).unwrap();
    assert_eq!(l.lookup("s. Martin"), Some("saint Martin"));
    assert_eq!(l.lookup("S. MARTIN"), Some("saint Martin"));
}

#[test]
fn an_exact_entry_outranks_a_loose_one() {
    let l = Lexicon::parse("x.lex", LEX).unwrap();
    assert_eq!(l.lookup("CC"), Some("Carabinieri"));
    assert_eq!(l.lookup("cc"), Some("carbon copy"));
    assert_eq!(l.lookup("Cc"), Some("carbon copy"));

    let exact = l.entries.iter().find(|e| e.case_sensitive).unwrap();
    assert_eq!(exact.word, "CC");
    assert_eq!(exact.expansion, "Carabinieri");
}

#[test]
fn three_casings_of_one_word_stay_three_entries() {
    let l = Lexicon::parse("x.lex", THREE).unwrap();
    assert_eq!(l.len(), 3);
    assert_eq!(l.lookup("CC"), Some("Carabinieri"));
    assert_eq!(l.lookup("Cc"), Some("carbon copy"));
    assert_eq!(l.lookup("cc"), Some("conto corrente"));
    assert_eq!(l.lookup("cC"), None);
}

#[test]
fn symbols_are_entries_too() {
    let l = Lexicon::parse("x.lex", LEX).unwrap();
    assert_eq!(l.lookup("%"), Some("per cent"));
}

#[test]
fn a_lexicon_with_no_name_line_keeps_its_first_entry() {
    let l = Lexicon::parse("sage.lex", "\"endec\" = \"\\fE-n-d-`E-kh\"\n\n").unwrap();
    assert_eq!(l.name, "");
    assert_eq!(l.len(), 1);
    assert_eq!(l.lookup("endec"), Some("\\fE-n-d-`E-kh"));
}

#[test]
fn an_empty_lexicon_is_not_an_error() {
    let l = Lexicon::parse("user.lex", "").unwrap();
    assert_eq!(l.name, "");
    assert!(l.is_empty());
}

#[test]
fn a_comment_first_line_is_not_a_name() {
    let l = Lexicon::parse("x.lex", "; just a comment\n\"a\" = \"b\"\n").unwrap();
    assert_eq!(l.name, "");
    assert_eq!(l.lookup("a"), Some("b"));
}
