//! What a rule is made of.
use vstd::prelude::*;

verus! {

/// Whose spelling a test looks at.
#[derive(Clone, Copy, Debug, PartialEq, Eq, Structural)]
pub enum Subj {
    /// The phone's word.
    Word,
    /// The word before it.
    PrevWord,
    /// The word after it.
    NextWord,
}

/// How a spelling is compared.
#[derive(Clone, Copy, Debug, PartialEq, Eq, Structural)]
pub enum Match {
    /// It is the text.
    Equals,
    /// It starts with the text.
    Prefix,
    /// Its last bytes, so many of them, are the text.
    Suffix(u8),
    /// It holds the text.
    Contains,
}

/// How two numbers are compared.
#[derive(Clone, Copy, Debug, PartialEq, Eq, Structural)]
pub enum Rel {
    /// Equal.
    Eq,
    /// Not equal.
    Ne,
    /// Less.
    Lt,
    /// Less or equal.
    Le,
    /// Greater.
    Gt,
    /// Greater or equal.
    Ge,
}

/// A test.
#[derive(Debug)]
pub enum Cond {
    /// A nearby phone is, or is not, one of some.
    Code {
        /// How far from the phone.
        at: i16,
        /// Whether it is to be.
        want: bool,
        /// The codes.
        codes: Vec<u8>,
    },
    /// Two nearby phones are, or are not, of one word.
    SameWord {
        /// How far the first is.
        a: i16,
        /// How far the second is.
        b: i16,
        /// Whether they are to be.
        want: bool,
    },
    /// A nearby phone has, or has not, all of some features.
    Feat {
        /// How far from the phone.
        at: i16,
        /// Whether it is to have them.
        want: bool,
        /// The features.
        mask: u32,
    },
    /// A spelling compares, or does not, to one of some texts.
    Text {
        /// Whose.
        subj: Subj,
        /// How.
        how: Match,
        /// Whether it is to.
        want: bool,
        /// The texts.
        lits: Vec<String>,
    },
    /// The phone's index compares to a number.
    Index {
        /// How.
        rel: Rel,
        /// The number.
        value: u32,
    },
    /// The length of the word's spelling compares to a number.
    Len {
        /// How.
        rel: Rel,
        /// The number.
        value: u32,
    },
    /// A test that is not known, which never holds.
    Unread,
    /// A spelling is, or is not, empty.
    Absent {
        /// Whose.
        subj: Subj,
        /// Whether it is to be.
        want: bool,
    },
    /// One of some tests holds.
    Any(Vec<Cond>),
    /// All of some tests hold.
    All(Vec<Cond>),
    /// The word's flag byte is, or is not, a value.
    ElemByte {
        /// Which byte.
        off: u32,
        /// Whether it is to be.
        want: bool,
        /// The value.
        value: u8,
    },
}

/// What a rule does.
#[derive(Clone, Copy, Debug, PartialEq, Eq, Structural)]
pub enum Act {
    /// Writes a narrow phone.
    Out {
        /// How far from the next one.
        rel: u8,
        /// Its code.
        code: u8,
    },
    /// Moves on in the narrow phones.
    BumpJ(u8),
    /// Moves on in the broad phones.
    BumpI(u8),
    /// Says how far to move on in the broad phones.
    SetI(u8),
}

/// A rule.
#[derive(Debug)]
pub struct Rule {
    /// What it is known by.
    pub at: u32,
    /// What its effect is known by.
    pub store: u32,
    /// The phones that it is for; any where there are none.
    pub phones: Vec<u8>,
    /// Lists of tests: it fires where all of one list hold.
    pub arms: Vec<Vec<Cond>>,
    /// What it does.
    pub acts: Vec<Act>,
}

/// The rules, and the features of the phones.
pub struct Tables {
    /// Those that come before all others and do not stop them.
    pub prepass: Vec<Rule>,
    /// Those for every style.
    pub stage1: Vec<Rule>,
    /// Those for style 2.
    pub stage2: Vec<Rule>,
    /// Those for style 3.
    pub stage3: Vec<Rule>,
    /// The features of each phone, by code.
    pub feats: Vec<u32>,
}

} // verus!
