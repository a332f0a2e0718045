//! The one way these readers fail: a file that is not what its extension
//! claims.
use vstd::prelude::*;
use super::chars::{push_decimal, push_str, text_of, written};

verus! {

/// A malformed file.
#[derive(Debug, Clone, PartialEq, Eq)]
pub struct Error {
    /// The file's name.
    pub file: String,
    /// The line, counted from one, or zero where no line is at fault.
    pub line: usize,
    /// What is wrong.
    pub what: String,
}

/// A malformed file as mathematics.
pub struct Fault {
    /// The file's name.
    pub file: Seq<char>,
    /// The line, or zero.
    pub line: int,
    /// What is wrong.
    pub what: Seq<char>,
}

impl View for Error {
    type V = Fault;

    open spec fn view(&self) -> Fault {
        Fault { file: self.file@, line: self.line as int, what: self.what@ }
    }
}

impl Fault {
    /// The fault as a message.
    pub open spec fn message(self) -> Seq<char> {
        if self.line == 0 {
            self.file + ": "@ + self.what
        } else {
            self.file + ":"@ + written(self.line as nat, 10) + ": "@ + self.what
        }
    }
}

impl Error {
    /// An error in `file` at `line`.
    pub fn new(file: &str, line: usize, what: String) -> (r: Self)
        ensures
            r@ == (Fault { file: file@, line: line as int, what: what@ }),
    {
        Error { file: file.to_owned(), line, what }
    }

    /// The error as a message: the file, the line where there is one, and what
    /// is wrong.
    pub fn message(&self) -> (r: String)
        ensures
            r@ == self@.message(),
    {
        let mut out: Vec<char> = Vec::new();
        push_str(&mut out, self.file.as_str());
        if self.line != 0 {
            push_str(&mut out, ":");
            push_decimal(&mut out, self.line as u64);
        }
        push_str(&mut out, ": ");
        push_str(&mut out, self.what.as_str());
        assert(out@ =~= self@.message());
        text_of(out.as_slice())
    }
}

/// A message made of a text, a name and a closing text.
pub fn quoted(before: &str, name: &[char], after: &str) -> (r: String)
    ensures
        r@ == before@ + name@ + after@,
{
    let mut out: Vec<char> = Vec::new();
    push_str(&mut out, before);
    super::chars::push_all(&mut out, name);
    push_str(&mut out, after);
    assert(out@ =~= before@ + name@ + after@);
    text_of(out.as_slice())
}

} // verus!
