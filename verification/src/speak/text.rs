//! The text to be spoken, and what is made of it.
use vstd::prelude::*;
use vstd::utf8::{decode_utf8, encode_utf8, valid_utf8};
use crate::data::chars::{
    chars_of, find, find_from, hex8, lines, pieces, push_all, push_hex8, push_str, split_lines,
    text_of, trim, trim_end, trim_right, trimmed,
};
use crate::data::text::{latin1, latin1_chars};
use crate::wav::{header, wav};

verus! {

/// Bytes as text, by `std::str::from_utf8`: the text that they encode where
/// they are well-formed, and nothing where they are not.
#[verifier::external_body]
fn utf8_text(raw: &[u8]) -> (r: Option<String>)
    ensures
        match r {
            Some(s) => valid_utf8(raw@) && s@ == decode_utf8(raw@),
            None => !valid_utf8(raw@),
        },
{
    std::str::from_utf8(raw).ok().map(String::from)
}

/// What bytes say: the text that they encode where they are well-formed, and
/// one character to a byte where they are not.
pub open spec fn said_by(raw: Seq<u8>) -> Seq<char> {
    if valid_utf8(raw) {
        decode_utf8(raw)
    } else {
        latin1(raw)
    }
}

/// Bytes as text: as they are where they are well-formed, and one character to
/// a byte where they are not.
pub fn latin1_text(raw: &[u8]) -> (r: String)
    ensures
        r@ == said_by(raw@),
{
    match utf8_text(raw) {
        Some(s) => s,
        None => text_of(latin1_chars(raw).as_slice()),
    }
}

/// A text that was written as bytes is read as it was.
pub proof fn written_texts_are_read(s: Seq<char>)
    ensures
        said_by(encode_utf8(s)) == s,
{
    vstd::utf8::encode_utf8_valid_utf8(s);
    vstd::utf8::encode_utf8_decode_utf8(s);
}

/// A text without the white space around it.
pub fn bare(s: &str) -> (r: String)
    ensures
        r@ == trimmed(s@),
{
    text_of(trim(chars_of(s).as_slice()))
}

/// Whether a character ends a sentence.
pub open spec fn ends_sentence(c: char) -> bool {
    c == '.' || c == '!' || c == '?' || c == ';' || c == ':'
}

/// A text as the engine is given it: with a full stop where it does not end a
/// sentence.
pub open spec fn utterance_of(s: Seq<char>) -> Seq<char> {
    let t = trim_end(s);
    if t.len() > 0 && ends_sentence(t.last()) {
        s
    } else {
        s.push('.')
    }
}

/// A text as the engine is given it.
pub fn utterance(s: &str) -> (r: String)
    ensures
        r@ == utterance_of(s@),
{
    let mut cs: Vec<char> = chars_of(s);
    let t: &[char] = trim_right(cs.as_slice());
    let n: usize = t.len();
    let ended: bool = n > 0 && (t[n - 1] == '.' || t[n - 1] == '!' || t[n - 1] == '?' || t[n - 1]
        == ';' || t[n - 1] == ':');
    if !ended {
        cs.push('.');
    }
    text_of(cs.as_slice())
}

/// What the engine is given always ends a sentence.
pub proof fn utterances_end(s: Seq<char>)
    ensures
        trim_end(utterance_of(s)).len() > 0,
        ends_sentence(trim_end(utterance_of(s)).last()),
        utterance_of(utterance_of(s)) == utterance_of(s),
{
    let t = trim_end(s);
    if !(t.len() > 0 && ends_sentence(t.last())) {
        assert(s.push('.').last() == '.');
    }
}

/// A request to speak.
#[derive(Debug, Clone, PartialEq, Eq)]
pub enum Request {
    /// A line that says nothing.
    Blank,
    /// A line without a tab.
    NoTab,
    /// A text, and where its audio goes.
    Say {
        /// Where the audio goes.
        path: String,
        /// The text.
        text: String,
    },
}

/// A request as mathematics.
pub enum Asked {
    /// A line that says nothing.
    Blank,
    /// A line without a tab.
    NoTab,
    /// A text, and where its audio goes.
    Say(Seq<char>, Seq<char>),
}

impl View for Request {
    type V = Asked;

    open spec fn view(&self) -> Asked {
        match *self {
            Request::Blank => Asked::Blank,
            Request::NoTab => Asked::NoTab,
            Request::Say { path, text } => Asked::Say(path@, text@),
        }
    }
}

/// Requests as mathematics.
pub open spec fn asked(v: Seq<Request>) -> Seq<Asked> {
    v.map_values(|r: Request| r@)
}

/// The request on a line.
pub open spec fn request_on(line: Seq<char>) -> Asked {
    let k = find_from(line, '\t', 0);
    if trimmed(line).len() == 0 {
        Asked::Blank
    } else if k >= line.len() {
        Asked::NoTab
    } else {
        Asked::Say(trimmed(line.subrange(0, k)), line.subrange(k + 1, line.len() as int))
    }
}

/// Reads the request on a line.
pub fn request(line: &[char]) -> (r: Request)
    ensures
        r@ == request_on(line@),
{
    if trim(line).len() == 0 {
        return Request::Blank;
    }
    let k: usize = find(line, '\t', 0);
    if k >= line.len() {
        return Request::NoTab;
    }
    Request::Say {
        path: text_of(trim(vstd::slice::slice_subrange(line, 0, k))),
        text: text_of(vstd::slice::slice_subrange(line, k + 1, line.len())),
    }
}

/// The requests on some lines.
pub open spec fn requests_on(ls: Seq<Seq<char>>) -> Seq<Asked> {
    ls.map_values(|l: Seq<char>| request_on(l))
}

/// Reads requests, one to a line.
pub fn requests(input: &str) -> (r: Vec<Request>)
    ensures
        asked(r@) == requests_on(lines(input@)),
{
    let ls: Vec<Vec<char>> = split_lines(chars_of(input).as_slice());
    let ghost all = pieces(ls@);
    let mut out: Vec<Request> = Vec::new();
    let mut i: usize = 0;
    while i < ls.len()
        invariant
            i <= ls@.len(),
            all == pieces(ls@),
            asked(out@) == requests_on(all.take(i as int)),
        decreases ls@.len() - i,
    {
        assert(all[i as int] == ls@[i as int]@);
        let ghost before = asked(out@);
        let r: Request = request(ls[i].as_slice());
        out.push(r);
        assert(asked(out@) =~= before.push(r@));
        assert(requests_on(all.take(i + 1)) =~= requests_on(all.take(i as int)).push(
            request_on(all[i as int]),
        ));
        i = i + 1;
    }
    assert(all.take(ls@.len() as int) =~= all);
    out
}

/// What is written for some audio: the samples, or a file around them. Nothing
/// where they do not fit one.
pub open spec fn payload_of(pcm: Seq<u8>, raw: bool, rate: u32) -> Option<Seq<u8>> {
    if raw {
        Some(pcm)
    } else if pcm.len() + 36 <= u32::MAX && rate * 2 <= u32::MAX {
        Some(header(pcm.len() as u32, rate) + pcm)
    } else {
        None
    }
}

/// Makes what is written for some audio.
pub fn payload(pcm: &[u8], raw: bool, rate: u32) -> (r: Option<Vec<u8>>)
    ensures
        match (r, payload_of(pcm@, raw, rate)) {
            (Some(v), Some(want)) => v@ == want,
            (None, None) => true,
            _ => false,
        },
{
    if raw {
        return Some(vstd::slice::slice_to_vec(pcm));
    }
    if crate::wav::fits(pcm, rate) {
        Some(wav(pcm, rate))
    } else {
        None
    }
}

/// What is said of a log: it, on a line of its own, where there is one.
pub open spec fn with_log(s: Seq<char>, log: Seq<char>) -> Seq<char> {
    if log.len() == 0 {
        s
    } else {
        s + "\n"@ + trim_end(log)
    }
}

fn push_log(out: &mut Vec<char>, log: &str)
    ensures
        final(out)@ == with_log(old(out)@, log@),
{
    let cs: Vec<char> = chars_of(log);
    if cs.len() > 0 {
        push_str(out, "\n");
        push_all(out, trim_right(cs.as_slice()));
    }
}

/// What is said where a routine fails.
pub fn failure(name: &str, rc: u32, log: &str) -> (r: String)
    ensures
        r@ == with_log(name@ + " failed, 0x"@ + hex8(rc), log@),
{
    let mut out: Vec<char> = Vec::new();
    push_str(&mut out, name);
    push_str(&mut out, " failed, 0x");
    push_hex8(&mut out, rc);
    assert(out@ =~= name@ + " failed, 0x"@ + hex8(rc));
    push_log(&mut out, log);
    text_of(out.as_slice())
}

/// What is said where no audio came.
pub fn silence(log: &str) -> (r: String)
    ensures
        r@ == with_log("the engine produced no audio"@, log@),
{
    let mut out: Vec<char> = Vec::new();
    push_str(&mut out, "the engine produced no audio");
    assert(out@ =~= "the engine produced no audio"@);
    push_log(&mut out, log);
    text_of(out.as_slice())
}

} // verus!
