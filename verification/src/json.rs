//! JSON text of plain values.

use vstd::prelude::*;
use vstd::utf8::encode_utf8;
use crate::ordered::{opt_view, views};
use crate::text::{decimal, hex_char};

verus! {

/// A plain value that a query is answered with.
#[derive(Debug, PartialEq, Eq)]
pub enum Answer {
    Text(String),
    OptionalText(Option<String>),
    Texts(Vec<String>),
    OptionalNumber(Option<u64>),
}

/// The view of an answer.
pub enum AnswerView {
    Text(Seq<char>),
    OptionalText(Option<Seq<char>>),
    Texts(Seq<Seq<char>>),
    OptionalNumber(Option<u64>),
}

impl View for Answer {
    type V = AnswerView;

    open spec fn view(&self) -> AnswerView {
        match self {
            Answer::Text(text) => AnswerView::Text(text@),
            Answer::OptionalText(text) => AnswerView::OptionalText(opt_view(*text)),
            Answer::Texts(texts) => AnswerView::Texts(views(texts@)),
            Answer::OptionalNumber(number) => AnswerView::OptionalNumber(*number),
        }
    }
}

/// A character inside a JSON string: quotation mark, backslash and control characters are
/// escaped, the latter by a letter where there is one, else by their number.
pub open spec fn json_char(c: char) -> Seq<char> {
    if c == '"' || c == '\\' {
        seq!['\\', c]
    } else if c == '\u{8}' {
        seq!['\\', 'b']
    } else if c == '\t' {
        seq!['\\', 't']
    } else if c == '\n' {
        seq!['\\', 'n']
    } else if c == '\u{c}' {
        seq!['\\', 'f']
    } else if c == '\r' {
        seq!['\\', 'r']
    } else if (c as u32) < 32 {
        seq!['\\', 'u', '0', '0', hex_char((c as u32 / 16) as nat), hex_char((c as u32 % 16) as nat)]
    } else {
        seq![c]
    }
}

/// The characters of a JSON string.
pub open spec fn json_chars(s: Seq<char>) -> Seq<char>
    decreases s.len(),
{
    if s.len() == 0 {
        Seq::empty()
    } else {
        json_chars(s.drop_last()) + json_char(s.last())
    }
}

/// A JSON string.
pub open spec fn json_string(s: Seq<char>) -> Seq<char> {
    seq!['"'] + json_chars(s) + seq!['"']
}

/// JSON strings with commas between them.
pub open spec fn json_items(items: Seq<Seq<char>>) -> Seq<char>
    decreases items.len(),
{
    if items.len() == 0 {
        Seq::empty()
    } else if items.len() == 1 {
        json_string(items[0])
    } else {
        json_items(items.drop_last()) + seq![','] + json_string(items.last())
    }
}

/// An answer as JSON.
pub open spec fn json_text(a: AnswerView) -> Seq<char> {
    match a {
        AnswerView::Text(text) => json_string(text),
        AnswerView::OptionalText(Some(text)) => json_string(text),
        AnswerView::OptionalText(None) => "null"@,
        AnswerView::Texts(texts) => seq!['['] + json_items(texts) + seq![']'],
        AnswerView::OptionalNumber(Some(number)) => decimal(number as nat),
        AnswerView::OptionalNumber(None) => "null"@,
    }
}

/// The bytes that `serde_json::to_vec` gives for a plain value, without white space: a text
/// is a JSON string with the escapes of `json_char`, a missing value is `null`, texts are
/// an array of strings, and a number is written in decimal. For these values it does not
/// fail.
#[verifier::external_body]
pub(crate) fn json_answer(answer: &Answer) -> (r: Vec<u8>)
    ensures
        r@ == encode_utf8(json_text(answer@)),
{
    let bytes = match answer {
        Answer::Text(text) => serde_json::to_vec(text),
        Answer::OptionalText(text) => serde_json::to_vec(text),
        Answer::Texts(texts) => serde_json::to_vec(texts),
        Answer::OptionalNumber(number) => serde_json::to_vec(number),
    };
    bytes.unwrap_or_default()
}

// ---------------------------------------------------------------------------
// Laws
// ---------------------------------------------------------------------------

/// A text is written between quotation marks, each character in turn: a quotation mark and a
/// backslash behind a backslash, the characters below the blank as escapes, and any other as
/// it is.
pub proof fn law_json_texts(s: Seq<char>, c: char)
    ensures
        json_string(s)[0] == '"' && json_string(s).last() == '"',
        json_string(s).subrange(1, json_string(s).len() - 1) == json_chars(s),
        json_chars(Seq::empty()).len() == 0,
        json_chars(s.push(c)) == json_chars(s) + json_char(c),
        json_char('"') == seq!['\\', '"'],
        json_char('\\') == seq!['\\', '\\'],
        json_char('\n') == seq!['\\', 'n'] && json_char('\r') == seq!['\\', 'r'] && json_char('\t') == seq!['\\', 't'],
        json_char('\u{8}') == seq!['\\', 'b'] && json_char('\u{c}') == seq!['\\', 'f'],
        c as u32 >= 32 && c != '"' && c != '\\' ==> json_char(c) == seq![c],
        (c as u32) < 32 ==> json_char(c)[0] == '\\' && json_char(c).len() >= 2,
{
    assert(s.push(c).drop_last() =~= s);
    assert(json_string(s).subrange(1, json_string(s).len() - 1) =~= json_chars(s));
}

/// An answer that there is not is `null`, a text is a string, a number is its digits, and
/// texts stand between brackets with commas in between.
pub proof fn law_json_answers(text: Seq<char>, number: u64, texts: Seq<Seq<char>>, more: Seq<char>)
    ensures
        json_text(AnswerView::Text(text)) == json_string(text),
        json_text(AnswerView::OptionalText(Some(text))) == json_string(text),
        json_text(AnswerView::OptionalText(None)) == "null"@,
        json_text(AnswerView::OptionalNumber(Some(number))) == decimal(number as nat),
        json_text(AnswerView::OptionalNumber(None)) == "null"@,
        json_text(AnswerView::Texts(texts)) == seq!['['] + json_items(texts) + seq![']'],
        json_items(Seq::empty()).len() == 0,
        json_items(seq![text]) == json_string(text),
        texts.len() > 0 ==> json_items(texts.push(more)) == json_items(texts) + seq![','] + json_string(more),
{
    assert(texts.push(more).drop_last() =~= texts);
}

} // verus!
