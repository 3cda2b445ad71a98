//! Text for people: byte strings read as text, quoting and padding.
use vstd::prelude::*;

verus! {

/// The text that a byte string is read as: valid UTF-8 decoded, every
/// invalid sequence replaced by the replacement character.
pub uninterp spec fn lossy_text(bytes: Seq<u8>) -> Seq<char>;

/// A text as a quoted literal: in double quotes, with the characters that
/// cannot stand in a literal escaped.
pub uninterp spec fn debug_quoted(text: Seq<char>) -> Seq<char>;

/// `String::from_utf8_lossy`, with the result owned. The contract claims
/// only that the text depends on the bytes alone.
#[verifier::external_body]
pub(crate) fn lossy(bytes: &[u8]) -> (text: String)
    ensures
        text@ == lossy_text(bytes@),
{
    String::from_utf8_lossy(bytes).into_owned()
}

/// The `Debug` form of a `str`. The contract claims only that the quoted
/// text depends on the text alone.
#[verifier::external_body]
pub(crate) fn quote(text: &str) -> (quoted: String)
    ensures
        quoted@ == debug_quoted(text@),
{
    format!("{:?}", text)
}

/// A byte string as people are shown it: read as text and quoted.
pub open spec fn shown(bytes: Seq<u8>) -> Seq<char> {
    debug_quoted(lossy_text(bytes))
}

/// A run of `count` spaces.
pub open spec fn spaces(count: nat) -> Seq<char> {
    Seq::new(count, |i: int| ' ')
}

/// `text` filled up with spaces on the right to `width` characters; a text
/// that is as long or longer is left as it is.
pub open spec fn padded(text: Seq<char>, width: nat) -> Seq<char> {
    if text.len() >= width {
        text
    } else {
        text + spaces((width - text.len()) as nat)
    }
}

/// Reads a byte string as text and quotes it.
pub fn show(bytes: &[u8]) -> (out: String)
    ensures
        out@ == shown(bytes@),
{
    let text = lossy(bytes);
    quote(text.as_str())
}

/// Fills `text` up with spaces on the right to `width` characters.
pub fn pad(text: &str, width: usize) -> (out: String)
    ensures
        out@ == padded(text@, width as nat),
{
    let mut out = String::from_str(text);
    let mut length = text.unicode_len();
    if length >= width {
        return out;
    }
    let ghost start = length;
    while length < width
        invariant
            start == text@.len(),
            start <= length <= width,
            out@ == text@ + spaces((length - start) as nat),
        decreases width - length,
    {
        proof {
            reveal_strlit(" ");
        }
        let ghost before = out@;
        out.append(" ");
        length += 1;
        assert(" "@ =~= seq![' ']);
        assert(out@ =~= text@ + spaces((length - start) as nat));
    }
    out
}

} // verus!
