//! Rendering bytes for a human reader, and reading zero-terminated text.

use vstd::prelude::*;
use vstd::string::StringSliceAdditionalSpecFns;
use vstd::utf8::{decode_utf8, valid_utf8};

verus! {

/// `String::push` appends one character to the end of the string.
pub assume_specification[ String::push ](s: &mut String, ch: char)
    ensures
        final(s)@ == old(s)@.push(ch),
;

/// The character that stands for `byte` in a dump: the byte itself where it
/// is a printable ASCII character other than the space, a dot otherwise.
pub open spec fn ascii_char(byte: u8) -> char {
    if 0x21 <= byte <= 0x7e {
        byte as char
    } else {
        '.'
    }
}

/// The dump of `bytes` as text: one character for each byte.
pub open spec fn ascii_text(bytes: Seq<u8>) -> Seq<char> {
    Seq::new(bytes.len(), |i: int| ascii_char(bytes[i]))
}

/// Renders each byte as its ASCII character where that is printable and
/// not the space, and as a dot where it is not.
pub fn ascii_of(data: &[u8]) -> (text: String)
    ensures
        text@ == ascii_text(data@),
{
    let mut text = String::new();
    let mut i: usize = 0;
    while i < data.len()
        invariant
            i <= data@.len(),
            text@ == ascii_text(data@.subrange(0, i as int)),
        decreases data@.len() - i,
    {
        let byte = data[i];
        if 0x21 <= byte && byte <= 0x7e {
            text.push(byte as char);
        } else {
            text.push('.');
        }
        i += 1;
        assert(text@ =~= ascii_text(data@.subrange(0, i as int)));
    }
    assert(data@.subrange(0, i as int) =~= data@);
    text
}

/// The lower-case hexadecimal digit for `n`, where `0 <= n < 16`.
pub open spec fn hex_digit(n: int) -> char {
    if n < 10 {
        (0x30 + n) as char
    } else {
        (0x57 + n) as char
    }
}

/// The two hexadecimal digits of `byte`, the high one first.
pub open spec fn hex_pair(byte: u8) -> Seq<char> {
    seq![hex_digit(byte as int / 16), hex_digit(byte as int % 16)]
}

/// What parts the byte at index `i` of a dump from the one before it: a
/// space in front of every second byte but the first, nothing elsewhere.
pub open spec fn hex_gap(i: int) -> Seq<char> {
    if i != 0 && i % 2 == 0 {
        seq![' ']
    } else {
        Seq::empty()
    }
}

/// The dump of `bytes` in hexadecimal: two digits for each byte, and the
/// bytes in groups of two with a space between the groups.
pub open spec fn hex_text(bytes: Seq<u8>) -> Seq<char>
    decreases bytes.len(),
{
    if bytes.len() == 0 {
        Seq::empty()
    } else {
        hex_text(bytes.drop_last()) + hex_gap(bytes.len() - 1) + hex_pair(bytes.last())
    }
}

fn hex_digit_of(n: u8) -> (digit: char)
    requires
        n < 16,
    ensures
        digit == hex_digit(n as int),
{
    if n < 10 {
        (0x30 + n) as char
    } else {
        (0x57 + n) as char
    }
}

/// Renders each byte as two lower-case hexadecimal digits, with a space
/// after every second byte that another byte follows.
pub fn hex_of(data: &[u8]) -> (text: String)
    ensures
        text@ == hex_text(data@),
{
    let mut text = String::new();
    let mut i: usize = 0;
    while i < data.len()
        invariant
            i <= data@.len(),
            text@ == hex_text(data@.subrange(0, i as int)),
        decreases data@.len() - i,
    {
        let byte = data[i];
        let ghost before = text@;
        if i != 0 && i % 2 == 0 {
            text.push(' ');
        }
        text.push(hex_digit_of(byte / 16));
        text.push(hex_digit_of(byte % 16));
        proof {
            let next = data@.subrange(0, i + 1);
            assert(next.drop_last() =~= data@.subrange(0, i as int));
            assert(next.last() == byte);
            assert(text@ =~= before + hex_gap(i as int) + hex_pair(byte));
        }
        i += 1;
    }
    assert(data@.subrange(0, i as int) =~= data@);
    text
}

/// The index of the first zero byte of `bytes` at or after `from`, or the
/// length of `bytes` where no byte from there on is zero.
pub open spec fn text_end(bytes: Seq<u8>, from: int) -> int
    decreases bytes.len() - from,
{
    if from < 0 || from >= bytes.len() {
        bytes.len() as int
    } else if bytes[from] == 0 {
        from
    } else {
        text_end(bytes, from + 1)
    }
}

/// The message of the error for text that no zero byte ends.
pub open spec fn unterminated_message() -> Seq<char> {
    "String was not terminated"@
}

/// What std says of bytes that are not UTF-8, as text: the `Display` form
/// of the `Utf8Error` that `core::str::from_utf8` returns for them.
pub uninterp spec fn utf8_diagnostic(bytes: Seq<u8>) -> Seq<char>;

/// The zero-terminated text of `bytes` at `from`: the characters that the
/// bytes from `from` up to the first zero byte encode in UTF-8. It is an
/// error, told by its message, for no zero byte to follow, or for those
/// bytes not to be UTF-8.
pub open spec fn text_at(bytes: Seq<u8>, from: int) -> Result<Seq<char>, Seq<char>> {
    let end = text_end(bytes, from);
    let run = bytes.subrange(from, end);
    if end >= bytes.len() {
        Err(unterminated_message())
    } else if valid_utf8(run) {
        Ok(decode_utf8(run))
    } else {
        Err(utf8_diagnostic(run))
    }
}

/// Whether `res` is `expected`, the text or the message taken by its
/// characters.
pub open spec fn is_text(res: Result<&str, String>, expected: Result<Seq<char>, Seq<char>>) -> bool {
    match res {
        Ok(text) => expected == Ok::<Seq<char>, Seq<char>>(text@),
        Err(message) => expected == Err::<Seq<char>, Seq<char>>(message@),
    }
}

/// `core::str::from_utf8`, with its error rendered by `Display`. The call
/// succeeds exactly on valid UTF-8, and the text then consists of the very
/// bytes given. Of the error only its text is kept, which depends on the
/// bytes alone.
#[verifier::external_body]
fn decode_text(bytes: &[u8]) -> (res: Result<&str, String>)
    ensures
        res is Ok <==> valid_utf8(bytes@),
        res matches Ok(text) ==> text.spec_bytes() == bytes@,
        res matches Err(message) ==> message@ == utf8_diagnostic(bytes@),
{
    match core::str::from_utf8(bytes) {
        Ok(text) => Ok(text),
        Err(e) => Err(format!("{}", e)),
    }
}

/// Finds the first zero byte of `data` at or after `from`.
pub fn terminator(data: &[u8], from: usize) -> (end: usize)
    requires
        from <= data@.len(),
    ensures
        end == text_end(data@, from as int),
        from <= end <= data@.len(),
{
    let mut i: usize = from;
    while i < data.len() && data[i] != 0
        invariant
            from <= i <= data@.len(),
            text_end(data@, from as int) == text_end(data@, i as int),
        decreases data@.len() - i,
    {
        i += 1;
    }
    i
}

/// Reads the zero-terminated UTF-8 text of `data` that starts at `offset`.
pub fn str_of(data: &[u8], offset: usize) -> (res: Result<&str, String>)
    requires
        offset <= data@.len(),
    ensures
        is_text(res, text_at(data@, offset as int)),
{
    let end = terminator(data, offset);
    if end < data.len() {
        let run = vstd::slice::slice_subrange(data, offset, end);
        let res = decode_text(run);
        proof {
            if let Ok(text) = res {
                vstd::utf8::encode_utf8_decode_utf8(text@);
            }
        }
        res
    } else {
        Err("String was not terminated".to_owned())
    }
}

/// Text ends at the first zero byte: where the byte at `end` is zero and
/// none from `from` up to it is, the text at `from` is what the bytes
/// between the two encode.
pub proof fn lemma_text_ends_at_first_zero(bytes: Seq<u8>, from: int, end: int)
    requires
        0 <= from <= end < bytes.len(),
        bytes[end] == 0,
        forall|i: int| from <= i < end ==> bytes[i] != 0,
    ensures
        text_end(bytes, from) == end,
        valid_utf8(bytes.subrange(from, end)) ==> text_at(bytes, from) == Ok::<
            Seq<char>,
            Seq<char>,
        >(decode_utf8(bytes.subrange(from, end))),
        !valid_utf8(bytes.subrange(from, end)) ==> text_at(bytes, from) == Err::<
            Seq<char>,
            Seq<char>,
        >(utf8_diagnostic(bytes.subrange(from, end))),
    decreases end - from,
{
    if from < end {
        lemma_text_ends_at_first_zero(bytes, from + 1, end);
    }
}

/// Where no byte from `from` on is zero, there is no text at `from`, and
/// the error says that nothing ended it.
pub proof fn lemma_text_without_zero(bytes: Seq<u8>, from: int)
    requires
        0 <= from <= bytes.len(),
        forall|i: int| from <= i < bytes.len() ==> bytes[i] != 0,
    ensures
        text_end(bytes, from) == bytes.len(),
        text_at(bytes, from) == Err::<Seq<char>, Seq<char>>(unterminated_message()),
    decreases bytes.len() - from,
{
    if from < bytes.len() {
        lemma_text_without_zero(bytes, from + 1);
    }
}

} // verus!
