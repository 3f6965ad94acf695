//! The characters of a text, as reading them from its bytes gives them: one
//! item for each character, and one for each run of bytes that encodes none.

use vstd::prelude::*;
use utf8_chars::BufReadCharsExt;
use crate::lexer::LexerIoError;

verus! {

/// What one reading gives: a character, or the failure to read one.
pub type Item = Result<char, LexerIoError>;

/// What a reading gave and how many bytes it took.
pub struct Utf8Read {
    pub item: Item,
    pub taken: nat,
}

/// What `read_char` of `utf8-chars` gives before the bytes `bytes`, of
/// which there is at least one, and how many of them it takes.
pub uninterp spec fn utf8_read(bytes: Seq<u8>) -> Utf8Read;

/// The first item of a text and the bytes behind it.
pub struct Decoded {
    pub item: Item,
    pub rest: Seq<u8>,
}

/// The first item of the text `bytes`, of which there is at least one. A
/// byte below `0x80` is a character by itself. What any other byte starts
/// is for the decoder to say; it takes at least that byte, and no more
/// bytes than there are.
pub open spec fn decode(bytes: Seq<u8>) -> Decoded {
    if bytes[0] < 0x80 {
        Decoded { item: Ok(bytes[0] as char), rest: bytes.skip(1) }
    } else {
        let read = utf8_read(bytes);
        let taken = if read.taken < 1 {
            1
        } else if read.taken > bytes.len() {
            bytes.len()
        } else {
            read.taken
        };
        Decoded { item: read.item, rest: bytes.skip(taken as int) }
    }
}

/// The items of the text `bytes`.
pub open spec fn decoded(bytes: Seq<u8>) -> Seq<Item>
    decreases bytes.len(),
{
    if bytes.len() == 0 {
        Seq::empty()
    } else {
        seq![decode(bytes).item] + decoded(decode(bytes).rest)
    }
}

/// The items of a text that holds the characters `chars` and no failure.
pub open spec fn text(chars: Seq<char>) -> Seq<Item> {
    Seq::new(chars.len(), |i: int| Ok(chars[i]))
}

/// What a reading gives at the end of a text.
pub open spec fn nothing() -> Result<Option<char>, LexerIoError> {
    Ok(None)
}

/// What a reading gives that found `item`.
pub open spec fn reading(item: Item) -> Result<Option<char>, LexerIoError> {
    match item {
        Ok(c) => Ok(Some(c)),
        Err(e) => Err(e),
    }
}

/// Calls `BufReadCharsExt::read_char` of `utf8-chars` on the bytes that are
/// left, and turns its error into a kind and a message.
///
/// It is claimed that at the end of the bytes it gives no character and
/// takes nothing; that before a byte below `0x80` it gives that byte as a
/// character and takes it; and that before any other byte it gives a
/// character or a failure which depend on the bytes alone, taking at least
/// one byte and no more than there are.
#[verifier::external_body]
pub(crate) fn read_utf8(input: &mut &[u8]) -> (r: Result<Option<char>, LexerIoError>)
    ensures
        old(input)@.len() == 0 ==> r == nothing() && final(input)@ == old(input)@,
        old(input)@.len() > 0 ==> r == reading(decode(old(input)@).item) && final(input)@
            == decode(old(input)@).rest,
        old(input)@.len() > 0 && old(input)@[0] >= 0x80 ==> r == reading(
            utf8_read(old(input)@).item,
        ),
{
    match input.read_char() {
        Ok(c) => Ok(c),
        Err(e) => Err(LexerIoError { kind: e.kind(), message: e.to_string() }),
    }
}

/// A text of bytes below `0x80` holds these bytes as its characters.
pub proof fn law_ascii_text(bytes: Seq<u8>)
    requires
        forall|i: int| 0 <= i < bytes.len() ==> bytes[i] < 0x80,
    ensures
        decoded(bytes) == text(Seq::new(bytes.len(), |i: int| bytes[i] as char)),
    decreases bytes.len(),
{
    if bytes.len() > 0 {
        let rest = bytes.skip(1);
        law_ascii_text(rest);
        assert(decoded(bytes) =~= text(Seq::new(bytes.len(), |i: int| bytes[i] as char))) by {
            assert forall|i: int| 0 <= i < bytes.len() implies decoded(bytes)[i] == Ok::<
                char,
                LexerIoError,
            >(bytes[i] as char) by {
                if i > 0 {
                    assert(decoded(rest)[i - 1] == text(
                        Seq::new(rest.len(), |j: int| rest[j] as char),
                    )[i - 1]);
                    assert(rest[i - 1] == bytes[i]);
                }
            }
        }
    }
}

/// A text never has more items than bytes.
pub proof fn lemma_decoded_len(bytes: Seq<u8>)
    ensures
        decoded(bytes).len() <= bytes.len(),
    decreases bytes.len(),
{
    if bytes.len() > 0 {
        lemma_decoded_len(decode(bytes).rest);
    }
}

} // verus!
