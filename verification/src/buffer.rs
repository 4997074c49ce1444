//! Operations on an owned text buffer that go through a borrow: a query
//! through a shared borrow and an append through an exclusive one.

use vstd::prelude::*;
use vstd::string::StringExecFns;
use vstd::utf8::{encode_scalar, encode_utf8};

verus! {

/// The number of bytes that the UTF-8 encoding of `text` occupies.
pub open spec fn byte_len(text: Seq<char>) -> nat {
    encode_utf8(text).len()
}

/// The text that `rustify` appends: a space followed by a crab.
pub open spec fn crab_suffix() -> Seq<char> {
    seq![' ', '🦀']
}

/// The encoding of a text followed by another is the encoding of the first
/// followed by that of the second, so byte lengths add up.
pub proof fn lemma_byte_len_concat(front: Seq<char>, back: Seq<char>)
    ensures
        encode_utf8(front + back) == encode_utf8(front) + encode_utf8(back),
        byte_len(front + back) == byte_len(front) + byte_len(back),
    decreases front.len(),
{
    if front.len() == 0 {
        assert(front + back =~= back);
    } else {
        lemma_byte_len_concat(front.drop_first(), back);
        assert((front + back).drop_first() =~= front.drop_first() + back);
    }
}

/// The space takes one byte and the crab four.
pub proof fn lemma_crab_suffix_bytes()
    ensures
        byte_len(crab_suffix()) == 5,
{
    let crab = crab_suffix().drop_first();
    assert(encode_scalar(' ' as u32).len() == 1);
    assert(encode_scalar('🦀' as u32).len() == 4);
    assert(encode_utf8(crab.drop_first()).len() == 0);
    assert(encode_utf8(crab_suffix()) =~= encode_scalar(' ' as u32) + encode_utf8(crab));
}

/// Returns the length of the buffer in bytes, reading it through a shared
/// borrow. The owner keeps the buffer and may go on using it.
pub fn calculate_length(s: &String) -> (len: usize)
    ensures
        len == byte_len(s@),
{
    s.as_str().as_bytes().len()
}

/// Appends a space and a crab to the buffer in place, writing through an
/// exclusive borrow. What the buffer held before stays in front, and the
/// buffer grows by five bytes.
pub fn rustify(s: &mut String)
    ensures
        final(s)@ == old(s)@ + crab_suffix(),
        byte_len(final(s)@) == byte_len(old(s)@) + 5,
{
    proof {
        reveal_strlit(" 🦀");
        assert(" 🦀"@ =~= crab_suffix());
        lemma_byte_len_concat(s@, crab_suffix());
        lemma_crab_suffix_bytes();
    }
    s.append(" 🦀");
}

} // verus!
