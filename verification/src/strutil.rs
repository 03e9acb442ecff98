//! Bridges between byte sequences, characters and `String`, together with the
//! trusted declarations for the text facilities of std that vstd leaves
//! unspecified.

use vstd::prelude::*;

verus! {

use vstd::utf8::*;

/// What lossy UTF-8 decoding yields on arbitrary bytes: the decoded text with
/// every ill-formed sequence replaced by U+FFFD. The result depends on the
/// bytes alone.
pub uninterp spec fn lossy_utf8(bytes: Seq<u8>) -> Seq<char>;

/// Relies on core::str::from_utf8: it succeeds exactly on valid UTF-8 and
/// yields the decoded characters.
#[verifier::external_body]
pub(crate) fn try_decode(bytes: &[u8]) -> (r: Option<String>)
    ensures
        r is Some <==> valid_utf8(bytes@),
        r matches Some(s) ==> s@ == decode_utf8(bytes@),
{
    match core::str::from_utf8(bytes) {
        Ok(s) => Some(s.to_owned()),
        Err(_) => None,
    }
}

/// Relies on String::from_utf8_lossy: the result is a function of the bytes
/// alone, and valid input is decoded without replacement.
#[verifier::external_body]
pub(crate) fn decode_lossy(bytes: &[u8]) -> (r: String)
    ensures
        r@ == lossy_utf8(bytes@),
        valid_utf8(bytes@) ==> r@ == decode_utf8(bytes@),
{
    String::from_utf8_lossy(bytes).into_owned()
}

/// Relies on String's FromIterator impl over char: the collected string holds
/// exactly the given characters in order.
#[verifier::external_body]
pub(crate) fn chars_to_string(chars: &Vec<char>) -> (r: String)
    ensures
        r@ == chars@,
{
    chars.iter().collect()
}

/// Relies on str::chars: the iterator yields exactly the string's characters
/// in order.
#[verifier::external_body]
pub(crate) fn str_to_chars(s: &str) -> (r: Vec<char>)
    ensures
        r@ == s@,
{
    s.chars().collect()
}

/// The bytes of a string, copied into an owned vector.
pub fn str_to_bytes(s: &str) -> (r: Vec<u8>)
    ensures
        r@ == encode_utf8(s@),
{
    vstd::slice::slice_to_vec(s.as_bytes())
}

/// In valid UTF-8, the position just after an ASCII byte is a character
/// boundary: an ASCII byte encodes a whole scalar, so the next byte starts a
/// new one.
pub proof fn lemma_boundary_after_ascii(t: Seq<u8>, j: int)
    requires
        valid_utf8(t),
        1 <= j <= t.len(),
        t[j - 1] < 0x80,
    ensures
        is_char_boundary(t, j),
{
    is_char_boundary_iff_not_is_continuation_byte(t, j - 1);
    if j == t.len() {
        is_char_boundary_start_end_of_seq(t);
    } else {
        valid_utf8_split(t, j - 1);
        let s2 = t.subrange(j - 1, t.len() as int);
        assert(valid_utf8(s2));
        assert(s2.len() >= 2);
        assert(s2[0] == t[j - 1]);
        assert(valid_first_scalar(s2));
        assert(is_leading_byte_width_1(s2[0]));
        assert(length_of_first_scalar(s2) == 1);
        assert(is_char_boundary(pop_first_scalar(s2), 0));
        assert(is_char_boundary(s2, 1));
        is_char_boundary_iff_not_is_continuation_byte(s2, 1);
        assert(!is_continuation_byte(s2[1]));
        assert(s2[1] == t[j]);
        is_char_boundary_iff_not_is_continuation_byte(t, j);
    }
}

/// UTF-8 encoding distributes over concatenation of character sequences.
pub proof fn lemma_encode_concat(a: Seq<char>, b: Seq<char>)
    ensures
        encode_utf8(a + b) == encode_utf8(a) + encode_utf8(b),
    decreases a.len(),
{
    if a.len() == 0 {
        assert(a + b =~= b);
        assert(encode_utf8(a) =~= Seq::<u8>::empty());
        assert(encode_utf8(a) + encode_utf8(b) =~= encode_utf8(b));
    } else {
        assert((a + b).drop_first() =~= a.drop_first() + b);
        assert((a + b)[0] == a[0]);
        lemma_encode_concat(a.drop_first(), b);
        assert(encode_utf8(a + b) =~= encode_utf8(a) + encode_utf8(b));
    }
}

/// Decode bytes known to be valid UTF-8.
pub fn decode_valid(bytes: &[u8]) -> (r: String)
    requires
        valid_utf8(bytes@),
    ensures
        r@ == decode_utf8(bytes@),
{
    match try_decode(bytes) {
        Some(s) => s,
        None => {
            assert(false);
            String::new()
        },
    }
}


/// The decimal digits of `v`.
pub open spec fn dec_rep(v: int) -> Seq<char>
    decreases v,
{
    if v < 10 {
        seq![(48 + v) as char]
    } else {
        dec_rep(v / 10) + seq![(48 + v % 10) as char]
    }
}

/// Append the decimal rendering of `v`.
pub fn push_dec(out: &mut Vec<char>, v: u64)
    ensures
        final(out)@ == old(out)@ + dec_rep(v as int),
    decreases v,
{
    if v < 10 {
        out.push((48 + v as u8) as char);
        proof {
            assert(final(out)@ =~= old(out)@ + dec_rep(v as int));
        }
    } else {
        push_dec(out, v / 10);
        out.push((48 + (v % 10) as u8) as char);
        proof {
            assert(final(out)@ =~= old(out)@ + dec_rep(v as int));
        }
    }
}

} // verus!
