//! Laws that relate the writes of a buffer to its reads.
//!
//! Each law starts from a buffer `b` whose cursor stands at the end of the
//! written data, and a buffer `w` that a write made from it, as the write's
//! contract describes `w`. It states what the matching read's contract then
//! returns: the value that was written.
use crate::buffer::Buffer;
use crate::encoding::{
    as_signed, as_unsigned, be_bytes, be_value, chars_of, lemma_be_bytes_len,
    lemma_be_round_trip, low_byte, low_bytes, pow256, stops_at_zero,
};
use vstd::prelude::*;

verus! {

/// A character that one byte carries unchanged: its scalar value is below 256.
pub open spec fn is_byte_char(c: char) -> bool {
    (c as u32) < 256
}

/// Reading one byte where a byte was written gives that byte back.
pub proof fn law_round_trip_byte(b: Buffer, w: Buffer, x: u8)
    requires
        b.cursor() == b.written().len(),
        b.appended(w, seq![x]),
    ensures
        w.remaining() >= 1,
        w.written()[w.cursor() as int] == x,
{
}

/// Reading `s.len()` bytes where the bytes `s` were written gives `s` back.
pub proof fn law_round_trip_bytes(b: Buffer, w: Buffer, s: Seq<u8>)
    requires
        b.cursor() == b.written().len(),
        b.appended(w, s),
    ensures
        w.remaining() >= s.len(),
        w.window(s.len()) == s,
{
    assert(w.window(s.len()) =~= s);
}

/// Reading an unsigned value of `n` bytes where one was written gives the
/// value back.
pub proof fn law_round_trip_unsigned(b: Buffer, w: Buffer, v: nat, n: nat)
    requires
        v < pow256(n),
        b.cursor() == b.written().len(),
        b.appended(w, be_bytes(v, n)),
    ensures
        w.remaining() >= n,
        be_value(w.window(n)) == v,
{
    lemma_be_round_trip(v, n);
    assert(w.window(n) =~= be_bytes(v, n));
}

/// Reading a signed value of `n` bytes where one was written, in two's
/// complement, gives the value back.
pub proof fn law_round_trip_signed(b: Buffer, w: Buffer, v: int, n: nat)
    requires
        -pow256(n) <= 2 * v < pow256(n),
        b.cursor() == b.written().len(),
        b.appended(w, be_bytes(as_unsigned(v, n), n)),
    ensures
        w.remaining() >= n,
        as_signed(be_value(w.window(n)), n) == v,
{
    law_round_trip_unsigned(b, w, as_unsigned(v, n), n);
}

/// The characters of `s` come back from their low bytes when each is below 256.
pub proof fn lemma_chars_of_low_bytes(s: Seq<char>)
    requires
        forall|i: int| 0 <= i < s.len() ==> is_byte_char(#[trigger] s[i]),
    ensures
        chars_of(low_bytes(s)) == s,
{
    assert forall|i: int| 0 <= i < s.len() implies chars_of(low_bytes(s))[i] == s[i] by {
        let c = s[i];
        assert(low_byte(c) as u32 == c as u32);
        vstd::utf8::char_u32_cast(c, c as u32);
    }
    assert(chars_of(low_bytes(s)) =~= s);
}

/// Reading a terminated string where the text `s` was written gives `s` back,
/// when its characters are below 256 and none is the zero character: the read
/// stops at the terminator that the write appended.
pub proof fn law_round_trip_string(b: Buffer, w: Buffer, s: Seq<char>, k: nat)
    requires
        forall|i: int| 0 <= i < s.len() ==> is_byte_char(#[trigger] s[i]) && s[i] != '\0',
        b.cursor() == b.written().len(),
        b.appended(w, low_bytes(s).push(0)),
        stops_at_zero(w.window(w.remaining() as nat), k),
    ensures
        k == s.len(),
        k < w.remaining(),
        chars_of(w.window(w.remaining() as nat).take(k as int)) == s,
{
    let rest = w.window(w.remaining() as nat);
    assert(rest =~= low_bytes(s).push(0));
    assert forall|i: int| 0 <= i < s.len() implies rest[i] != 0 by {
        let c = s[i];
        assert(low_byte(c) as u32 == c as u32);
        vstd::utf8::char_u32_cast(c, c as u32);
        vstd::utf8::char_u32_cast('\0', '\0' as u32);
    }
    assert(rest[s.len() as int] == 0);
    if k < s.len() {
        assert(rest[k as int] != 0);
    }
    assert(k == s.len());
    assert(rest.take(k as int) =~= low_bytes(s));
    lemma_chars_of_low_bytes(s);
}

/// Reading a length-prefixed string where the text `s` was written gives its
/// length and then `s` back, when its characters are below 256.
pub proof fn law_round_trip_string_with_length(b: Buffer, w: Buffer, s: Seq<char>)
    requires
        forall|i: int| 0 <= i < s.len() ==> is_byte_char(#[trigger] s[i]),
        s.len() <= u32::MAX,
        b.cursor() == b.written().len(),
        b.appended(w, be_bytes(s.len(), 4) + low_bytes(s)),
    ensures
        w.remaining() >= 4,
        be_value(w.window(4)) == s.len(),
        w.remaining() - 4 >= s.len(),
        chars_of(w.written().subrange(w.cursor() + 4 as int, w.cursor() + 4 + s.len() as int)) == s,
{
    let c = w.cursor() as int;
    lemma_be_bytes_len(s.len(), 4);
    assert(pow256(4) == 0x1_0000_0000) by {
        crate::encoding::lemma_pow256_values();
    }
    lemma_be_round_trip(s.len(), 4);
    assert(w.window(4) =~= be_bytes(s.len(), 4));
    assert(w.written().subrange(c + 4, c + 4 + s.len()) =~= low_bytes(s));
    lemma_chars_of_low_bytes(s);
}

} // verus!
