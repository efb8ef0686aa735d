//! Numbers as fixed-width byte strings, least or most significant byte first.

use vstd::prelude::*;

verus! {

/// The `width` lowest base-256 digits of `n`, the least significant one first.
pub open spec fn le_bytes(n: nat, width: nat) -> Seq<u8>
    decreases width,
{
    if width == 0 {
        Seq::empty()
    } else {
        seq![(n % 256) as u8] + le_bytes(n / 256, (width - 1) as nat)
    }
}

/// The number whose base-256 digits are `s`, the least significant one first.
pub open spec fn le_value(s: Seq<u8>) -> nat
    decreases s.len(),
{
    if s.len() == 0 {
        0
    } else {
        s[0] as nat + 256 * le_value(s.drop_first())
    }
}

/// The `width` lowest base-256 digits of `n`, the most significant one first.
pub open spec fn be_bytes(n: nat, width: nat) -> Seq<u8> {
    le_bytes(n, width).reverse()
}

/// The number whose base-256 digits are `s`, the most significant one first.
pub open spec fn be_value(s: Seq<u8>) -> nat {
    le_value(s.reverse())
}

/// How many numbers `width` bytes can tell apart.
pub open spec fn byte_range(width: nat) -> nat
    decreases width,
{
    if width == 0 {
        1
    } else {
        256 * byte_range((width - 1) as nat)
    }
}

pub proof fn lemma_byte_ranges()
    ensures
        byte_range(2) == 0x1_0000,
        byte_range(4) == 0x1_0000_0000,
        byte_range(8) == 0x1_0000_0000_0000_0000,
{
    reveal_with_fuel(byte_range, 9);
}

pub proof fn lemma_le_bytes_len(n: nat, width: nat)
    ensures
        le_bytes(n, width).len() == width,
    decreases width,
{
    if width > 0 {
        lemma_le_bytes_len(n / 256, (width - 1) as nat);
    }
}

/// Reading back the digits of a number that fits gives the number.
pub proof fn lemma_le_value_of_bytes(n: nat, width: nat)
    requires
        n < byte_range(width),
    ensures
        le_value(le_bytes(n, width)) == n,
    decreases width,
{
    if width > 0 {
        let rest = le_bytes(n / 256, (width - 1) as nat);
        lemma_le_value_of_bytes(n / 256, (width - 1) as nat);
        assert(le_bytes(n, width).drop_first() =~= rest);
    }
}

/// Writing the value of some digits in as many bytes gives the digits back.
pub proof fn lemma_le_bytes_of_value(s: Seq<u8>)
    ensures
        le_bytes(le_value(s), s.len()) == s,
        le_value(s) < byte_range(s.len()),
    decreases s.len(),
{
    if s.len() > 0 {
        let tail = s.drop_first();
        lemma_le_bytes_of_value(tail);
        let v = le_value(s);
        assert(v == s[0] as nat + 256 * le_value(tail));
        assert(v / 256 == le_value(tail));
        assert(v % 256 == s[0] as nat);
        assert(seq![s[0]] + tail =~= s);
    } else {
        assert(le_bytes(le_value(s), 0) =~= s);
    }
}

pub proof fn lemma_be_bytes_len(n: nat, width: nat)
    ensures
        be_bytes(n, width).len() == width,
{
    lemma_le_bytes_len(n, width);
}

pub proof fn lemma_be_value_of_bytes(n: nat, width: nat)
    requires
        n < byte_range(width),
    ensures
        be_value(be_bytes(n, width)) == n,
{
    lemma_le_value_of_bytes(n, width);
    assert(le_bytes(n, width).reverse().reverse() =~= le_bytes(n, width));
}

pub proof fn lemma_be_bytes_of_value(s: Seq<u8>)
    ensures
        be_bytes(be_value(s), s.len()) == s,
        be_value(s) < byte_range(s.len()),
{
    lemma_le_bytes_of_value(s.reverse());
    assert(s.reverse().reverse() =~= s);
}

} // verus!
