//! Lower-case hexadecimal text of byte strings, two digits per byte.

use crate::text::push_char;
use vstd::prelude::*;

verus! {

/// The lower-case hexadecimal digit for `n`, where `0 <= n < 16`.
pub open spec fn nibble_char(n: int) -> char {
    if n < 10 {
        (n + 48) as char
    } else {
        (n + 87) as char
    }
}

/// The two digits of `b`: high nibble first.
pub open spec fn byte_hex(b: u8) -> Seq<char> {
    seq![nibble_char(b as int / 16), nibble_char(b as int % 16)]
}

/// The hexadecimal text of `bytes`, two digits per byte, in order.
pub open spec fn hex_of(bytes: Seq<u8>) -> Seq<char>
    decreases bytes.len(),
{
    if bytes.len() == 0 {
        Seq::empty()
    } else {
        hex_of(bytes.drop_last()) + byte_hex(bytes.last())
    }
}

fn nibble_digit(n: u8) -> (c: char)
    requires
        n < 16,
    ensures
        c == nibble_char(n as int),
{
    if n < 10 {
        (n + 48) as char
    } else {
        (n + 87) as char
    }
}

/// Appends the two digits of `b` to `out`.
pub fn push_byte_hex(out: &mut String, b: u8)
    ensures
        final(out)@ == old(out)@ + byte_hex(b),
{
    let hi: u8 = b >> 4;
    let lo: u8 = b & 0x0f;
    assert(hi == b / 16 && lo == b % 16 && hi < 16 && lo < 16) by (bit_vector)
        requires
            hi == b >> 4,
            lo == b & 0x0f,
    ;
    push_char(out, nibble_digit(hi));
    push_char(out, nibble_digit(lo));
    assert(old(out)@.push(nibble_char(hi as int)).push(nibble_char(lo as int)) =~= old(out)@ + byte_hex(b));
}

/// The hexadecimal text of `bytes`: two lower-case digits per byte,
/// high nibble first, as `{:02x}` prints each byte.
pub fn hex_string(bytes: &[u8]) -> (s: String)
    ensures
        s@ == hex_of(bytes@),
{
    let mut s = String::new();
    let n = bytes.len();
    let mut i: usize = 0;
    while i < n
        invariant
            n == bytes@.len(),
            i <= n,
            s@ == hex_of(bytes@.take(i as int)),
        decreases n - i,
    {
        let b = bytes[i];
        push_byte_hex(&mut s, b);
        assert(bytes@.take(i + 1).drop_last() =~= bytes@.take(i as int));
        i = i + 1;
    }
    assert(bytes@.take(n as int) =~= bytes@);
    s
}

/// Every byte becomes exactly two digits.
pub proof fn lemma_hex_len(bytes: Seq<u8>)
    ensures
        hex_of(bytes).len() == 2 * bytes.len(),
    decreases bytes.len(),
{
    if bytes.len() > 0 {
        lemma_hex_len(bytes.drop_last());
    }
}

/// The text of two byte strings put together is their texts put
/// together.
pub proof fn lemma_hex_concat(a: Seq<u8>, b: Seq<u8>)
    ensures
        hex_of(a + b) == hex_of(a) + hex_of(b),
    decreases b.len(),
{
    if b.len() == 0 {
        assert(a + b =~= a);
        assert(hex_of(a) + hex_of(b) =~= hex_of(a));
    } else {
        lemma_hex_concat(a, b.drop_last());
        assert((a + b).drop_last() =~= a + b.drop_last());
        assert(hex_of(a) + hex_of(b.drop_last()) + byte_hex(b.last())
            =~= hex_of(a) + (hex_of(b.drop_last()) + byte_hex(b.last())));
    }
}

proof fn lemma_nibble_injective(x: int, y: int)
    requires
        0 <= x < 16,
        0 <= y < 16,
        nibble_char(x) == nibble_char(y),
    ensures
        x == y,
{
    assert(nibble_char(x) as int == if x < 10 { x + 48 } else { x + 87 });
    assert(nibble_char(y) as int == if y < 10 { y + 48 } else { y + 87 });
}

proof fn lemma_byte_hex_injective(x: u8, y: u8)
    requires
        byte_hex(x) == byte_hex(y),
    ensures
        x == y,
{
    assert(byte_hex(x)[0] == byte_hex(y)[0]);
    assert(byte_hex(x)[1] == byte_hex(y)[1]);
    lemma_nibble_injective(x as int / 16, y as int / 16);
    lemma_nibble_injective(x as int % 16, y as int % 16);
}

/// Different byte strings have different texts: the encoding loses
/// nothing.
pub proof fn lemma_hex_injective(a: Seq<u8>, b: Seq<u8>)
    requires
        hex_of(a) == hex_of(b),
    ensures
        a == b,
    decreases a.len(),
{
    lemma_hex_len(a);
    lemma_hex_len(b);
    if a.len() > 0 {
        let ha = hex_of(a.drop_last());
        let hb = hex_of(b.drop_last());
        lemma_hex_len(a.drop_last());
        lemma_hex_len(b.drop_last());
        assert(hex_of(a) == ha + byte_hex(a.last()));
        assert(hex_of(b) == hb + byte_hex(b.last()));
        assert(ha =~= hex_of(a).subrange(0, ha.len() as int));
        assert(hb =~= hex_of(b).subrange(0, hb.len() as int));
        assert(byte_hex(a.last()) =~= hex_of(a).subrange(ha.len() as int, hex_of(a).len() as int));
        assert(byte_hex(b.last()) =~= hex_of(b).subrange(hb.len() as int, hex_of(b).len() as int));
        lemma_byte_hex_injective(a.last(), b.last());
        lemma_hex_injective(a.drop_last(), b.drop_last());
        assert(a =~= a.drop_last().push(a.last()));
        assert(b =~= b.drop_last().push(b.last()));
    } else {
        assert(a =~= b);
    }
}

} // verus!
