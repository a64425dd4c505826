use vstd::arithmetic::div_mod::{
    lemma_div_denominator, lemma_div_is_ordered, lemma_fundamental_div_mod,
    lemma_mod_division_less_than_divisor,
};
use vstd::pervasive::unreached;
use vstd::prelude::*;
use vstd::utf8::{encode_utf8, is_ascii_chars, is_ascii_chars_encode_utf8};

use crate::order::{
    lemma_lex_lt_asymmetric, lemma_lex_lt_irreflexive, lemma_lex_lt_push, lex_lt,
};
use crate::store::bytes_to_string;

verus! {

broadcast use vstd::utf8::encode_utf8_valid_utf8;

/// Ten to the power `k`.
pub open spec fn pow10(k: nat) -> nat
    decreases k,
{
    if k == 0 {
        1
    } else {
        10 * pow10((k - 1) as nat)
    }
}

/// The fixed-width decimal key encoding of `n`: `w` ASCII digit bytes,
/// most significant first, zero padded on the left.
pub open spec fn dec_key_bytes(n: nat, w: nat) -> Seq<u8>
    decreases w,
{
    if w == 0 {
        Seq::empty()
    } else {
        dec_key_bytes(n / 10, (w - 1) as nat).push((0x30 + n % 10) as u8)
    }
}

proof fn lemma_dec_key_len(n: nat, w: nat)
    ensures
        dec_key_bytes(n, w).len() == w,
    decreases w,
{
    if w > 0 {
        lemma_dec_key_len(n / 10, (w - 1) as nat);
    }
}

proof fn lemma_pow10_pos(k: nat)
    ensures
        pow10(k) >= 1,
    decreases k,
{
    if k > 0 {
        lemma_pow10_pos((k - 1) as nat);
    }
}

/// Each digit byte of the encoding, indexed from the most significant.
proof fn lemma_dec_key_index(n: nat, w: nat, i: int)
    requires
        0 <= i < w,
    ensures
        dec_key_bytes(n, w)[i] == (0x30 + (n / pow10((w - 1 - i) as nat)) % 10) as u8,
    decreases w,
{
    lemma_dec_key_len(n / 10, (w - 1) as nat);
    if i == w - 1 {
        assert(pow10(0) == 1);
        assert(n / 1 == n);
    } else {
        lemma_dec_key_index(n / 10, (w - 1) as nat, i);
        let k = (w - 2 - i) as nat;
        lemma_pow10_pos(k);
        lemma_div_denominator(n as int, 10, pow10(k) as int);
        assert(10 * pow10(k) == pow10((w - 1 - i) as nat));
        assert(dec_key_bytes(n, w)[i] == dec_key_bytes(n / 10, (w - 1) as nat)[i]);
    }
}

/// Strictly ordered numbers have strictly lexicographically ordered
/// fixed-width decimal encodings.
proof fn lemma_dec_key_order(n1: nat, n2: nat, w: nat)
    requires
        n1 < n2,
        n2 < pow10(w),
    ensures
        lex_lt(dec_key_bytes(n1, w), dec_key_bytes(n2, w)),
    decreases w,
{
    let q1 = n1 / 10;
    let r1 = n1 % 10;
    let q2 = n2 / 10;
    let r2 = n2 % 10;
    lemma_fundamental_div_mod(n1 as int, 10);
    lemma_fundamental_div_mod(n2 as int, 10);
    lemma_mod_division_less_than_divisor(n1 as int, 10);
    lemma_mod_division_less_than_divisor(n2 as int, 10);
    lemma_dec_key_len(q1, (w - 1) as nat);
    lemma_dec_key_len(q2, (w - 1) as nat);
    lemma_div_is_ordered(n1 as int, n2 as int, 10);
    if q1 < q2 {
        lemma_pow10_pos((w - 1) as nat);
        assert(q2 < pow10((w - 1) as nat));
        lemma_dec_key_order(q1, q2, (w - 1) as nat);
        lemma_lex_lt_push(
            dec_key_bytes(q1, (w - 1) as nat),
            dec_key_bytes(q2, (w - 1) as nat),
            (0x30 + r1) as u8,
            (0x30 + r2) as u8,
        );
    } else {
        assert(q1 == q2);
        assert(r1 < r2);
        lemma_lex_lt_push(
            dec_key_bytes(q1, (w - 1) as nat),
            dec_key_bytes(q2, (w - 1) as nat),
            (0x30 + r1) as u8,
            (0x30 + r2) as u8,
        );
    }
}

/// Order preservation law: numeric order on sequence numbers and
/// lexicographic byte order on their encoded keys coincide, so a tree
/// keyed by `sequence_key` gives `get_last` the numerically greatest
/// sequence number — the key encoding every caller relying on
/// "last = most recent" should use.
pub proof fn lemma_sequence_key_order(n1: u64, n2: u64)
    ensures
        n1 < n2 <==> lex_lt(dec_key_bytes(n1 as nat, 20), dec_key_bytes(n2 as nat, 20)),
{
    assert(pow10(20) == 100000000000000000000) by {
        reveal_with_fuel(pow10, 21);
    }
    if n1 < n2 {
        lemma_dec_key_order(n1 as nat, n2 as nat, 20);
    }
    if n2 < n1 {
        lemma_dec_key_order(n2 as nat, n1 as nat, 20);
        if lex_lt(dec_key_bytes(n1 as nat, 20), dec_key_bytes(n2 as nat, 20)) {
            lemma_lex_lt_asymmetric(dec_key_bytes(n2 as nat, 20), dec_key_bytes(n1 as nat, 20));
        }
    }
    if n1 == n2 {
        lemma_lex_lt_irreflexive(dec_key_bytes(n1 as nat, 20));
    }
}

/// ASCII bytes are valid UTF-8, and decode to the string whose bytes
/// they are.
proof fn lemma_ascii_bytes_utf8(bytes: Seq<u8>)
    requires
        forall|i: int| 0 <= i < bytes.len() ==> bytes[i] < 128,
    ensures
        vstd::utf8::valid_utf8(bytes),
{
    let chars = Seq::new(bytes.len(), |i: int| bytes[i] as char);
    assert(is_ascii_chars(chars));
    is_ascii_chars_encode_utf8(chars);
    assert(encode_utf8(chars) =~= bytes);
}

/// Encodes a sequence number as a fixed-width, zero-padded decimal
/// string of twenty digits. Lexicographic byte order on such keys
/// coincides with numeric order on the numbers
/// (`lemma_sequence_key_order`), which makes this the key encoding to
/// use when `get_last` must mean "greatest sequence number".
pub fn sequence_key(n: u64) -> (s: String)
    ensures
        encode_utf8(s@) == dec_key_bytes(n as nat, 20),
{
    let mut bytes: Vec<u8> = Vec::new();
    let mut p: u64 = 10_000_000_000_000_000_000;
    let mut idx: usize = 0;
    proof {
        assert(pow10(19) == 10000000000000000000) by {
            reveal_with_fuel(pow10, 20);
        }
    }
    while idx < 20
        invariant
            idx <= 20,
            bytes@.len() == idx,
            idx < 20 ==> p as nat == pow10((19 - idx) as nat),
            forall|j: int|
                0 <= j < idx as int ==> bytes@[j] == (0x30 + ((n as nat) / pow10(
                    (19 - j) as nat,
                )) % 10) as u8,
        decreases 20 - idx,
    {
        proof {
            lemma_pow10_pos((19 - idx) as nat);
            lemma_mod_division_less_than_divisor((n / p) as int, 10);
        }
        let d: u64 = (n / p) % 10;
        bytes.push(48 + (d as u8));
        idx = idx + 1;
        if idx < 20 {
            proof {
                assert(pow10((20 - idx) as nat) == 10 * pow10((19 - idx) as nat));
            }
            p = p / 10;
        }
    }
    proof {
        lemma_dec_key_len(n as nat, 20);
        assert forall|j: int| 0 <= j < 20 implies dec_key_bytes(n as nat, 20)[j] == bytes@[j] by {
            lemma_dec_key_index(n as nat, 20, j);
        }
        assert(bytes@ =~= dec_key_bytes(n as nat, 20));
        lemma_ascii_bytes_utf8(bytes@);
    }
    match bytes_to_string(bytes.as_slice()) {
        Some(s) => s,
        None => unreached(),
    }
}

} // verus!
