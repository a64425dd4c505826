use vstd::prelude::*;

verus! {

/// Strict lexicographic order on byte sequences: `a` comes before `b`
/// when `a` is a proper prefix of `b`, or when `a` is smaller at the
/// first position where the two differ. This is the order in which the
/// store keeps its keys, and the order that `get_last` and `get_all`
/// are specified against.
pub open spec fn lex_lt(a: Seq<u8>, b: Seq<u8>) -> bool
    decreases b.len(),
{
    if b.len() == 0 {
        false
    } else if a.len() == 0 {
        true
    } else if a[0] < b[0] {
        true
    } else if a[0] > b[0] {
        false
    } else {
        lex_lt(a.skip(1), b.skip(1))
    }
}

/// No byte sequence comes before itself.
pub proof fn lemma_lex_lt_irreflexive(a: Seq<u8>)
    ensures
        !lex_lt(a, a),
    decreases a.len(),
{
    if a.len() > 0 {
        lemma_lex_lt_irreflexive(a.skip(1));
    }
}

/// Two byte sequences never come before each other.
pub proof fn lemma_lex_lt_asymmetric(a: Seq<u8>, b: Seq<u8>)
    requires
        lex_lt(a, b),
    ensures
        !lex_lt(b, a),
    decreases a.len(),
{
    if a.len() > 0 && b.len() > 0 && a[0] == b[0] {
        lemma_lex_lt_asymmetric(a.skip(1), b.skip(1));
    }
}

/// Any two distinct byte sequences are ordered one way or the other.
pub proof fn lemma_lex_lt_connected(a: Seq<u8>, b: Seq<u8>)
    requires
        a != b,
    ensures
        lex_lt(a, b) || lex_lt(b, a),
    decreases a.len(),
{
    if a.len() == 0 && b.len() == 0 {
        assert(a =~= b);
    } else if a.len() > 0 && b.len() > 0 && a[0] == b[0] {
        if a.skip(1) == b.skip(1) {
            assert(a.skip(1).len() == a.len() - 1);
            assert(b.skip(1).len() == b.len() - 1);
            assert(a.len() == b.len());
            assert forall|i: int| 0 <= i < a.len() implies a[i] == b[i] by {
                if i > 0 {
                    assert(a[i] == a.skip(1)[i - 1]);
                    assert(b[i] == b.skip(1)[i - 1]);
                }
            }
            assert(a =~= b);
        } else {
            lemma_lex_lt_connected(a.skip(1), b.skip(1));
        }
    }
}

/// Appending one byte to each of two equally long sequences keeps them
/// ordered: either the prefixes were already strictly ordered, or they
/// were equal and the appended bytes are strictly ordered.
pub proof fn lemma_lex_lt_push(a: Seq<u8>, b: Seq<u8>, x: u8, y: u8)
    requires
        a.len() == b.len(),
        lex_lt(a, b) || (a == b && x < y),
    ensures
        lex_lt(a.push(x), b.push(y)),
    decreases a.len(),
{
    if a.len() == 0 {
        assert(a.push(x)[0] == x);
        assert(b.push(y)[0] == y);
    } else {
        assert(a.push(x)[0] == a[0]);
        assert(b.push(y)[0] == b[0]);
        if a[0] == b[0] {
            assert(a.push(x).skip(1) =~= a.skip(1).push(x));
            assert(b.push(y).skip(1) =~= b.skip(1).push(y));
            if a == b {
                assert(a.skip(1) =~= b.skip(1));
            }
            lemma_lex_lt_push(a.skip(1), b.skip(1), x, y);
        }
    }
}

} // verus!
