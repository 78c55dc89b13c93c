//! Lexicographic order on byte strings, the order in which a parameter store
//! keeps its keys.

use vstd::prelude::*;

verus! {

/// `a` and `b` hold the same bytes at every index below `n`.
pub open spec fn agree_below(a: Seq<u8>, b: Seq<u8>, n: int) -> bool {
    &&& 0 <= n <= a.len()
    &&& n <= b.len()
    &&& forall|j: int| 0 <= j < n ==> a[j] == b[j]
}

/// `a` sorts before `b`, and index `n` is where that is decided: either `a`
/// ends there and `b` goes on, or `a` holds the smaller byte there.
pub open spec fn decided_at(a: Seq<u8>, b: Seq<u8>, n: int) -> bool {
    &&& agree_below(a, b, n)
    &&& n < b.len()
    &&& n < a.len() ==> a[n] < b[n]
}

/// `a` sorts strictly before `b` in lexicographic byte order.
pub open spec fn lex_below(a: Seq<u8>, b: Seq<u8>) -> bool {
    exists|n: int| decided_at(a, b, n)
}

/// How one byte string stands to another in lexicographic order.
#[derive(Clone, Copy, Debug, PartialEq, Eq)]
pub enum Rank {
    Below,
    Same,
    Above,
}

/// The rank of `a` against `b`.
pub open spec fn rank_of(a: Seq<u8>, b: Seq<u8>) -> Rank {
    if a == b {
        Rank::Same
    } else if lex_below(a, b) {
        Rank::Below
    } else {
        Rank::Above
    }
}

/// The order is strict: a byte string is never below itself, nor are two
/// byte strings below each other.
pub proof fn lemma_lex_below_asymmetric(a: Seq<u8>, b: Seq<u8>)
    requires
        lex_below(a, b),
    ensures
        a != b,
        !lex_below(b, a),
{
    let n = choose|n: int| decided_at(a, b, n);
    if a == b {
        assert(false);
    }
    if lex_below(b, a) {
        let m = choose|m: int| decided_at(b, a, m);
        if m < n {
            assert(a[m] == b[m]);
        } else if n < m {
            assert(b[n] == a[n]);
        }
        assert(false);
    }
}

/// Lexicographic order is transitive.
pub proof fn lemma_lex_below_transitive(a: Seq<u8>, b: Seq<u8>, c: Seq<u8>)
    requires
        lex_below(a, b),
        lex_below(b, c),
    ensures
        lex_below(a, c),
{
    let n = choose|n: int| decided_at(a, b, n);
    let m = choose|m: int| decided_at(b, c, m);
    let k = if n <= m { n } else { m };
    assert(agree_below(a, c, k)) by {
        assert forall|j: int| 0 <= j < k implies a[j] == c[j] by {
            assert(a[j] == b[j]);
            assert(b[j] == c[j]);
        }
    }
    if n < m {
        assert(b[n] == c[n]);
    }
    assert(decided_at(a, c, k));
}

/// Ranks two byte strings by walking their common prefix.
pub fn rank_bytes(a: &[u8], b: &[u8]) -> (r: Rank)
    ensures
        r == rank_of(a@, b@),
        r == Rank::Above <==> lex_below(b@, a@),
{
    let mut i: usize = 0;
    while i < a.len() && i < b.len()
        invariant
            agree_below(a@, b@, i as int),
        decreases a.len() - i,
    {
        if a[i] < b[i] {
            proof {
                assert(decided_at(a@, b@, i as int));
                lemma_lex_below_asymmetric(a@, b@);
            }
            return Rank::Below;
        }
        if a[i] > b[i] {
            proof {
                assert(decided_at(b@, a@, i as int));
                lemma_lex_below_asymmetric(b@, a@);
            }
            return Rank::Above;
        }
        i += 1;
    }
    if i < b.len() {
        proof {
            assert(decided_at(a@, b@, i as int));
            lemma_lex_below_asymmetric(a@, b@);
        }
        Rank::Below
    } else if i < a.len() {
        proof {
            assert(decided_at(b@, a@, i as int));
            lemma_lex_below_asymmetric(b@, a@);
        }
        Rank::Above
    } else {
        proof {
            assert(a@ =~= b@);
            if lex_below(b@, a@) {
                lemma_lex_below_asymmetric(b@, a@);
            }
        }
        Rank::Same
    }
}

} // verus!
