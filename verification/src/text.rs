//! Comparisons on strings viewed as character sequences: equality, a
//! lexicographic order by code point, and a sort keyed by such an order.
//! The store's listings use these for their deterministic ordering.

use vstd::prelude::*;
use vstd::seq_lib::group_to_multiset_ensures;
use vstd::multiset::group_multiset_axioms;

verus! {

/// Lexicographic "less than or equal" on character sequences, ordering
/// characters by code point.
pub open spec fn lex_le(a: Seq<char>, b: Seq<char>) -> bool
    decreases a.len(),
{
    if a.len() == 0 {
        true
    } else if b.len() == 0 {
        false
    } else if (a[0] as int) < (b[0] as int) {
        true
    } else if (b[0] as int) < (a[0] as int) {
        false
    } else {
        lex_le(a.drop_first(), b.drop_first())
    }
}

/// Any two character sequences are comparable under `lex_le`.
pub proof fn lemma_lex_le_total(a: Seq<char>, b: Seq<char>)
    ensures
        lex_le(a, b) || lex_le(b, a),
    decreases a.len(),
{
    if a.len() != 0 && b.len() != 0 && a[0] == b[0] {
        lemma_lex_le_total(a.drop_first(), b.drop_first());
    }
}

/// `lex_le` is transitive.
pub proof fn lemma_lex_le_transitive(a: Seq<char>, b: Seq<char>, c: Seq<char>)
    requires
        lex_le(a, b),
        lex_le(b, c),
    ensures
        lex_le(a, c),
    decreases a.len(),
{
    if a.len() != 0 && b.len() != 0 && c.len() != 0 && a[0] == b[0] && b[0] == c[0] {
        lemma_lex_le_transitive(a.drop_first(), b.drop_first(), c.drop_first());
    }
}

/// Character-by-character string equality.
pub fn str_eq(a: &str, b: &str) -> (r: bool)
    ensures
        r == (a@ == b@),
{
    let alen = a.unicode_len();
    let blen = b.unicode_len();
    if alen != blen {
        return false;
    }
    let mut i: usize = 0;
    while i < alen
        invariant
            alen == a@.len(),
            blen == b@.len(),
            alen == blen,
            i <= alen,
            forall|j: int| 0 <= j < i ==> a@[j] == b@[j],
        decreases alen - i,
    {
        if a.get_char(i) != b.get_char(i) {
            return false;
        }
        i = i + 1;
    }
    proof {
        assert(a@ =~= b@);
    }
    true
}

/// Character-by-character lexicographic comparison.
pub fn str_le(a: &str, b: &str) -> (r: bool)
    ensures
        r == lex_le(a@, b@),
{
    let alen = a.unicode_len();
    let blen = b.unicode_len();
    let mut i: usize = 0;
    proof {
        assert(a@.skip(0) =~= a@);
        assert(b@.skip(0) =~= b@);
    }
    loop
        invariant
            alen == a@.len(),
            blen == b@.len(),
            i <= alen,
            i <= blen,
            lex_le(a@, b@) == lex_le(a@.skip(i as int), b@.skip(i as int)),
        decreases alen - i,
    {
        if i == alen {
            assert(a@.skip(i as int).len() == 0);
            return true;
        }
        if i == blen {
            assert(b@.skip(i as int).len() == 0 && a@.skip(i as int).len() > 0);
            return false;
        }
        let ca = a.get_char(i);
        let cb = b.get_char(i);
        assert(a@.skip(i as int)[0] == a@[i as int]);
        assert(b@.skip(i as int)[0] == b@[i as int]);
        if (ca as u32) < (cb as u32) {
            return true;
        }
        if (cb as u32) < (ca as u32) {
            return false;
        }
        proof {
            assert(a@.skip(i as int).drop_first() =~= a@.skip(i as int + 1));
            assert(b@.skip(i as int).drop_first() =~= b@.skip(i as int + 1));
        }
        i = i + 1;
    }
}

/// A record that can be ordered by a string-valued key.
pub trait LexKeyed: Sized {
    spec fn key(&self) -> Seq<char>;

    fn key_str(&self) -> (r: &str)
        ensures
            r@ == self.key(),
    ;
}

/// The sequence is ordered by its elements' keys.
pub open spec fn sorted_by_key<T: LexKeyed>(s: Seq<T>) -> bool {
    forall|i: int, j: int|
        0 <= i < j < s.len() ==> lex_le(#[trigger] s[i].key(), #[trigger] s[j].key())
}

/// Insertion sort by key: the result is a reordering of the input, ordered
/// by key.
pub fn sort_by_key<T: LexKeyed>(v: &mut Vec<T>)
    ensures
        final(v)@.to_multiset() == old(v)@.to_multiset(),
        final(v)@.len() == old(v)@.len(),
        sorted_by_key(final(v)@),
{
    broadcast use group_to_multiset_ensures;
    broadcast use group_multiset_axioms;

    let ghost orig = v@;
    let mut i: usize = 1;
    while i < v.len()
        invariant
            1 <= i,
            v@.len() == orig.len(),
            v@.to_multiset() == orig.to_multiset(),
            forall|p: int, q: int|
                0 <= p < q < i && q < v@.len() ==> lex_le(
                    #[trigger] v@[p].key(),
                    #[trigger] v@[q].key(),
                ),
        decreases v@.len() - i,
    {
        broadcast use group_to_multiset_ensures;
        broadcast use group_multiset_axioms;

        let ghost before = v@;
        let x = v.remove(i);
        let ghost trimmed = v@;
        let mut j: usize = i;
        loop
            invariant
                j <= i,
                i <= trimmed.len(),
                v@ == trimmed,
                forall|k: int| j <= k < i ==> !lex_le(#[trigger] v@[k].key(), x.key()),
            ensures
                j <= i,
                v@ == trimmed,
                forall|k: int| j <= k < i ==> !lex_le(#[trigger] v@[k].key(), x.key()),
                j == 0 || lex_le(v@[j - 1].key(), x.key()),
            decreases j,
        {
            if j == 0 {
                break;
            }
            if str_le(v[j - 1].key_str(), x.key_str()) {
                break;
            }
            j = j - 1;
        }
        v.insert(j, x);
        proof {
            assert(v@ == trimmed.insert(j as int, x));
            assert(v@.to_multiset() == orig.to_multiset()) by {
                assert(trimmed.to_multiset() == before.to_multiset().remove(before[i as int]));
                assert(v@.to_multiset() == trimmed.to_multiset().insert(x));
                assert(v@.to_multiset() =~= before.to_multiset());
            }
            assert forall|p: int, q: int|
                0 <= p < q < i + 1 && q < v@.len() implies lex_le(v@[p].key(), v@[q].key()) by {
                let jj = j as int;
                let ii = i as int;
                if p < jj && q < jj {
                    assert(v@[p] == trimmed[p] && v@[q] == trimmed[q]);
                } else if p < jj && q == jj {
                    if p < jj - 1 {
                        assert(lex_le(trimmed[p].key(), trimmed[jj - 1].key()));
                        lemma_lex_le_transitive(trimmed[p].key(), trimmed[jj - 1].key(), x.key());
                    } else {
                        assert(p == jj - 1);
                    }
                } else if p == jj && q > jj {
                    assert(!lex_le(trimmed[q - 1].key(), x.key()));
                    lemma_lex_le_total(x.key(), trimmed[q - 1].key());
                } else if p > jj && q > jj {
                    assert(v@[p] == trimmed[p - 1] && v@[q] == trimmed[q - 1]);
                } else if p < jj && q > jj {
                    assert(v@[p] == trimmed[p] && v@[q] == trimmed[q - 1]);
                    if p < jj - 1 {
                        assert(lex_le(trimmed[p].key(), trimmed[jj - 1].key()));
                        lemma_lex_le_transitive(trimmed[p].key(), trimmed[jj - 1].key(), x.key());
                    } else {
                        assert(p == jj - 1);
                    }
                    assert(lex_le(v@[p].key(), x.key()));
                    lemma_lex_le_total(x.key(), trimmed[q - 1].key());
                    lemma_lex_le_transitive(v@[p].key(), x.key(), trimmed[q - 1].key());
                }
            }
        }
        i = i + 1;
    }
}

} // verus!
