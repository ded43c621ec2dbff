//! The byte-wise lexicographic order on names, in which the entries of a
//! directory are taken so that a walk does not depend on the order in which
//! the file system lists them.
use vstd::prelude::*;
use vstd::seq_lib::{to_multiset_build, to_multiset_insert};

verus! {

/// `a` comes before `b` or equals it: the first byte that differs decides,
/// and a proper prefix comes first.
pub open spec fn lex_le(a: Seq<u8>, b: Seq<u8>) -> bool
    decreases a.len(),
{
    if a.len() == 0 {
        true
    } else if b.len() == 0 {
        false
    } else if a[0] != b[0] {
        a[0] < b[0]
    } else {
        lex_le(a.drop_first(), b.drop_first())
    }
}

pub open spec fn lex_sorted(s: Seq<Seq<u8>>) -> bool {
    forall|i: int, j: int| 0 <= i < j < s.len() ==> lex_le(#[trigger] s[i], #[trigger] s[j])
}

pub open spec fn names_of(v: Seq<Vec<u8>>) -> Seq<Seq<u8>> {
    v.map_values(|n: Vec<u8>| n@)
}

proof fn lemma_lex_total(a: Seq<u8>, b: Seq<u8>)
    ensures
        lex_le(a, b) || lex_le(b, a),
    decreases a.len(),
{
    if a.len() > 0 && b.len() > 0 && a[0] == b[0] {
        lemma_lex_total(a.drop_first(), b.drop_first());
    }
}

proof fn lemma_lex_trans(a: Seq<u8>, b: Seq<u8>, c: Seq<u8>)
    requires
        lex_le(a, b),
        lex_le(b, c),
    ensures
        lex_le(a, c),
    decreases a.len(),
{
    if a.len() > 0 && a[0] == b[0] && b[0] == c[0] {
        lemma_lex_trans(a.drop_first(), b.drop_first(), c.drop_first());
    }
}

/// Whether `a` comes before `b` or equals it.
pub fn lex_le_bytes(a: &[u8], b: &[u8]) -> (r: bool)
    ensures
        r == lex_le(a@, b@),
{
    let mut i: usize = 0;
    assert(a@.skip(0) =~= a@);
    assert(b@.skip(0) =~= b@);
    while i < a.len() && i < b.len()
        invariant
            i <= a@.len(),
            i <= b@.len(),
            lex_le(a@, b@) == lex_le(a@.skip(i as int), b@.skip(i as int)),
        decreases a@.len() - i,
    {
        assert(a@.skip(i as int)[0] == a@[i as int]);
        assert(b@.skip(i as int)[0] == b@[i as int]);
        if a[i] != b[i] {
            return a[i] < b[i];
        }
        assert(a@.skip(i as int).drop_first() =~= a@.skip(i + 1));
        assert(b@.skip(i as int).drop_first() =~= b@.skip(i + 1));
        i = i + 1;
    }
    i == a.len()
}

/// The names in lexicographic order; equal names keep their order.
pub fn sort_names(names: Vec<Vec<u8>>) -> (r: Vec<Vec<u8>>)
    ensures
        lex_sorted(names_of(r@)),
        names_of(r@).to_multiset() == names_of(names@).to_multiset(),
{
    let mut out: Vec<Vec<u8>> = Vec::new();
    let mut k: usize = 0;
    assert(names_of(out@) =~= names_of(names@).take(0));
    while k < names.len()
        invariant
            k <= names@.len(),
            lex_sorted(names_of(out@)),
            names_of(out@).to_multiset() == names_of(names@).take(k as int).to_multiset(),
        decreases names@.len() - k,
    {
        let x = names[k].clone();
        let ghost s = names_of(out@);
        let ghost xv = x@;
        assert(xv == names_of(names@)[k as int]);
        let mut p: usize = 0;
        while p < out.len() && lex_le_bytes(out[p].as_slice(), x.as_slice())
            invariant
                p <= out@.len(),
                s == names_of(out@),
                xv == x@,
                forall|i: int| 0 <= i < p ==> lex_le(#[trigger] s[i], xv),
            decreases out@.len() - p,
        {
            p = p + 1;
        }
        proof {
            if p < s.len() {
                lemma_lex_total(s[p as int], xv);
                assert forall|j: int| p <= j < s.len() implies lex_le(xv, #[trigger] s[j]) by {
                    if j > p {
                        lemma_lex_trans(xv, s[p as int], s[j]);
                    }
                }
            }
        }
        out.insert(p, x);
        proof {
            let t = names_of(out@);
            assert(t =~= s.insert(p as int, xv));
            assert forall|i: int, j: int| 0 <= i < j < t.len() implies lex_le(
                #[trigger] t[i],
                #[trigger] t[j],
            ) by {
                if j < p {
                } else if j == p {
                } else if i < p {
                    assert(t[j] == s[j - 1]);
                } else if i == p {
                    assert(t[j] == s[j - 1]);
                } else {
                    assert(t[i] == s[i - 1]);
                    assert(t[j] == s[j - 1]);
                }
            }
            to_multiset_insert(s, p as int, xv);
            let pre = names_of(names@).take(k as int);
            assert(names_of(names@).take(k + 1) =~= pre.push(xv));
            to_multiset_build(pre, xv);
        }
        k = k + 1;
    }
    assert(names_of(names@).take(k as int) =~= names_of(names@));
    out
}

} // verus!
