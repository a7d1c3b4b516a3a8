//! Lexicographic order on texts, with or without path separators sorting
//! first, and a stable insertion sort by such a text key.

use vstd::prelude::*;
use crate::text::chars_of;

verus! {

broadcast use vstd::seq_lib::group_to_multiset_ensures;

/// Whether character `a` sorts before `b`: by code point, except that a
/// path separator `/` sorts before every other character when
/// `sep_first` holds.
pub open spec fn char_before(a: char, b: char, sep_first: bool) -> bool {
    if sep_first && a == '/' {
        b != '/'
    } else if sep_first && b == '/' {
        false
    } else {
        a < b
    }
}

/// Lexicographic order of `a` and `b` by `char_before`. With
/// `sep_first`, and for paths whose components are non-empty, this is the
/// order of their component lists, which is how paths compare.
pub open spec fn text_lt(a: Seq<char>, b: Seq<char>, sep_first: bool) -> bool
    decreases a.len(),
{
    if a.len() == 0 {
        b.len() > 0
    } else if b.len() == 0 {
        false
    } else if a[0] != b[0] {
        char_before(a[0], b[0], sep_first)
    } else {
        text_lt(a.skip(1), b.skip(1), sep_first)
    }
}

pub proof fn lemma_text_lt_irreflexive(a: Seq<char>, sep_first: bool)
    ensures
        !text_lt(a, a, sep_first),
    decreases a.len(),
{
    if a.len() > 0 {
        lemma_text_lt_irreflexive(a.skip(1), sep_first);
    }
}

pub proof fn lemma_text_lt_transitive(a: Seq<char>, b: Seq<char>, c: Seq<char>, sep_first: bool)
    requires
        text_lt(a, b, sep_first),
        text_lt(b, c, sep_first),
    ensures
        text_lt(a, c, sep_first),
    decreases a.len(),
{
    if a.len() > 0 && b.len() > 0 && c.len() > 0 {
        if a[0] == b[0] && b[0] == c[0] {
            lemma_text_lt_transitive(a.skip(1), b.skip(1), c.skip(1), sep_first);
        }
    }
}

pub proof fn lemma_text_lt_total(a: Seq<char>, b: Seq<char>, sep_first: bool)
    requires
        a != b,
    ensures
        text_lt(a, b, sep_first) || text_lt(b, a, sep_first),
    decreases a.len(),
{
    if a.len() > 0 && b.len() > 0 && a[0] == b[0] {
        if a.skip(1) == b.skip(1) {
            assert(a =~= seq![a[0]] + a.skip(1));
            assert(b =~= seq![b[0]] + b.skip(1));
        }
        lemma_text_lt_total(a.skip(1), b.skip(1), sep_first);
    } else if a.len() == 0 && b.len() == 0 {
        assert(a =~= b);
    }
}

fn char_before_exec(a: char, b: char, sep_first: bool) -> (r: bool)
    ensures
        r == char_before(a, b, sep_first),
{
    if sep_first && a == '/' {
        b != '/'
    } else if sep_first && b == '/' {
        false
    } else {
        a < b
    }
}

/// Whether `a` sorts before `b` in `text_lt` order.
pub fn text_less(a: &str, b: &str, sep_first: bool) -> (r: bool)
    ensures
        r == text_lt(a@, b@, sep_first),
{
    let x = chars_of(a);
    let y = chars_of(b);
    let mut i: usize = 0;
    assert(a@.skip(0) =~= a@);
    assert(b@.skip(0) =~= b@);
    while i < x.len() && i < y.len() && x[i] == y[i]
        invariant
            x@ == a@,
            y@ == b@,
            i <= x@.len(),
            i <= y@.len(),
            text_lt(a@.skip(i as int), b@.skip(i as int), sep_first) == text_lt(a@, b@, sep_first),
        decreases x@.len() - i,
    {
        assert(a@.skip(i as int).skip(1) =~= a@.skip(i + 1));
        assert(b@.skip(i as int).skip(1) =~= b@.skip(i + 1));
        i = i + 1;
    }
    if i == x.len() {
        i < y.len()
    } else if i == y.len() {
        false
    } else {
        char_before_exec(x[i], y[i], sep_first)
    }
}

/// A value sorted by a text key.
pub trait Keyed {
    spec fn key_view(&self) -> Seq<char>;

    fn key(&self) -> (r: &str)
        ensures
            r@ == self.key_view(),
    ;
}

/// `s` is in non-decreasing order of keys.
pub open spec fn sorted_by_key<T: Keyed>(s: Seq<T>, sep_first: bool) -> bool {
    forall|i: int, j: int|
        0 <= i < j < s.len() ==> !text_lt(
            #[trigger] s[j].key_view(),
            #[trigger] s[i].key_view(),
            sep_first,
        )
}

/// Inserts `x` into the sorted `out` after every element whose key does
/// not sort after `x`'s.
fn insert_sorted<T: Keyed>(out: &mut Vec<T>, x: T, sep_first: bool)
    requires
        sorted_by_key(old(out)@, sep_first),
    ensures
        sorted_by_key(final(out)@, sep_first),
        final(out)@.to_multiset() == old(out)@.to_multiset().insert(x),
{
    let n = out.len();
    let mut p: usize = 0;
    while p < n && !text_less(x.key(), out[p].key(), sep_first)
        invariant
            n == out@.len(),
            p <= n,
            forall|k: int| 0 <= k < p ==> !text_lt(x.key_view(), #[trigger] out@[k].key_view(), sep_first),
        decreases n - p,
    {
        p = p + 1;
    }
    let ghost old_s = out@;
    out.insert(p, x);
    proof {
        let s = out@;
        assert forall|i: int, j: int| 0 <= i < j < s.len() implies !text_lt(
            #[trigger] s[j].key_view(),
            #[trigger] s[i].key_view(),
            sep_first,
        ) by {
            if j < p {
                assert(s[i] == old_s[i] && s[j] == old_s[j]);
            } else if j == p {
                assert(s[i] == old_s[i]);
            } else if i > p {
                assert(s[i] == old_s[i - 1] && s[j] == old_s[j - 1]);
            } else if i == p {
                assert(s[j] == old_s[j - 1]);
                assert(text_lt(x.key_view(), old_s[p as int].key_view(), sep_first));
                if text_lt(old_s[j - 1].key_view(), x.key_view(), sep_first) {
                    lemma_text_lt_transitive(
                        old_s[j - 1].key_view(),
                        x.key_view(),
                        old_s[p as int].key_view(),
                        sep_first,
                    );
                    if j - 1 == p {
                        lemma_text_lt_irreflexive(old_s[p as int].key_view(), sep_first);
                    }
                }
            } else {
                assert(s[i] == old_s[i] && s[j] == old_s[j - 1]);
            }
        }
    }
}

/// `v` in non-decreasing order of keys: a permutation of `v` (same
/// multiset of elements) that is sorted.
pub fn sort_by_key<T: Keyed>(v: Vec<T>, sep_first: bool) -> (r: Vec<T>)
    ensures
        r@.to_multiset() == v@.to_multiset(),
        sorted_by_key(r@, sep_first),
{
    let mut rest = v;
    let mut out: Vec<T> = Vec::new();
    while rest.len() > 0
        invariant
            sorted_by_key(out@, sep_first),
            out@.to_multiset().add(rest@.to_multiset()) == v@.to_multiset(),
        decreases rest@.len(),
    {
        let ghost before = rest@;
        let x = rest.pop().unwrap();
        proof {
            assert(before =~= rest@.push(x));
        }
        insert_sorted(&mut out, x, sep_first);
        proof {
            assert(out@.to_multiset().add(rest@.to_multiset()) =~= v@.to_multiset());
        }
    }
    proof {
        assert(rest@ =~= Seq::<T>::empty());
        assert(out@.to_multiset() =~= v@.to_multiset());
    }
    out
}


/// Sequences with the same elements keep the same elements under any map.
pub proof fn lemma_multiset_map<A, B>(a: Seq<A>, b: Seq<A>, f: spec_fn(A) -> B)
    requires
        a.to_multiset() == b.to_multiset(),
    ensures
        a.map_values(f).to_multiset() == b.map_values(f).to_multiset(),
    decreases a.len(),
{
    broadcast use vstd::seq_lib::group_to_multiset_ensures;
    broadcast use vstd::multiset::group_multiset_axioms;

    vstd::seq_lib::to_multiset_len(a);
    vstd::seq_lib::to_multiset_len(b);
    if a.len() == 0 {
        assert(b.len() == 0);
        assert(a.map_values(f) =~= b.map_values(f));
    } else {
        let x = a.last();
        let a1 = a.drop_last();
        assert(a =~= a1.push(x));
        assert(a.to_multiset().count(x) > 0);
        assert(b.contains(x));
        let i = choose|i: int| 0 <= i < b.len() && b[i] == x;
        let b1 = b.remove(i);
        assert(a1.to_multiset() =~= b1.to_multiset());
        lemma_multiset_map(a1, b1, f);
        assert(a.map_values(f) =~= a1.map_values(f).push(f(x)));
        assert(b1.len() == b.len() - 1);
        assert(b1.map_values(f).len() == b1.len());
        assert(b.map_values(f) =~= b1.map_values(f).insert(i, f(x)));
        vstd::seq_lib::to_multiset_insert(b1.map_values(f), i, f(x));
    }
}

} // verus!
