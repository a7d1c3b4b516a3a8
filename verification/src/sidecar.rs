//! Sidecar input discovery: for `script.dwl`, files named
//! `script.<name>.<ext>` in the same directory are bound as inputs named
//! `<name>`, so the common case needs no `-i` flags.

use vstd::prelude::*;
use crate::lex::chars_to_string;
use crate::order::{Keyed, sort_by_key, sorted_by_key, lemma_multiset_map, text_lt};
use crate::text::{chars_of, pairs_view};

verus! {

impl Keyed for (String, String) {
    open spec fn key_view(&self) -> Seq<char> {
        self.0@
    }

    fn key(&self) -> (r: &str) {
        self.0.as_str()
    }
}

/// Name/file pairs sorted by key are in code-point order of their names
/// (the first of each pair), whatever the files are.
pub proof fn lemma_pairs_sorted_by_name(v: Seq<(String, String)>)
    requires
        sorted_by_key(v, false),
    ensures
        forall|i: int, j: int|
            0 <= i < j < v.len() ==> !text_lt(#[trigger] v[j].0@, #[trigger] v[i].0@, false),
{
    assert forall|i: int, j: int| 0 <= i < j < v.len() implies !text_lt(
        #[trigger] v[j].0@,
        #[trigger] v[i].0@,
        false,
    ) by {
        assert(!text_lt(v[j].key_view(), v[i].key_view(), false));
    }
}

/// Index of the first `.` in `s` from position `i` on, if any.
pub open spec fn first_dot(s: Seq<char>, i: int) -> Option<int>
    decreases s.len() - i,
{
    if i < 0 || i >= s.len() {
        None
    } else if s[i] == '.' {
        Some(i)
    } else {
        first_dot(s, i + 1)
    }
}

/// The input name a file named `file_name` binds for a script whose file
/// stem is `stem`: the file name must start with `stem.`, and the name
/// is the non-empty part up to the next `.` after that prefix.
pub open spec fn sidecar_name(stem: Seq<char>, file_name: Seq<char>) -> Option<Seq<char>> {
    let prefix = stem.push('.');
    if file_name.len() >= prefix.len() && file_name.take(prefix.len() as int) == prefix {
        let rest = file_name.skip(prefix.len() as int);
        match first_dot(rest, 0) {
            Some(k) if k > 0 => Some(rest.take(k)),
            _ => None,
        }
    } else {
        None
    }
}

/// The `(name, file name)` bindings among `file_names`, in their order.
pub open spec fn sidecar_matches(stem: Seq<char>, file_names: Seq<Seq<char>>) -> Seq<
    (Seq<char>, Seq<char>),
>
    decreases file_names.len(),
{
    if file_names.len() == 0 {
        Seq::empty()
    } else {
        let f = file_names.last();
        sidecar_matches(stem, file_names.drop_last()) + match sidecar_name(stem, f) {
            Some(n) => seq![(n, f)],
            None => Seq::empty(),
        }
    }
}

proof fn lemma_first_dot_bounds(s: Seq<char>, i: int)
    requires
        0 <= i,
    ensures
        first_dot(s, i) matches Some(k) ==> i <= k < s.len() && s[k] == '.',
    decreases s.len() - i,
{
    if i < s.len() && s[i] != '.' {
        lemma_first_dot_bounds(s, i + 1);
    }
}

/// The name bound by `file_name`, if it is a sidecar of `stem`.
fn sidecar_name_exec(stem: &Vec<char>, file_name: &str) -> (r: Option<String>)
    ensures
        match r {
            Some(n) => sidecar_name(stem@, file_name@) == Some(n@),
            None => sidecar_name(stem@, file_name@) is None,
        },
{
    let f = chars_of(file_name);
    let p = stem.len();
    if f.len() <= p {
        return None;
    }
    let mut k: usize = 0;
    while k < p
        invariant
            p == stem@.len(),
            f@ == file_name@,
            p + 1 <= f@.len(),
            k <= p,
            forall|x: int| 0 <= x < k ==> f@[x] == stem@[x],
        decreases p - k,
    {
        if f[k] != stem[k] {
            assert(f@.take(p + 1)[k as int] != stem@.push('.')[k as int]);
            return None;
        }
        k = k + 1;
    }
    if f[p] != '.' {
        assert(f@.take(p + 1)[p as int] != stem@.push('.')[p as int]);
        return None;
    }
    assert(f@.take(p + 1) =~= stem@.push('.'));
    let ghost rest = f@.skip(p + 1);
    let n = f.len();
    let mut j = p + 1;
    while j < n && f[j] != '.'
        invariant
            p + 1 <= j <= n == f@.len(),
            f@ == file_name@,
            rest == f@.skip(p + 1),
            first_dot(rest, j - (p + 1)) == first_dot(rest, 0),
        decreases n - j,
    {
        j = j + 1;
    }
    proof {
        lemma_first_dot_bounds(rest, j - (p + 1));
    }
    if j < n && j > p + 1 {
        let name = chars_to_string(&f, p + 1, j);
        assert(rest.take(j - (p + 1)) =~= f@.subrange(p + 1, j as int));
        Some(name)
    } else {
        None
    }
}

/// The sidecar inputs of a script whose file stem is `stem`, among the
/// files named `file_names` in its directory: each as `(name, file
/// name)`, sorted by name.
pub fn sidecar_inputs(stem: &str, file_names: Vec<String>) -> (r: Vec<(String, String)>)
    ensures
        pairs_view(r@).to_multiset() == sidecar_matches(
            stem@,
            file_names@.map_values(|s: String| s@),
        ).to_multiset(),
        sorted_by_key(r@, false),
        forall|i: int, j: int|
            0 <= i < j < r@.len() ==> !text_lt(#[trigger] r@[j].0@, #[trigger] r@[i].0@, false),
{
    let st = chars_of(stem);
    let ghost all = file_names@;
    let ghost names = all.map_values(|s: String| s@);
    let mut found: Vec<(String, String)> = Vec::new();
    for f in it: file_names
        invariant
            it.seq() == all,
            names == all.map_values(|s: String| s@),
            st@ == stem@,
            pairs_view(found@) == sidecar_matches(stem@, names.take(it.index() as int)),
    {
        let ghost k = it.index();
        let ghost before = found@;
        proof {
            assert(names.take(k + 1).drop_last() =~= names.take(k as int));
            assert(names.take(k + 1).last() == f@);
        }
        match sidecar_name_exec(&st, f.as_str()) {
            Some(name) => {
                found.push((name, f));
                assert(pairs_view(found@) =~= pairs_view(before) + seq![(name@, all[k as int]@)]);
            },
            None => {
                assert(pairs_view(found@) =~= pairs_view(before) + Seq::<(Seq<char>, Seq<char>)>::empty());
            },
        }
    }
    proof {
        assert(names.take(names.len() as int) =~= names);
    }
    let ghost unsorted = found@;
    let r = sort_by_key(found, false);
    proof {
        lemma_multiset_map(r@, unsorted, |p: (String, String)| (p.0@, p.1@));
        lemma_pairs_sorted_by_name(r@);
    }
    r
}


// ---- the directory searched ----

/// `path` without its trailing `/` bytes.
pub open spec fn strip_slashes(path: Seq<u8>) -> Seq<u8>
    decreases path.len(),
{
    if path.len() > 0 && path.last() == 47u8 {
        strip_slashes(path.drop_last())
    } else {
        path
    }
}

/// The position of the last `/` byte in `path`, if there is one.
pub open spec fn last_slash(path: Seq<u8>) -> Option<int>
    decreases path.len(),
{
    if path.len() == 0 {
        None
    } else if path.last() == 47u8 {
        Some(path.len() - 1)
    } else {
        last_slash(path.drop_last())
    }
}

/// The directory that holds the script at `path` (raw path bytes): the
/// path without its last component and the separators before it; `/`
/// for a file in the root; `.` (the current directory) for a bare file
/// name.
pub open spec fn script_dir(path: Seq<u8>) -> Seq<u8> {
    let t = strip_slashes(path);
    match last_slash(t) {
        None => seq![46u8],
        Some(k) => {
            let d = strip_slashes(t.take(k));
            if d.len() == 0 {
                seq![47u8]
            } else {
                d
            }
        },
    }
}

/// The length of `path[..n]` without its trailing `/` bytes.
fn strip_slashes_len(path: &[u8], n: usize) -> (e: usize)
    requires
        n <= path@.len(),
    ensures
        e <= n,
        strip_slashes(path@.take(n as int)) == path@.take(e as int),
{
    let mut e = n;
    while e > 0 && path[e - 1] == 47u8
        invariant
            e <= n <= path@.len(),
            strip_slashes(path@.take(n as int)) == strip_slashes(path@.take(e as int)),
        decreases e,
    {
        assert(path@.take(e as int).drop_last() =~= path@.take(e - 1));
        e = e - 1;
    }
    if e > 0 {
        assert(path@.take(e as int).last() == path@[e - 1]);
    }
    e
}

/// The last `/` byte in `path[..n]`.
fn last_slash_in(path: &[u8], n: usize) -> (r: Option<usize>)
    requires
        n <= path@.len(),
    ensures
        match r {
            Some(k) => last_slash(path@.take(n as int)) == Some(k as int),
            None => last_slash(path@.take(n as int)) is None,
        },
{
    let mut e = n;
    while e > 0 && path[e - 1] != 47u8
        invariant
            e <= n <= path@.len(),
            last_slash(path@.take(n as int)) == last_slash(path@.take(e as int)),
        decreases e,
    {
        assert(path@.take(e as int).drop_last() =~= path@.take(e - 1));
        e = e - 1;
    }
    if e > 0 {
        assert(path@.take(e as int).last() == path@[e - 1]);
        Some(e - 1)
    } else {
        None
    }
}

/// The directory searched for the sidecars of the script at `path` (raw
/// path bytes): the script's own directory, the current directory for a
/// bare file name.
pub fn sidecar_dir(path: &[u8]) -> (r: Vec<u8>)
    ensures
        r@ == script_dir(path@),
{
    assert(path@.take(path@.len() as int) =~= path@);
    let t = strip_slashes_len(path, path.len());
    match last_slash_in(path, t) {
        None => vec![46u8],
        Some(k) => {
            proof {
                lemma_last_slash_bound(path@.take(t as int));
                assert(path@.take(t as int).take(k as int) =~= path@.take(k as int));
            }
            let d = strip_slashes_len(path, k);
            if d == 0 {
                vec![47u8]
            } else {
                let mut out: Vec<u8> = Vec::new();
                for j in 0..d
                    invariant
                        d <= path@.len(),
                        out@ == path@.take(j as int),
                {
                    out.push(path[j]);
                    assert(out@ =~= path@.take(j + 1));
                }
                out
            }
        },
    }
}

proof fn lemma_last_slash_bound(path: Seq<u8>)
    ensures
        last_slash(path) matches Some(k) ==> 0 <= k < path.len(),
    decreases path.len(),
{
    if path.len() > 0 && path.last() != 47u8 {
        lemma_last_slash_bound(path.drop_last());
    }
}

} // verus!
