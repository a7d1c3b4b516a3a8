//! Fuzzy picking of scripts: which directory entries the search for
//! `.dwl` scripts descends into or collects, the order the scripts are
//! listed in, and how the picker's selection is matched back to a path.

use vstd::prelude::*;
use vstd::string::{StringExecFns, StrSliceExecFns};
use crate::order::{Keyed, sort_by_key, sorted_by_key};
use crate::text::push_char;

verus! {

/// Which picker program to run, and the arguments it is given before
/// the candidates are piped in (such as a preselection flag).
pub struct PickerConfig {
    pub program: String,
    pub extra_args: Vec<String>,
}

impl Default for PickerConfig {
    fn default() -> (r: Self)
        ensures
            r.program@ == "fzf"@,
            r.extra_args@.len() == 0,
    {
        PickerConfig { program: String::from_str("fzf"), extra_args: Vec::new() }
    }
}

/// What the search does with a directory entry.
#[derive(Debug, Clone, Copy, PartialEq, Eq, Structural)]
pub enum WalkStep {
    Skip,
    Descend,
    Collect,
}

/// Whether a file name's extension (the part after its last `.`, for a
/// name that does not start with that `.`) is `dwl`.
pub open spec fn has_dwl_extension(name: Seq<char>) -> bool {
    name.len() > 4 && name.skip(name.len() - 4) == ".dwl"@
}

/// What the search does with an entry named `name`: hidden entries are
/// skipped, directories are descended into except `target`, regular
/// files with the `dwl` extension are collected, and anything else
/// (symlinks included) is skipped.
pub open spec fn walk_step_spec(name: Seq<char>, is_dir: bool, is_file: bool) -> WalkStep {
    if name.len() > 0 && name[0] == '.' {
        WalkStep::Skip
    } else if is_dir {
        if name == "target"@ {
            WalkStep::Skip
        } else {
            WalkStep::Descend
        }
    } else if is_file && has_dwl_extension(name) {
        WalkStep::Collect
    } else {
        WalkStep::Skip
    }
}

/// Whether `s` reads `lit`.
fn str_is(s: &str, lit: &str) -> (r: bool)
    ensures
        r == (s@ == lit@),
{
    let n = s.unicode_len();
    if n != lit.unicode_len() {
        return false;
    }
    let mut k: usize = 0;
    while k < n
        invariant
            n == s@.len() == lit@.len(),
            k <= n,
            forall|x: int| 0 <= x < k ==> s@[x] == lit@[x],
        decreases n - k,
    {
        if s.get_char(k) != lit.get_char(k) {
            return false;
        }
        k = k + 1;
    }
    assert(s@ =~= lit@);
    true
}

fn ends_with_dwl(name: &str) -> (r: bool)
    ensures
        r == has_dwl_extension(name@),
{
    let n = name.unicode_len();
    if n <= 4 {
        return false;
    }
    let tail = name.substring_char(n - 4, n);
    assert(tail@ =~= name@.skip(n - 4));
    str_is(tail, ".dwl")
}

/// Decides what the search does with the entry named `name`.
pub fn walk_step(name: &str, is_dir: bool, is_file: bool) -> (r: WalkStep)
    ensures
        r == walk_step_spec(name@, is_dir, is_file),
{
    if name.unicode_len() > 0 && name.get_char(0) == '.' {
        WalkStep::Skip
    } else if is_dir {
        if str_is(name, "target") {
            WalkStep::Skip
        } else {
            WalkStep::Descend
        }
    } else if is_file && ends_with_dwl(name) {
        WalkStep::Collect
    } else {
        WalkStep::Skip
    }
}

/// The characters of `bytes`, one per byte, each the character of that
/// byte's code.
pub open spec fn byte_chars(bytes: Seq<u8>) -> Seq<char> {
    bytes.map_values(|b: u8| b as char)
}

/// The sort key of a path below the search root: its components, each
/// written one character per byte, joined by `/`.
pub open spec fn path_key_spec(components: Seq<Seq<u8>>) -> Seq<char> {
    crate::text::join_sep(components.map_values(|c: Seq<u8>| byte_chars(c)), "/"@)
}

/// The sort key of the path below the search root whose components (as
/// raw bytes) are `components`.
pub fn path_key(components: &[Vec<u8>]) -> (r: String)
    ensures
        r@ == path_key_spec(components@.map_values(|c: Vec<u8>| c@)),
{
    let n = components.len();
    let mut out = String::new();
    let ghost all = components@.map_values(|c: Vec<u8>| c@);
    for i in 0..n
        invariant
            n == components@.len(),
            all == components@.map_values(|c: Vec<u8>| c@),
            out@ == path_key_spec(all.take(i as int)),
    {
        let ghost prev = all.take(i as int).map_values(|c: Seq<u8>| byte_chars(c));
        let ghost next = all.take(i + 1).map_values(|c: Seq<u8>| byte_chars(c));
        assert(next.drop_last() =~= prev);
        let ghost before = out@;
        if i > 0 {
            push_char(&mut out, '/');
        }
        let ghost mid = out@;
        let comp = &components[i];
        let m = comp.len();
        for j in 0..m
            invariant
                m == comp@.len(),
                out@ == mid + byte_chars(comp@.take(j as int)),
        {
            let b = comp[j];
            push_char(&mut out, b as char);
            assert(byte_chars(comp@.take(j + 1)) =~= byte_chars(comp@.take(j as int)).push(
                b as char,
            ));
        }
        assert(comp@.take(m as int) =~= comp@);
        assert(next.last() == byte_chars(comp@));
        proof {
            reveal_strlit("/");
            if i == 0 {
                assert(before.len() == 0);
                assert(out@ =~= crate::text::join_sep(next, "/"@));
            } else {
                assert(mid =~= before + "/"@);
                assert(out@ =~= crate::text::join_sep(next, "/"@));
            }
        }
    }
    assert(all.take(n as int) =~= all);
    out
}

/// A directory entry met by the search: its position `id` in the
/// caller's list, its sort key, its file name, and its kind. The key is
/// the entry's path relative to the search root (components joined by
/// `/`) written one character per byte, each byte as the character of
/// that code, so that keys compare as the raw paths' bytes do.
pub struct FoundEntry {
    pub id: usize,
    pub key: String,
    pub name: String,
    pub is_dir: bool,
    pub is_file: bool,
}

impl Keyed for FoundEntry {
    open spec fn key_view(&self) -> Seq<char> {
        self.key@
    }

    fn key(&self) -> (r: &str) {
        self.key.as_str()
    }
}

pub open spec fn collects(e: FoundEntry) -> bool {
    walk_step_spec(e.name@, e.is_dir, e.is_file) == WalkStep::Collect
}

/// The `.dwl` scripts among the entries met by the search, sorted by
/// path (paths compare component by component, components by their
/// bytes): exactly the collected entries, each once, in order.
pub fn find_dwl_scripts(entries: Vec<FoundEntry>) -> (r: Vec<FoundEntry>)
    ensures
        r@.to_multiset() == entries@.filter(|e: FoundEntry| collects(e)).to_multiset(),
        sorted_by_key(r@, true),
{
    let ghost pred = |e: FoundEntry| collects(e);
    let ghost all = entries@;
    let mut kept: Vec<FoundEntry> = Vec::new();
    for e in it: entries
        invariant
            it.seq() == all,
            pred == (|e: FoundEntry| collects(e)),
            kept@ == all.take(it.index() as int).filter(pred),
    {
        let ghost k = it.index();
        let ghost before = kept@;
        proof {
            reveal_with_fuel(Seq::<_>::filter, 1);
            assert(all.take(k + 1).drop_last() =~= all.take(k as int));
            assert(all.take(k + 1).last() == e);
        }
        let keep = match walk_step(e.name.as_str(), e.is_dir, e.is_file) {
            WalkStep::Collect => true,
            _ => false,
        };
        assert(keep == collects(e));
        assert(keep == pred(e));
        if keep {
            kept.push(e);
        }
        assert(kept@ == all.take(k + 1).filter(pred));
    }
    proof {
        assert(all.take(all.len() as int) =~= all);
    }
    sort_by_key(kept, true)
}

/// Why picking a script failed.
#[derive(Debug, Clone, PartialEq, Eq)]
pub enum PickError {
    /// The picker program cannot be run; the text says so.
    NotFound(String),
}

/// The first step of picking a script.
#[derive(Debug, Clone, PartialEq, Eq)]
pub enum PickScriptStep {
    /// Search for scripts and offer them to the picker.
    Scan,
    /// Fail without searching.
    Fail(PickError),
}

/// How picking a script begins: when the picker program `program` cannot
/// be run, with a `NotFound` error naming it, before any search for
/// scripts; otherwise with the search.
pub fn pick_script_begin(program: &str, available: bool) -> (r: PickScriptStep)
    ensures
        available ==> r == PickScriptStep::Scan,
        !available ==> (r matches PickScriptStep::Fail(PickError::NotFound(m)) && m@ == program@
            + " not found on PATH; pass a script path explicitly"@),
{
    if available {
        PickScriptStep::Scan
    } else {
        PickScriptStep::Fail(PickError::NotFound(unavailable_message(program)))
    }
}

/// The message given when the picker program cannot be run.
pub fn unavailable_message(program: &str) -> (r: String)
    ensures
        r@ == program@ + " not found on PATH; pass a script path explicitly"@,
{
    let mut m = String::from_str(program);
    m.append(" not found on PATH; pass a script path explicitly");
    m
}

/// Matches the picker's selection back to a script: the position of the
/// first script whose listed path is the selected line, or `None` when
/// nothing was selected or no script lists as the selection.
pub fn pick_script(scripts: &Vec<String>, selected: Option<String>) -> (r: Option<usize>)
    ensures
        selected is None ==> r is None,
        selected matches Some(sel) ==> (r is None <==> !exists|j: int|
            0 <= j < scripts@.len() && (#[trigger] scripts@[j])@ == sel@),
        r matches Some(k) ==> selected matches Some(sel) && k < scripts@.len() && scripts@[k as int]@
            == sel@ && forall|j: int| 0 <= j < k ==> (#[trigger] scripts@[j])@ != sel@,
{
    if selected.is_none() {
        return None;
    }
    let sel = selected.unwrap();
    let n = scripts.len();
    for k in 0..n
        invariant
            n == scripts@.len(),
            selected == Some(sel),
            forall|j: int| 0 <= j < k ==> (#[trigger] scripts@[j])@ != sel@,
    {
        if scripts[k].eq(&sel) {
            return Some(k);
        }
    }
    None
}


/// The picker's input: the candidates one per line, or `None` when there
/// are none, in which case the picker is not run and nothing is selected.
pub fn picker_input(candidates: &[String]) -> (r: Option<String>)
    ensures
        candidates@.len() == 0 <==> r is None,
        r matches Some(t) ==> t@ == crate::text::join_sep(
            crate::repl::strings_view(candidates@),
            "\n"@,
        ),
{
    let n = candidates.len();
    if n == 0 {
        return None;
    }
    let mut out = String::new();
    for i in 0..n
        invariant
            n == candidates@.len(),
            out@ == crate::text::join_sep(
                crate::repl::strings_view(candidates@.take(i as int)),
                "\n"@,
            ),
    {
        let ghost prev = crate::repl::strings_view(candidates@.take(i as int));
        let ghost next = crate::repl::strings_view(candidates@.take(i + 1));
        assert(next.drop_last() =~= prev);
        if i > 0 {
            out.append("\n");
        }
        out.append(candidates[i].as_str());
        assert(out@ =~= crate::text::join_sep(next, "\n"@));
    }
    assert(candidates@.take(n as int) =~= candidates@);
    Some(out)
}

/// The selection the picker printed: its output decoded and trimmed, or
/// `None` when that is empty (nothing selected, or the user backed out).
pub fn selection_from_output(stdout: &[u8]) -> (r: Option<String>)
    ensures
        match r {
            Some(s) => s@ == crate::repl::reply_text_spec(stdout@) && s@.len() > 0,
            None => crate::repl::reply_text_spec(stdout@).len() == 0,
        },
{
    let text = crate::repl::reply_text(stdout);
    if text.unicode_len() == 0 {
        None
    } else {
        Some(text)
    }
}

} // verus!
