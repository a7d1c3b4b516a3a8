//! Past `watch` invocations: what one records, how the list is kept
//! bounded, how entries are listed for the fuzzy picker, and how the
//! picker's selection is matched back to its entry.

use std::time::{SystemTime, UNIX_EPOCH};
use vstd::prelude::*;
use vstd::string::StringExecFns;
use crate::text::{decimal, push_decimal, push_bindings, join_sep, binding_texts, pairs_view};

verus! {

/// One past `watch` invocation.
#[derive(Clone, Debug, PartialEq)]
pub struct HistoryEntry {
    pub script: String,
    pub inputs: Vec<(String, String)>,
    pub module_search_path: Option<String>,
    /// Unix seconds, stored as a number so that display formatting can
    /// change without invalidating recorded history.
    pub timestamp: u64,
}

/// The system clock's seconds since the Unix epoch, or `None` when the
/// clock reads earlier than the epoch (`SystemTime::now` and
/// `duration_since`). The result depends on the clock, so nothing is
/// claimed of it.
#[verifier::external_body]
fn unix_now_secs() -> Option<u64> {
    match SystemTime::now().duration_since(UNIX_EPOCH) {
        Ok(d) => Some(d.as_secs()),
        Err(_) => None,
    }
}

impl HistoryEntry {
    /// An entry for the given invocation, stamped with the clock reading
    /// `clock_secs` (seconds since the Unix epoch, `None` when the clock
    /// reads before the epoch, which stamps 0).
    pub fn stamped(
        script: String,
        inputs: Vec<(String, String)>,
        module_search_path: Option<String>,
        clock_secs: Option<u64>,
    ) -> (r: HistoryEntry)
        ensures
            r.script == script,
            r.inputs == inputs,
            r.module_search_path == module_search_path,
            r.timestamp == match clock_secs {
                Some(t) => t,
                None => 0u64,
            },
    {
        let timestamp = match clock_secs {
            Some(t) => t,
            None => 0,
        };
        HistoryEntry { script, inputs, module_search_path, timestamp }
    }

    /// An entry for the given invocation, stamped with the current time
    /// (0 when the clock reads before the epoch).
    pub fn now(script: String, inputs: Vec<(String, String)>, module_search_path: Option<String>) -> (r:
        HistoryEntry)
        ensures
            r.script == script,
            r.inputs == inputs,
            r.module_search_path == module_search_path,
    {
        HistoryEntry::stamped(script, inputs, module_search_path, unix_now_secs())
    }
}

/// The line that lists an entry in the picker:
/// `script | inputs | timestamp`, the inputs as `name=file` separated by
/// commas, or `no inputs`.
pub open spec fn entry_line(e: HistoryEntry) -> Seq<char> {
    let ins = pairs_view(e.inputs@);
    e.script@ + " | "@ + (if ins.len() == 0 {
        "no inputs"@
    } else {
        join_sep(binding_texts(ins), ","@)
    }) + " | "@ + decimal(e.timestamp as nat)
}

/// Formats an entry as its picker line.
pub fn format_entry(e: &HistoryEntry) -> (r: String)
    ensures
        r@ == entry_line(*e),
{
    let mut out = String::new();
    out.append(e.script.as_str());
    out.append(" | ");
    if e.inputs.len() == 0 {
        out.append("no inputs");
    } else {
        push_bindings(&mut out, e.inputs.as_slice(), ",");
    }
    out.append(" | ");
    push_decimal(&mut out, e.timestamp as u128);
    assert(out@ =~= entry_line(*e));
    out
}

/// The picker lines of `entries`, most recent (last recorded) first.
pub fn history_candidates(entries: &Vec<HistoryEntry>) -> (r: Vec<String>)
    ensures
        r@.len() == entries@.len(),
        forall|k: int|
            0 <= k < r@.len() ==> (#[trigger] r@[k])@ == entry_line(
                entries@[entries@.len() - 1 - k],
            ),
{
    let n = entries.len();
    let mut out: Vec<String> = Vec::new();
    let mut k: usize = 0;
    while k < n
        invariant
            n == entries@.len(),
            k <= n,
            out@.len() == k,
            forall|j: int|
                0 <= j < k ==> (#[trigger] out@[j])@ == entry_line(entries@[n - 1 - j]),
        decreases n - k,
    {
        let line = format_entry(&entries[n - 1 - k]);
        out.push(line);
        k = k + 1;
    }
    out
}

/// Matches the picker's selection back to its entry: the most recent
/// entry whose picker line is the selected one, or `None` when nothing
/// was selected or no entry lists as the selection.
pub fn pick_history(entries: Vec<HistoryEntry>, selected: Option<String>) -> (r: Option<
    HistoryEntry,
>)
    ensures
        selected is None ==> r is None,
        selected matches Some(sel) ==> (r is None <==> !exists|j: int|
            0 <= j < entries@.len() && entry_line(#[trigger] entries@[j]) == sel@),
        r matches Some(e) ==> selected matches Some(sel) && exists|j: int|
            0 <= j < entries@.len() && entries@[j] == e && entry_line(e) == sel@ && forall|x: int|
                j < x < entries@.len() ==> entry_line(#[trigger] entries@[x]) != sel@,
{
    if selected.is_none() {
        return None;
    }
    let sel = selected.unwrap();
    let mut list = entries;
    let ghost orig = list@;
    let mut k: usize = list.len();
    while k > 0
        invariant
            list@ == orig,
            orig == entries@,
            selected == Some(sel),
            k <= orig.len(),
            forall|x: int| k <= x < orig.len() ==> entry_line(#[trigger] orig[x]) != sel@,
        decreases k,
    {
        let line = format_entry(&list[k - 1]);
        if line.eq(&sel) {
            let e = list.remove(k - 1);
            assert(0 <= k - 1 < entries@.len() && entries@[k - 1] == e && entry_line(e) == sel@);
            return Some(e);
        }
        k = k - 1;
    }
    None
}

/// The history after recording `entry`: the most recent `max_entries`
/// of the old entries followed by the new one.
pub open spec fn appended(entries: Seq<HistoryEntry>, entry: HistoryEntry, max_entries: nat) -> Seq<
    HistoryEntry,
> {
    let all = entries.push(entry);
    if all.len() > max_entries {
        all.skip(all.len() - max_entries)
    } else {
        all
    }
}

/// Recording keeps the history bounded: it never holds more than
/// `max_entries`, holds the new entry last (unless nothing is kept), and
/// otherwise keeps the most recent old entries in their order.
pub proof fn lemma_append_bounded(entries: Seq<HistoryEntry>, entry: HistoryEntry, max_entries: nat)
    ensures
        appended(entries, entry, max_entries).len() == if entries.len() + 1 > max_entries {
            max_entries as int
        } else {
            entries.len() + 1 as int
        },
        max_entries > 0 ==> appended(entries, entry, max_entries).last() == entry,
        forall|k: int|
            0 <= k < appended(entries, entry, max_entries).len() - 1 ==> #[trigger] appended(
                entries,
                entry,
                max_entries,
            )[k] == entries[entries.len() + 1 - appended(entries, entry, max_entries).len() + k],
{
}

/// Records `entry` after `entries`, keeping only the most recent
/// `max_entries` (the oldest are dropped first).
pub fn append(entries: &mut Vec<HistoryEntry>, entry: HistoryEntry, max_entries: usize)
    ensures
        final(entries)@ == appended(old(entries)@, entry, max_entries as nat),
{
    entries.push(entry);
    if entries.len() > max_entries {
        let excess = entries.len() - max_entries;
        let tail = entries.split_off(excess);
        *entries = tail;
    }
}

} // verus!
