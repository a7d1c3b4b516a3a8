//! The `blazewvr.toml` project config: module resolution path and
//! default named inputs, so a playground project can be run without
//! repeating flags. Command-line flags take precedence over it.

use vstd::prelude::*;
use crate::order::{sort_by_key, sorted_by_key, lemma_multiset_map, text_lt};
use crate::sidecar::lemma_pairs_sorted_by_name;
use crate::text::pairs_view;

verus! {

/// Parsed `blazewvr.toml`: module resolution path and default inputs.
pub struct ProjectConfig {
    pub module_search_path: Option<String>,
    /// `(name, file)` for each default input, ordered by name.
    pub inputs: Vec<(String, String)>,
}

impl ProjectConfig {
    /// The config with the given module path and inputs, the inputs put
    /// in order of their names (the order of the config file's input
    /// table).
    pub fn from_parts(module_search_path: Option<String>, inputs: Vec<(String, String)>) -> (r:
        ProjectConfig)
        ensures
            r.module_search_path == module_search_path,
            pairs_view(r.inputs@).to_multiset() == pairs_view(inputs@).to_multiset(),
            sorted_by_key(r.inputs@, false),
            forall|i: int, j: int|
                0 <= i < j < r.inputs@.len() ==> !text_lt(
                    #[trigger] r.inputs@[j].0@,
                    #[trigger] r.inputs@[i].0@,
                    false,
                ),
    {
        let ghost given = inputs@;
        let sorted = sort_by_key(inputs, false);
        proof {
            lemma_multiset_map(sorted@, given, |p: (String, String)| (p.0@, p.1@));
            lemma_pairs_sorted_by_name(sorted@);
        }
        ProjectConfig { module_search_path, inputs: sorted }
    }
}

} // verus!
