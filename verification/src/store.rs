//! The pattern store: the collection of patterns that is played.
//!
//! The store is replaced as a whole and read as a whole. It is an owned
//! value; a caller that shares it between threads puts it behind a lock of
//! its own and takes the lock for the length of one call. What a reader
//! gets is then a collection that was installed in one piece, and a copy
//! that later replacements do not touch.

use vstd::prelude::*;
use crate::generate::combined_spec;
use crate::generate::generate_combined_patterns;
use crate::model::Pattern;
use crate::model::PatternView;
use crate::model::clone_patterns;
use crate::model::patterns_view;

verus! {

/// Seconds between two looks at the pattern source.
pub const REFRESH_INTERVAL_SECONDS: u64 = 3;

/// The patterns that are played.
#[derive(Debug)]
pub struct PatternStore {
    patterns: Vec<Pattern>,
}

impl View for PatternStore {
    type V = Seq<PatternView>;

    /// The collection that is installed.
    closed spec fn view(&self) -> Seq<PatternView> {
        patterns_view(self.patterns@)
    }
}

impl PatternStore {
    /// A store with no patterns.
    pub fn new() -> (store: PatternStore)
        ensures
            store@ == Seq::<PatternView>::empty(),
    {
        PatternStore { patterns: Vec::new() }
    }

    /// Installs `patterns` in place of the whole collection.
    pub fn replace(&mut self, patterns: Vec<Pattern>)
        ensures
            final(self)@ == patterns_view(patterns@),
    {
        self.patterns = patterns;
    }

    /// A copy of the whole collection.
    pub fn snapshot(&self) -> (copy: Vec<Pattern>)
        ensures
            patterns_view(copy@) == self@,
    {
        clone_patterns(&self.patterns)
    }

    /// The number of patterns.
    pub fn len(&self) -> (n: usize)
        ensures
            n == self@.len(),
    {
        self.patterns.len()
    }

    /// Takes in what a look at the pattern source gave. Where the source
    /// was read, `source` holds its patterns, and the store is replaced by
    /// these, the built-in patterns and `midi_pattern`; the answer is
    /// `true`. Where the source could not be read or understood, `source`
    /// is `None`, and the store is left as it is; the answer is `false`.
    pub fn refresh(&mut self, source: Option<Vec<Pattern>>, midi_pattern: &Vec<Pattern>) -> (replaced:
        bool)
        ensures
            final(self)@ == refresh_spec(
                old(self)@,
                match source {
                    Some(patterns) => Some(patterns_view(patterns@)),
                    None => None,
                },
                patterns_view(midi_pattern@),
            ),
            replaced == source is Some,
    {
        match source {
            Some(json_patterns) => {
                let combined = generate_combined_patterns(
                    clone_patterns(midi_pattern),
                    json_patterns,
                );
                self.replace(combined);
                true
            },
            None => false,
        }
    }
}

/// The collection after a look at the pattern source: the new one where the
/// source was read, the old one where it was not.
pub open spec fn refresh_spec(
    installed: Seq<PatternView>,
    source: Option<Seq<PatternView>>,
    midi_pattern: Seq<PatternView>,
) -> Seq<PatternView> {
    match source {
        Some(json_patterns) => combined_spec(midi_pattern, json_patterns),
        None => installed,
    }
}

/// The collection after a run of looks at the pattern source.
pub open spec fn after_refreshes(
    installed: Seq<PatternView>,
    sources: Seq<Option<Seq<PatternView>>>,
    midi_pattern: Seq<PatternView>,
) -> Seq<PatternView>
    decreases sources.len(),
{
    if sources.len() == 0 {
        installed
    } else {
        refresh_spec(
            after_refreshes(installed, sources.drop_last(), midi_pattern),
            sources.last(),
            midi_pattern,
        )
    }
}

/// Whatever the pattern source gives and however often it fails, the
/// collection in the store is whole: it is the collection the store began
/// with, or the collection made of one successful look at the source,
/// never a mixture, and a look that fails changes nothing.
pub proof fn lemma_store_is_never_mixed(
    installed: Seq<PatternView>,
    sources: Seq<Option<Seq<PatternView>>>,
    midi_pattern: Seq<PatternView>,
)
    ensures
        after_refreshes(installed, sources, midi_pattern) == installed || exists|i: int|
            0 <= i < sources.len() && (#[trigger] sources[i]) is Some && after_refreshes(
                installed,
                sources,
                midi_pattern,
            ) == combined_spec(midi_pattern, sources[i]->0),
        sources.len() > 0 && sources.last() is None ==> after_refreshes(
            installed,
            sources,
            midi_pattern,
        ) == after_refreshes(installed, sources.drop_last(), midi_pattern),
    decreases sources.len(),
{
    if sources.len() > 0 {
        lemma_store_is_never_mixed(installed, sources.drop_last(), midi_pattern);
        let before = after_refreshes(installed, sources.drop_last(), midi_pattern);
        if sources.last() is None && before != installed {
            let i = choose|i: int|
                0 <= i < sources.drop_last().len() && (#[trigger] sources.drop_last()[i]) is Some
                    && before == combined_spec(midi_pattern, sources.drop_last()[i]->0);
            assert(sources[i] == sources.drop_last()[i]);
        }
    }
}

} // verus!
