//! The dictionary tracker: which dictionaries have been written, and whether
//! one must be written again.

use vstd::prelude::*;
use std::collections::HashMap;
use crate::error::Error;
use crate::framing::{EncodedData, Message};

verus! {

broadcast use vstd::std_specs::hash::group_hash_axioms;

/// What the tracker decides for one dictionary of one batch.
pub enum Decision {
    /// The dictionary is written, and its content is recorded.
    Emit,
    /// The dictionary was written before with the same content.
    Skip,
    /// The dictionary was written before with other content, and replacing it
    /// is forbidden.
    Reject,
}

/// The decision for the dictionary `id` with content `content`, after the
/// dictionaries in `seen` were written.
pub open spec fn decide(
    seen: Map<i64, Message>,
    cannot_replace: bool,
    id: i64,
    content: Message,
) -> Decision {
    if !seen.contains_key(id) {
        Decision::Emit
    } else if seen[id] == content {
        Decision::Skip
    } else if cannot_replace {
        Decision::Reject
    } else {
        Decision::Emit
    }
}

/// Keeps, for every dictionary id, the content that was last written for it.
pub struct DictionaryTracker {
    /// The content last written for each dictionary id.
    pub dictionaries: HashMap<i64, EncodedData>,
    /// Whether a dictionary that was written must keep its content. It must
    /// in a file, where every batch refers to the one dictionary of its id.
    pub cannot_replace: bool,
}

impl DictionaryTracker {
    /// The content last written for each dictionary id.
    pub open spec fn seen(&self) -> Map<i64, Message> {
        self.dictionaries@.map_values(|content: EncodedData| content@)
    }

    /// A tracker that has seen no dictionary.
    pub fn new(cannot_replace: bool) -> (tracker: DictionaryTracker)
        ensures
            tracker.seen() == Map::<i64, Message>::empty(),
            tracker.cannot_replace == cannot_replace,
    {
        let tracker = DictionaryTracker { dictionaries: HashMap::new(), cannot_replace };
        assert(tracker.seen() =~= Map::<i64, Message>::empty());
        tracker
    }

    /// Decides whether the dictionary `dict_id` must be written with the
    /// content `content`, and records the content if it must: `Ok(true)` where
    /// it must, `Ok(false)` where the same content was written before, and an
    /// error where other content was written before and may not be replaced.
    pub fn insert(&mut self, dict_id: i64, content: &EncodedData) -> (res: Result<bool, Error>)
        ensures
            final(self).cannot_replace == old(self).cannot_replace,
            match decide(old(self).seen(), old(self).cannot_replace, dict_id, content@) {
                Decision::Emit => res == Ok::<bool, Error>(true) && final(self).seen() == old(
                    self,
                ).seen().insert(dict_id, content@),
                Decision::Skip => res == Ok::<bool, Error>(false) && final(self).seen() == old(
                    self,
                ).seen(),
                Decision::Reject => res == Err::<bool, Error>(Error::DictionaryReplaced(dict_id))
                    && final(self).seen() == old(self).seen(),
            },
    {
        match self.dictionaries.get(&dict_id) {
            Some(last) => {
                assert(old(self).seen()[dict_id] == last@);
                if last.same_bytes(content) {
                    return Ok(false);
                } else if self.cannot_replace {
                    return Err(Error::DictionaryReplaced(dict_id));
                }
            },
            None => {},
        }
        self.dictionaries.insert(dict_id, content.duplicate());
        assert(self.seen() =~= old(self).seen().insert(dict_id, content@));
        Ok(true)
    }
}

} // verus!
