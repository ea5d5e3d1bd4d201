//! Scroll handles that outlive a render.

use vstd::prelude::*;
use vstd::hash_map::StringHashMap;

verus! {

/// The handle that a scrolling div is given: the one kept under its key, or
/// the fresh one if there is none.
pub open spec fn handle_for<H>(kept: Map<Seq<char>, H>, key: Option<Seq<char>>, fresh: H) -> H {
    match key {
        Some(k) if kept.contains_key(k) => kept[k],
        _ => fresh,
    }
}

/// The handles kept after that: a fresh one is kept under the key, and a div
/// without a key leaves nothing behind.
pub open spec fn kept_after<H>(
    kept: Map<Seq<char>, H>,
    key: Option<Seq<char>>,
    fresh: H,
) -> Map<Seq<char>, H> {
    match key {
        Some(k) if !kept.contains_key(k) => kept.insert(k, fresh),
        _ => kept,
    }
}

/// The scroll handles of one view, by key.
#[verifier::reject_recursive_types(H)]
pub struct ScrollHandles<H> {
    handles: StringHashMap<H>,
}

impl<H> View for ScrollHandles<H> {
    type V = Map<Seq<char>, H>;

    /// The handles kept.
    closed spec fn view(&self) -> Map<Seq<char>, H> {
        self.handles@
    }
}

impl<H> ScrollHandles<H> {
    /// No handle kept.
    pub fn new() -> (handles: Self)
        ensures
            handles@ == Map::<Seq<char>, H>::empty(),
    {
        ScrollHandles { handles: StringHashMap::new() }
    }
}

/// A clone of the handle for a scrolling div. `fresh` is used if none is kept
/// under its key.
pub fn scroll_handle_for<H: Clone>(
    handles: &mut ScrollHandles<H>,
    key: Option<&str>,
    fresh: H,
) -> (handle: H)
    ensures
        ({
            let k = match key {
                Some(key) => Some(key@),
                None => None,
            };
            &&& cloned(handle_for(old(handles)@, k, fresh), handle)
            &&& final(handles)@ == kept_after(old(handles)@, k, fresh)
        }),
{
    match key {
        Some(k) => {
            if let Some(handle) = handles.handles.get(k) {
                return handle.clone();
            }
            let handle = fresh.clone();
            handles.handles.insert(k.to_owned(), fresh);
            handle
        },
        None => fresh.clone(),
    }
}

/// The handles kept after a list of lookups, each with the key of a div and
/// the fresh handle it came with.
pub open spec fn kept_through<H>(
    kept: Map<Seq<char>, H>,
    lookups: Seq<(Option<Seq<char>>, H)>,
) -> Map<Seq<char>, H>
    decreases lookups.len(),
{
    if lookups.len() == 0 {
        kept
    } else {
        let (key, fresh) = lookups.first();
        kept_through(kept_after(kept, key, fresh), lookups.drop_first())
    }
}

/// A div with a key is given one and the same handle in every render, whatever
/// is looked up in between.
pub proof fn law_keyed_handle_retained<H>(
    kept: Map<Seq<char>, H>,
    key: Seq<char>,
    fresh: H,
    between: Seq<(Option<Seq<char>>, H)>,
    later_fresh: H,
)
    ensures
        handle_for(
            kept_through(kept_after(kept, Some(key), fresh), between),
            Some(key),
            later_fresh,
        ) == handle_for(kept, Some(key), fresh),
{
    lemma_kept_through(kept_after(kept, Some(key), fresh), between, key);
}

proof fn lemma_kept_through<H>(
    kept: Map<Seq<char>, H>,
    lookups: Seq<(Option<Seq<char>>, H)>,
    key: Seq<char>,
)
    requires
        kept.contains_key(key),
    ensures
        kept_through(kept, lookups).contains_key(key),
        kept_through(kept, lookups)[key] == kept[key],
    decreases lookups.len(),
{
    if lookups.len() > 0 {
        let (k, fresh) = lookups.first();
        lemma_kept_through(kept_after(kept, k, fresh), lookups.drop_first(), key);
    }
}

/// What one div is given does not depend on what a div with another key was
/// given before.
pub proof fn law_handles_independent<H>(
    kept: Map<Seq<char>, H>,
    key: Seq<char>,
    fresh: H,
    other: Option<Seq<char>>,
    other_fresh: H,
)
    requires
        other != Some(key),
    ensures
        handle_for(kept_after(kept, other, other_fresh), Some(key), fresh) == handle_for(
            kept,
            Some(key),
            fresh,
        ),
{
}

/// A div without a key is given the fresh handle every time, and nothing is
/// kept for it.
pub proof fn law_keyless_handle_fresh<H>(kept: Map<Seq<char>, H>, fresh: H)
    ensures
        handle_for(kept, None, fresh) == fresh,
        kept_after(kept, None, fresh) == kept,
{
}

} // verus!
