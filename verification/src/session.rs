//! What holds of the slots after any calls, with any arguments.

use vstd::prelude::*;
use vstd::utf8::*;

use crate::labels::{law_relabel_keeps_rest, lemma_relabel_style_range};
use crate::laws::{in_style_range, law_decoded_keys_unique, law_decoded_styles_in_range};
use crate::node::Tree;
use crate::tree::keys;
use crate::views::{built, built_from, tree_in, updated_from};

verus! {

/// A call that may change the slots. Bytes are what the caller announces.
pub enum Call {
    /// `build_tree_from_buffer`.
    Build { view: usize, data: Seq<u8> },
    /// `gpui_build_tree`.
    BuildFrom { view: i32, data: Option<Seq<u8>> },
    /// `gpui_update_text`.
    UpdateFrom { view: i32, key: Option<Seq<u8>>, text: Option<Seq<u8>> },
}

/// The slots after one call.
pub open spec fn after_call(slots: Seq<Option<Tree>>, call: Call) -> Seq<Option<Tree>> {
    match call {
        Call::Build { view, data } => built(slots, view as int, data).1,
        Call::BuildFrom { view, data } => built_from(slots, view, data).1,
        Call::UpdateFrom { view, key, text } => updated_from(slots, view, key, text).1,
    }
}

/// The slots after a list of calls.
pub open spec fn after_calls(slots: Seq<Option<Tree>>, calls: Seq<Call>) -> Seq<Option<Tree>>
    decreases calls.len(),
{
    if calls.len() == 0 {
        slots
    } else {
        after_calls(after_call(slots, calls.first()), calls.drop_first())
    }
}

/// Every tree in the slots has distinct keys, font weights between the lightest
/// and the heaviest, and no negative line height.
pub open spec fn all_sound(slots: Seq<Option<Tree>>) -> bool {
    forall|i: int|
        0 <= i < slots.len() ==> (#[trigger] slots[i] matches Some(tree) ==> keys(
            tree,
        ).no_duplicates() && in_style_range(tree))
}

proof fn lemma_commit_sound(slots: Seq<Option<Tree>>, view: int, data: Seq<u8>)
    requires
        0 <= view,
        all_sound(slots),
    ensures
        all_sound(built(slots, view, data).1),
{
    law_decoded_keys_unique(data);
    law_decoded_styles_in_range(data);
    let after = built(slots, view, data).1;
    assert forall|i: int| 0 <= i < after.len() implies (#[trigger] after[i] matches Some(tree)
        ==> keys(tree).no_duplicates() && in_style_range(tree)) by {
        if i < slots.len() {
            assert(slots[i] matches Some(tree) ==> keys(tree).no_duplicates());
        }
    }
}

proof fn lemma_call_sound(slots: Seq<Option<Tree>>, call: Call)
    requires
        all_sound(slots),
    ensures
        all_sound(after_call(slots, call)),
{
    match call {
        Call::Build { view, data } => lemma_commit_sound(slots, view as int, data),
        Call::BuildFrom { view, data } => {
            if view >= 0 && data is Some {
                lemma_commit_sound(slots, view as int, data->Some_0);
            }
        },
        Call::UpdateFrom { view, key, text } => {
            if let (Some(k), Some(t)) = (key, text) {
                if let Some(tree) = tree_in(slots, view as int) {
                    assert(slots[view as int] == Some(tree));
                    law_relabel_keeps_rest(tree, decode_utf8(k), decode_utf8(t));
                    lemma_relabel_style_range(tree, decode_utf8(k), decode_utf8(t));
                }
            }
        },
    }
}

/// Whatever calls were made, with whatever arguments and statuses, every
/// committed tree has distinct keys and styles in range.
pub proof fn law_slots_stay_sound(calls: Seq<Call>)
    ensures
        all_sound(after_calls(Seq::empty(), calls)),
{
    lemma_calls_sound(Seq::empty(), calls);
}

proof fn lemma_calls_sound(slots: Seq<Option<Tree>>, calls: Seq<Call>)
    requires
        all_sound(slots),
    ensures
        all_sound(after_calls(slots, calls)),
    decreases calls.len(),
{
    if calls.len() > 0 {
        lemma_call_sound(slots, calls.first());
        lemma_calls_sound(after_call(slots, calls.first()), calls.drop_first());
    }
}

/// A call changes at most one slot and never takes a tree away.
pub proof fn law_call_touches_one_slot(slots: Seq<Option<Tree>>, call: Call, i: int)
    requires
        0 <= i < slots.len(),
    ensures
        ({
            let after = after_call(slots, call);
            let view = match call {
                Call::Build { view, .. } => view as int,
                Call::BuildFrom { view, .. } => view as int,
                Call::UpdateFrom { view, .. } => view as int,
            };
            &&& i < after.len()
            &&& i != view ==> after[i] == slots[i]
            &&& slots[i] is Some ==> after[i] is Some
        }),
{
}

} // verus!
