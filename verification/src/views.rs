//! The committed trees, one slot per view.

use vstd::prelude::*;
use vstd::slice::slice_subrange;
use vstd::utf8::*;

use crate::abi::{
    GPUI_STATUS_INVALID_HANDLE, GPUI_STATUS_KEY_NOT_FOUND, GPUI_STATUS_OK,
    GPUI_STATUS_TRUNCATED_BUFFER,
};
use crate::builder::staged;
use crate::decode::{decode, decode_tree};
use crate::labels::{law_relabel_keeps_rest, lemma_relabel_style_range};
use crate::laws::{
    in_style_range, law_decoded_keys_unique, law_decoded_size, law_decoded_styles_in_range,
};
use crate::node::{Tree, UiNode};
use crate::text::{copied, copied_len, copy_out, str_from_utf8};
use crate::tree::{
    collect_text_contents, keys, node_count, records, relabeled, texts, update_keyed_text,
};

verus! {

/// What holds of every committed tree: no key occurs twice, its nodes can be
/// counted, and its styles are in range.
pub open spec fn committable(tree: Tree) -> bool {
    &&& keys(tree).no_duplicates()
    &&& node_count(tree) <= usize::MAX
    &&& in_style_range(tree)
}

/// The bytes of a caller: `None` for a null pointer, and otherwise at least as
/// many bytes as `len` announces.
pub open spec fn readable(bytes: Option<&[u8]>, len: i32) -> bool {
    bytes matches Some(b) ==> len <= b@.len()
}

/// The bytes that a caller announces; `None` for a null pointer or a negative
/// length.
pub open spec fn announced(bytes: Option<&[u8]>, len: i32) -> Option<Seq<u8>> {
    match bytes {
        Some(b) if len >= 0 => Some(b@.take(len as int)),
        _ => None,
    }
}

/// The tree of a view; `None` when it has none.
pub open spec fn tree_in(slots: Seq<Option<Tree>>, view: int) -> Option<Tree> {
    if 0 <= view < slots.len() {
        slots[view]
    } else {
        None
    }
}

/// The slots with a tree in the slot of a view. Slots that come to be on the
/// way there are empty.
pub open spec fn committed(slots: Seq<Option<Tree>>, view: int, tree: Tree) -> Seq<Option<Tree>> {
    Seq::new(
        if view < slots.len() {
            slots.len()
        } else {
            (view + 1) as nat
        },
        |i: int|
            if i == view {
                Some(tree)
            } else if i < slots.len() {
                slots[i]
            } else {
                None
            },
    )
}

/// The status of a build, and the slots after it.
pub open spec fn built(slots: Seq<Option<Tree>>, view: int, data: Seq<u8>) -> (
    i32,
    Seq<Option<Tree>>,
) {
    match decode(data) {
        Ok(tree) => (GPUI_STATUS_OK, committed(slots, view, tree)),
        Err(status) => (status, slots),
    }
}

/// The status of a build at the boundary, and the slots after it.
pub open spec fn built_from(slots: Seq<Option<Tree>>, view: i32, data: Option<Seq<u8>>) -> (
    i32,
    Seq<Option<Tree>>,
) {
    if view < 0 {
        (GPUI_STATUS_INVALID_HANDLE, slots)
    } else {
        match data {
            Some(data) => built(slots, view as int, data),
            None => (GPUI_STATUS_TRUNCATED_BUFFER, slots),
        }
    }
}

/// The status of an update of the text under a key, and the slots after it.
pub open spec fn updated(
    slots: Seq<Option<Tree>>,
    view: int,
    key: Seq<char>,
    text: Seq<char>,
) -> (i32, Seq<Option<Tree>>) {
    match tree_in(slots, view) {
        Some(tree) => match relabeled(tree, key, text) {
            Some(after) => (GPUI_STATUS_OK, slots.update(view, Some(after))),
            None => (GPUI_STATUS_KEY_NOT_FOUND, slots),
        },
        None => (GPUI_STATUS_KEY_NOT_FOUND, slots),
    }
}

/// The status of an update at the boundary, and the slots after it.
pub open spec fn updated_from(
    slots: Seq<Option<Tree>>,
    view: i32,
    key: Option<Seq<u8>>,
    text: Option<Seq<u8>>,
) -> (i32, Seq<Option<Tree>>) {
    if view < 0 {
        (GPUI_STATUS_INVALID_HANDLE, slots)
    } else {
        match (key, text) {
            (Some(k), Some(t)) => if valid_utf8(k) && valid_utf8(t) {
                updated(slots, view as int, decode_utf8(k), decode_utf8(t))
            } else {
                (GPUI_STATUS_TRUNCATED_BUFFER, slots)
            },
            _ => (GPUI_STATUS_TRUNCATED_BUFFER, slots),
        }
    }
}

/// The announced bytes.
fn taken<'a>(bytes: Option<&'a [u8]>, len: i32) -> (data: Option<&'a [u8]>)
    requires
        readable(bytes, len),
    ensures
        match announced(bytes, len) {
            Some(b) => data matches Some(d) && d@ == b,
            None => data is None,
        },
{
    match bytes {
        Some(b) => {
            if len >= 0 {
                let data = slice_subrange(b, 0, len as usize);
                assert(data@ =~= b@.take(len as int));
                Some(data)
            } else {
                None
            }
        },
        None => None,
    }
}

/// The committed trees.
pub struct Views {
    slots: Vec<Option<UiNode>>,
}

impl View for Views {
    type V = Seq<Option<Tree>>;

    /// The slots, one per view.
    closed spec fn view(&self) -> Seq<Option<Tree>> {
        staged(self.slots@)
    }
}

impl Views {
    /// Every tree is one that may be committed.
    pub open spec fn wf(self) -> bool {
        forall|i: int|
            0 <= i < self@.len() ==> (#[trigger] self@[i] matches Some(tree) ==> committable(tree))
    }

    /// No slots.
    pub fn new() -> (views: Self)
        ensures
            views.wf(),
            views@ == Seq::<Option<Tree>>::empty(),
    {
        let views = Views { slots: Vec::new() };
        assert(views@ =~= Seq::empty());
        views
    }

    /// The tree of a view, if it has one.
    pub fn get(&self, view: usize) -> (node: Option<&UiNode>)
        ensures
            match tree_in(self@, view as int) {
                Some(tree) => node matches Some(n) && n.tree() == tree,
                None => node is None,
            },
    {
        if view < self.slots.len() {
            match &self.slots[view] {
                Some(node) => Some(node),
                None => None,
            }
        } else {
            None
        }
    }

    /// Puts a tree in the slot of a view, whatever was there.
    fn commit(&mut self, view: usize, root: UiNode)
        requires
            view < usize::MAX,
        ensures
            final(self)@ == committed(old(self)@, view as int, root.tree()),
    {
        let ghost before = self@;
        while self.slots.len() <= view
            invariant
                view < usize::MAX,
                before == old(self)@,
                self@.len() == self.slots@.len(),
                before.len() <= self@.len(),
                self@.len() == before.len() || self@.len() <= view + 1,
                forall|i: int|
                    0 <= i < self@.len() ==> #[trigger] self@[i] == if i < before.len() {
                        before[i]
                    } else {
                        None
                    },
            decreases view + 1 - self.slots@.len(),
        {
            let ghost at = self@;
            self.slots.push(None);
            assert(self@ =~= at.push(None));
        }
        let ghost at = self@;
        self.slots.set(view, Some(root));
        assert(self@ =~= at.update(view as int, Some(root.tree())));
        assert(self@ =~= committed(before, view as int, root.tree()));
    }
}

/// Commits the tree that a buffer describes. A buffer that is rejected leaves
/// every slot as it was.
pub fn build_tree_from_buffer(views: &mut Views, view: usize, data: &[u8]) -> (status: i32)
    requires
        old(views).wf(),
        view < usize::MAX,
    ensures
        final(views).wf(),
        (status, final(views)@) == built(old(views)@, view as int, data@),
{
    match decode_tree(data) {
        Ok(root) => {
            proof {
                law_decoded_keys_unique(data@);
                law_decoded_size(data@);
                law_decoded_styles_in_range(data@);
                assert(data@.len() == data.len());
                assert(committable(root.tree()));
            }
            views.commit(view, root);
            GPUI_STATUS_OK
        },
        Err(status) => status,
    }
}

/// Commits the tree that the `len` bytes at `bytes` describe.
pub fn gpui_build_tree(views: &mut Views, view: i32, bytes: Option<&[u8]>, len: i32) -> (status:
    i32)
    requires
        old(views).wf(),
        readable(bytes, len),
    ensures
        final(views).wf(),
        (status, final(views)@) == built_from(old(views)@, view, announced(bytes, len)),
{
    if view < 0 {
        return GPUI_STATUS_INVALID_HANDLE;
    }
    match taken(bytes, len) {
        Some(data) => build_tree_from_buffer(views, view as usize, data),
        None => GPUI_STATUS_TRUNCATED_BUFFER,
    }
}

/// Replaces the text under a key in the tree of a view, in place. A view
/// without a tree, and a tree without a text under the key, are left as they
/// are.
pub fn gpui_update_text(
    views: &mut Views,
    view: i32,
    key_bytes: Option<&[u8]>,
    key_len: i32,
    text_bytes: Option<&[u8]>,
    text_len: i32,
) -> (status: i32)
    requires
        old(views).wf(),
        readable(key_bytes, key_len),
        readable(text_bytes, text_len),
    ensures
        final(views).wf(),
        (status, final(views)@) == updated_from(
            old(views)@,
            view,
            announced(key_bytes, key_len),
            announced(text_bytes, text_len),
        ),
{
    if view < 0 {
        return GPUI_STATUS_INVALID_HANDLE;
    }
    let (key_slice, text_slice) = match (taken(key_bytes, key_len), taken(text_bytes, text_len)) {
        (Some(k), Some(t)) => (k, t),
        _ => {
            return GPUI_STATUS_TRUNCATED_BUFFER;
        },
    };
    let (key, text) = match (str_from_utf8(key_slice), str_from_utf8(text_slice)) {
        (Some(k), Some(t)) => (k, t),
        _ => {
            return GPUI_STATUS_TRUNCATED_BUFFER;
        },
    };
    let index = view as usize;
    if index >= views.slots.len() {
        return GPUI_STATUS_KEY_NOT_FOUND;
    }
    let ghost before = views@;
    let found = match &mut views.slots[index] {
        Some(root) => {
            let ghost tree = root.tree();
            proof {
                assert(before[index as int] == Some(tree));
                law_relabel_keeps_rest(tree, key@, text@);
                lemma_relabel_style_range(tree, key@, text@);
            }
            update_keyed_text(root, key, text)
        },
        None => false,
    };
    proof {
        assert(views@ =~= before.update(index as int, views@[index as int]));
        assert(before =~= before.update(index as int, before[index as int]));
    }
    if found {
        GPUI_STATUS_OK
    } else {
        GPUI_STATUS_KEY_NOT_FOUND
    }
}

/// Dumps the texts of the tree of a view, in order, each as its length and its
/// UTF-8 bytes. As much of the dump as fits into `len` bytes is written to
/// `buf`; the result is how many bytes that is.
pub fn gpui_debug_dump_text(views: &Views, view: i32, buf: Option<&mut [u8]>, len: i32) -> (n: i32)
    requires
        buf matches Some(b) ==> len <= b@.len(),
    ensures
        if view < 0 || buf is None || len < 0 || tree_in(views@, view as int) is None {
            n == GPUI_STATUS_INVALID_HANDLE && (buf matches Some(b) ==> final(b)@ == b@)
        } else {
            let dump = records(texts(tree_in(views@, view as int)->Some_0));
            &&& n == copied_len(dump, len as int)
            &&& buf matches Some(b) ==> final(b)@ == copied(dump, b@, len as int)
        },
{
    if view < 0 || len < 0 {
        return GPUI_STATUS_INVALID_HANDLE;
    }
    match buf {
        None => GPUI_STATUS_INVALID_HANDLE,
        Some(b) => match views.get(view as usize) {
            None => GPUI_STATUS_INVALID_HANDLE,
            Some(root) => {
                let mut payload: Vec<u8> = Vec::new();
                collect_text_contents(root, &mut payload);
                assert(payload@ =~= records(texts(root.tree())));
                copy_out(payload.as_slice(), b, len as usize) as i32
            },
        },
    }
}

/// Gives back the value it is handed, so that a caller can check that integers
/// cross the boundary unharmed.
pub fn gpui_abi_probe(value: i32) -> (echoed: i32)
    ensures
        echoed == value,
{
    value
}

} // verus!
