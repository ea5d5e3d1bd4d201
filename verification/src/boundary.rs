//! The calls on committed trees, slot by slot and byte by byte.

use vstd::prelude::*;
use vstd::utf8::*;

use crate::decode::decode;
use crate::laws::{law_decode_statuses, lemma_node_count_push, lemma_texts_push};
use crate::machine::only_changes;
use crate::node::{DivProps, Rgb, Tree};
use crate::paths::{
    alike, carries, distinct_keys, law_update_finds_every_place, law_update_needs_a_place,
    node_at,
};
use crate::reader::{Float32, u32_bytes};
use crate::scroll::{handle_for, kept_after};
use crate::text::{copied, copied_len};
use crate::tree::{
    lemma_records_concat, node_count, node_count_of, record, records, texts, texts_of,
};
use crate::views::{announced, built, built_from, readable, tree_in, updated_from};

verus! {

/// What a caller hands over: nothing for a null pointer or a negative length,
/// and otherwise as many of its bytes as it announces, in order.
pub proof fn law_bytes_handed_over(bytes: Option<&[u8]>, len: i32)
    requires
        readable(bytes, len),
    ensures
        match (bytes, announced(bytes, len)) {
            (Some(b), Some(data)) => {
                &&& len >= 0
                &&& data.len() == len
                &&& forall|i: int| 0 <= i < len ==> #[trigger] data[i] == b@[i]
            },
            (Some(_), None) => len < 0,
            (None, handed) => handed is None,
        },
{
}

/// A view has the tree in its slot, and none where there is no such slot.
pub proof fn law_slot_of_view(slots: Seq<Option<Tree>>, view: int)
    ensures
        0 <= view < slots.len() ==> tree_in(slots, view) == slots[view],
        !(0 <= view < slots.len()) ==> tree_in(slots, view) is None,
{
}

/// A build that succeeds puts the decoded tree into the slot of its view. There
/// are then just enough slots; those before it that are new are empty, and all
/// others are as they were. A build that fails changes nothing.
pub proof fn law_building(slots: Seq<Option<Tree>>, view: int, data: Seq<u8>)
    requires
        0 <= view,
    ensures
        ({
            let (status, after) = built(slots, view, data);
            match decode(data) {
                Ok(tree) => {
                    &&& status == 0
                    &&& after.len() >= slots.len() && after.len() > view
                    &&& after.len() == slots.len() || after.len() == view + 1
                    &&& after[view] == Some(tree)
                    &&& forall|i: int|
                        0 <= i < slots.len() && i != view ==> #[trigger] after[i] == slots[i]
                    &&& forall|i: int|
                        slots.len() <= i < after.len() && i != view ==> #[trigger] after[i] is None
                },
                Err(error) => status == error && after == slots && status < 0,
            }
        }),
{
    law_decode_statuses(data);
}

/// At the boundary a negative view and missing bytes are refused, in this
/// order, and change nothing; every other build is done.
pub proof fn law_build_refusals(slots: Seq<Option<Tree>>, view: i32, data: Option<Seq<u8>>)
    ensures
        view < 0 ==> built_from(slots, view, data) == (-1i32, slots),
        view >= 0 && data is None ==> built_from(slots, view, data) == (-6i32, slots),
        view >= 0 && data is Some ==> built_from(slots, view, data) == built(
            slots,
            view as int,
            data->Some_0,
        ),
{
}

/// At the boundary a negative view, and then missing or malformed bytes, are
/// refused and change nothing.
pub proof fn law_update_refusals(
    slots: Seq<Option<Tree>>,
    view: i32,
    key: Option<Seq<u8>>,
    text: Option<Seq<u8>>,
)
    ensures
        view < 0 ==> updated_from(slots, view, key, text) == (-1i32, slots),
        view >= 0 && !(key matches Some(k) && valid_utf8(k)) ==> updated_from(
            slots,
            view,
            key,
            text,
        ) == (-6i32, slots),
        view >= 0 && !(text matches Some(t) && valid_utf8(t)) ==> updated_from(
            slots,
            view,
            key,
            text,
        ) == (-6i32, slots),
{
}

/// An update finds the div that carries the key wherever it is in the tree of
/// the view, as long as it has a text among its children, and replaces the
/// first of them. Every other place of the tree and every other slot is as it
/// was.
pub proof fn law_updating(
    slots: Seq<Option<Tree>>,
    view: i32,
    tree: Tree,
    path: Seq<int>,
    i: int,
    key: Seq<u8>,
    text: Seq<u8>,
)
    requires
        0 <= view < slots.len(),
        slots[view as int] == Some(tree),
        distinct_keys(tree),
        valid_utf8(key),
        valid_utf8(text),
        carries(tree, path, decode_utf8(key)),
        0 <= i < node_at(tree, path)->Some_0->children.len(),
        node_at(tree, path)->Some_0->children[i] is Text,
        forall|j: int| 0 <= j < i ==> #[trigger] node_at(tree, path)->Some_0->children[j] is Div,
    ensures
        ({
            let (status, after) = updated_from(slots, view, Some(key), Some(text));
            &&& status == 0
            &&& only_changes(slots, after, view as int)
            &&& after[view as int] matches Some(new_tree)
            &&& node_at(tree, path.push(i)) matches Some(Tree::Text { color, size, .. })
            &&& node_at(new_tree, path.push(i)) == Some(
                Tree::Text { content: decode_utf8(text), color, size },
            )
            &&& forall|q: Seq<int>|
                q != path.push(i) ==> alike(#[trigger] node_at(new_tree, q), node_at(tree, q))
        }),
{
    law_update_finds_every_place(tree, path, decode_utf8(key), i, decode_utf8(text));
}

/// An update of a view without a tree, or of a key that no div with a text among
/// its children carries, finds nothing and changes nothing.
pub proof fn law_update_finds_nothing(
    slots: Seq<Option<Tree>>,
    view: i32,
    key: Seq<u8>,
    text: Seq<u8>,
)
    requires
        view >= 0,
        valid_utf8(key),
        valid_utf8(text),
        view < slots.len() && slots[view as int] is Some ==> forall|p: Seq<int>, i: int|
            #[trigger] carries(slots[view as int]->Some_0, p, decode_utf8(key)) && 0 <= i < node_at(
                slots[view as int]->Some_0,
                p,
            )->Some_0->children.len() ==> #[trigger] node_at(
                slots[view as int]->Some_0,
                p,
            )->Some_0->children[i] is Div,
    ensures
        updated_from(slots, view, Some(key), Some(text)) == (-10i32, slots),
{
    if view < slots.len() {
        if let Some(tree) = slots[view as int] {
            law_update_needs_a_place(tree, decode_utf8(key), decode_utf8(text));
        }
    }
}

/// The texts of a tree are those of its children in order, whatever is set on
/// its divs.
pub proof fn law_texts_in_order(
    props: DivProps<Seq<char>>,
    list: Seq<Tree>,
    next: Tree,
    content: Seq<char>,
    color: Rgb,
    size: Float32,
)
    ensures
        texts(Tree::Text { content, color, size }) == seq![content],
        texts(Tree::Div { props, children: Seq::empty() }) == Seq::<Seq<char>>::empty(),
        texts(Tree::Div { props, children: list.push(next) }) == texts(
            Tree::Div { props, children: list },
        ) + texts(next),
{
    reveal_with_fuel(texts, 2);
    reveal_with_fuel(texts_of, 2);
    lemma_texts_push(list, next);
}

/// A tree has itself and the nodes of its children.
pub proof fn law_nodes_counted(
    props: DivProps<Seq<char>>,
    list: Seq<Tree>,
    next: Tree,
    content: Seq<char>,
    color: Rgb,
    size: Float32,
)
    ensures
        node_count(Tree::Text { content, color, size }) == 1,
        node_count(Tree::Div { props, children: Seq::empty() }) == 1,
        node_count(Tree::Div { props, children: list.push(next) }) == node_count(
            Tree::Div { props, children: list },
        ) + node_count(next),
{
    reveal_with_fuel(node_count, 2);
    reveal_with_fuel(node_count_of, 2);
    lemma_node_count_push(list, next);
}

/// A dump is one record per text in order: the length of its UTF-8 form in four
/// bytes, the low one first, and the form itself. Of a longer length the low four
/// bytes are kept.
pub proof fn law_dump_layout(contents: Seq<Seq<char>>, next: Seq<char>)
    ensures
        records(Seq::empty()) == Seq::<u8>::empty(),
        ({
            let n = records(contents).len() as int;
            let all = records(contents.push(next));
            let form = encode_utf8(next);
            &&& all.len() == n + 4 + form.len()
            &&& all.take(n) == records(contents)
            &&& all[n] + 256 * all[n + 1] + 65536 * all[n + 2] + 16777216 * all[n + 3]
                == form.len() % 4294967296
            &&& all.skip(n + 4) == form
        }),
{
    let one = seq![next];
    let before = records(contents);
    assert(contents.push(next) =~= contents + one);
    lemma_records_concat(contents, one);
    lemma_one_record(next);
    lemma_after(before, encode_utf8(next));
}

/// The dump of one text.
proof fn lemma_one_record(next: Seq<char>)
    ensures
        records(seq![next]) == framed(encode_utf8(next)),
{
    reveal_with_fuel(records, 2);
    let one = seq![next];
    assert(one.drop_first() =~= Seq::empty());
    assert(records(one) =~= record(next));
}

/// Bytes behind their length.
spec fn framed(form: Seq<u8>) -> Seq<u8> {
    u32_bytes((form.len() % 4294967296) as u32) + form
}

proof fn lemma_after(before: Seq<u8>, form: Seq<u8>)
    ensures
        ({
            let n = before.len() as int;
            let all = before + framed(form);
            &&& all.len() == n + 4 + form.len()
            &&& all.take(n) == before
            &&& all[n] + 256 * all[n + 1] + 65536 * all[n + 2] + 16777216 * all[n + 3]
                == form.len() % 4294967296
            &&& all.skip(n + 4) == form
        }),
{
    let n = before.len() as int;
    let all = before + framed(form);
    let v = (form.len() % 4294967296) as u32;
    let four = u32_bytes(v);
    assert(all[n] == four[0] && all[n + 1] == four[1] && all[n + 2] == four[2] && all[n + 3]
        == four[3]);
    lemma_four_bytes(v);
    assert(all.take(n) =~= before);
    assert(all.skip(n + 4) =~= form);
}

proof fn lemma_four_bytes(v: u32)
    ensures
        u32_bytes(v).len() == 4,
        u32_bytes(v)[0] + 256 * u32_bytes(v)[1] + 65536 * u32_bytes(v)[2] + 16777216 * u32_bytes(
            v,
        )[3] == v,
{
}

/// Copying out writes as much of a payload as fits, byte for byte from its
/// start, says how much that is, and leaves the rest of the buffer alone.
pub proof fn law_copying(payload: Seq<u8>, before: Seq<u8>, room: int)
    requires
        0 <= room <= before.len(),
    ensures
        ({
            let n = copied_len(payload, room);
            let after = copied(payload, before, room);
            &&& 0 <= n <= room && n <= payload.len()
            &&& n == room || n == payload.len()
            &&& after.len() == before.len()
            &&& forall|i: int| 0 <= i < n ==> #[trigger] after[i] == payload[i]
            &&& forall|i: int| n <= i < after.len() ==> #[trigger] after[i] == before[i]
        }),
{
}

/// A scrolling div is given the handle kept under its key; if there is none it
/// is given the fresh one, which is kept. No other handle is touched.
pub proof fn law_handle_lookup<H>(
    kept: Map<Seq<char>, H>,
    key: Seq<char>,
    fresh: H,
    other: Seq<char>,
)
    ensures
        ({
            let after = kept_after(kept, Some(key), fresh);
            &&& kept.contains_key(key) ==> handle_for(kept, Some(key), fresh) == kept[key]
            &&& !kept.contains_key(key) ==> handle_for(kept, Some(key), fresh) == fresh
            &&& after.contains_key(key) && after[key] == handle_for(kept, Some(key), fresh)
            &&& other != key ==> (after.contains_key(other) <==> kept.contains_key(other))
            &&& other != key && kept.contains_key(other) ==> after[other] == kept[other]
        }),
{
}

} // verus!
