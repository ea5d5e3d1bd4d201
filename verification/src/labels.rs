//! What replacing the text under a key does and does not do.

use vstd::prelude::*;

use crate::laws::in_style_range;
use crate::node::Tree;
use crate::tree::{
    first_text, keys, keys_of, label, label_of, lemma_first_text, node_count, node_count_of,
    relabeled, relabeled_of, retexted, texts, texts_of,
};

verus! {

/// There is a text to replace exactly when there is a text under the key.
pub proof fn law_relabel_needs_label(tree: Tree, key: Seq<char>, text: Seq<char>)
    ensures
        relabeled(tree, key, text) is Some <==> label(tree, key) is Some,
    decreases tree,
{
    if let Tree::Div { props, children } = tree {
        lemma_relabel_needs_label_of(children, key, text);
    }
}

proof fn lemma_relabel_needs_label_of(list: Seq<Tree>, key: Seq<char>, text: Seq<char>)
    ensures
        relabeled_of(list, key, text) is Some <==> label_of(list, key) is Some,
    decreases list,
{
    if list.len() > 0 {
        law_relabel_needs_label(list.first(), key, text);
        lemma_relabel_needs_label_of(list.drop_first(), key, text);
    }
}

/// Where the first text is depends only on which trees are texts.
proof fn lemma_first_text_by_kind(a: Seq<Tree>, b: Seq<Tree>)
    requires
        a.len() == b.len(),
        forall|j: int| 0 <= j < a.len() ==> (#[trigger] a[j] is Text <==> b[j] is Text),
    ensures
        first_text(a) == first_text(b),
    decreases a.len(),
{
    if a.len() > 0 {
        assert(a[0] is Text <==> b[0] is Text);
        assert forall|j: int| 0 <= j < a.drop_first().len() implies (
        #[trigger] a.drop_first()[j] is Text <==> b.drop_first()[j] is Text) by {
            assert(a[j + 1] is Text <==> b[j + 1] is Text);
        }
        lemma_first_text_by_kind(a.drop_first(), b.drop_first());
    }
}

/// Replacing in a list leaves its texts alone and every div a div.
proof fn lemma_relabeled_of_kinds(list: Seq<Tree>, key: Seq<char>, text: Seq<char>)
    ensures
        relabeled_of(list, key, text) matches Some(after) ==> {
            &&& after.len() == list.len()
            &&& forall|j: int|
                0 <= j < list.len() ==> (#[trigger] list[j] is Text ==> after[j] == list[j]) && (
                list[j] is Div ==> after[j] is Div)
        },
    decreases list.len(),
{
    if list.len() > 0 {
        let rest = list.drop_first();
        lemma_relabeled_of_kinds(rest, key, text);
        if let Some(after) = relabeled_of(list, key, text) {
            assert forall|j: int| 0 <= j < list.len() implies (#[trigger] list[j] is Text ==> after[j]
                == list[j]) && (list[j] is Div ==> after[j] is Div) by {
                let replaced = relabeled(list.first(), key, text);
                assert(replaced matches Some(t) ==> t is Div && list.first() is Div);
                if j > 0 {
                    assert(rest[j - 1] == list[j]);
                    match replaced {
                        Some(_) => assert(after[j] == rest[j - 1]),
                        None => assert(after[j] == relabeled_of(rest, key, text)->Some_0[j - 1]),
                    }
                }
            }
        }
    }
}

/// Replacing one text of a list by another keeps the keys, the number of nodes
/// and the texts under keys further down, and changes one text.
proof fn lemma_text_replaced(list: Seq<Tree>, i: int, text: Seq<char>, other: Seq<char>)
    requires
        0 <= i < list.len(),
        list[i] is Text,
    ensures
        ({
            let after = list.update(i, retexted(list[i], text));
            &&& keys_of(after) == keys_of(list)
            &&& node_count_of(after) == node_count_of(list)
            &&& label_of(after, other) == label_of(list, other)
            &&& exists|k: int|
                0 <= k < texts_of(list).len() && #[trigger] texts_of(list)[k] == list[i]->content
                    && texts_of(after) == texts_of(list).update(k, text)
        }),
    decreases list.len(),
{
    let after = list.update(i, retexted(list[i], text));
    let first = list.first();
    let rest = list.drop_first();
    if i == 0 {
        assert(after.drop_first() =~= rest);
        assert(texts(first) == seq![first->content]);
        assert(texts(after.first()) == seq![text]);
        assert(keys(after.first()) == keys(first));
        assert(node_count(after.first()) == node_count(first));
        assert(label(after.first(), other) == label(first, other));
        assert(texts_of(list)[0] == first->content);
        assert(texts_of(after) =~= texts_of(list).update(0, text));
    } else {
        lemma_text_replaced(rest, i - 1, text, other);
        let tail = rest.update(i - 1, retexted(rest[i - 1], text));
        assert(after.drop_first() =~= tail);
        assert(after.first() == first);
        let k = choose|k: int|
            0 <= k < texts_of(rest).len() && #[trigger] texts_of(rest)[k] == rest[i - 1]->content
                && texts_of(tail) == texts_of(rest).update(k, text);
        let m = texts(first).len() + k;
        assert(texts_of(list)[m] == list[i]->content);
        assert(texts_of(after) =~= texts_of(list).update(m, text));
    }
}

/// A replaced text reads back, and the texts under all other keys are as they
/// were.
pub proof fn law_relabel_reads_back(tree: Tree, key: Seq<char>, text: Seq<char>, other: Seq<char>)
    ensures
        relabeled(tree, key, text) matches Some(after) ==> {
            &&& label(after, key) == Some(text)
            &&& other != key ==> label(after, other) == label(tree, other)
        },
    decreases tree,
{
    if let Tree::Div { props, children } = tree {
        if let Some(after) = relabeled(tree, key, text) {
            let list = after->children;
            if props.key == Some(key) {
                lemma_first_text(children);
                lemma_first_text_by_kind(children, list);
                lemma_text_replaced(children, first_text(children)->Some_0, text, other);
            } else {
                lemma_relabel_reads_back_of(children, key, text, other);
                lemma_relabeled_of_kinds(children, key, text);
                lemma_first_text(children);
                lemma_first_text_by_kind(children, list);
            }
        }
    }
}

proof fn lemma_relabel_reads_back_of(
    list: Seq<Tree>,
    key: Seq<char>,
    text: Seq<char>,
    other: Seq<char>,
)
    ensures
        relabeled_of(list, key, text) matches Some(after) ==> {
            &&& label_of(after, key) == Some(text)
            &&& other != key ==> label_of(after, other) == label_of(list, other)
        },
    decreases list,
{
    if list.len() > 0 {
        law_relabel_reads_back(list.first(), key, text, other);
        law_relabel_needs_label(list.first(), key, text);
        lemma_relabel_reads_back_of(list.drop_first(), key, text, other);
        if let Some(after) = relabeled_of(list, key, text) {
            match relabeled(list.first(), key, text) {
                Some(_) => {
                    assert(after.drop_first() =~= list.drop_first());
                },
                None => {
                    assert(after.drop_first() =~= relabeled_of(
                        list.drop_first(),
                        key,
                        text,
                    )->Some_0);
                },
            }
        }
    }
}

/// Replacing the new text by the old one gives the tree back, so nothing but
/// that text was touched.
pub proof fn law_relabel_undone(tree: Tree, key: Seq<char>, text: Seq<char>)
    ensures
        relabeled(tree, key, text) matches Some(after) ==> relabeled(
            after,
            key,
            label(tree, key)->Some_0,
        ) == Some(tree),
    decreases tree,
{
    if let Tree::Div { props, children } = tree {
        if let Some(after) = relabeled(tree, key, text) {
            if props.key == Some(key) {
                lemma_first_text(children);
                lemma_first_text_by_kind(children, after->children);
                let back = relabeled(after, key, label(tree, key)->Some_0)->Some_0;
                assert(back->children =~= children);
            } else {
                lemma_relabel_undone_of(children, key, text);
            }
        }
    }
}

proof fn lemma_relabel_undone_of(list: Seq<Tree>, key: Seq<char>, text: Seq<char>)
    ensures
        relabeled_of(list, key, text) matches Some(after) ==> relabeled_of(
            after,
            key,
            label_of(list, key)->Some_0,
        ) == Some(list),
    decreases list,
{
    if list.len() > 0 {
        let first = list.first();
        let rest = list.drop_first();
        law_relabel_undone(first, key, text);
        law_relabel_needs_label(first, key, text);
        lemma_relabel_undone_of(rest, key, text);
        if let Some(after) = relabeled_of(list, key, text) {
            let old_text = label_of(list, key)->Some_0;
            match relabeled(first, key, text) {
                Some(_) => {
                    assert(after.drop_first() =~= rest);
                    assert(seq![first] + rest =~= list);
                },
                None => {
                    lemma_relabel_needs_label_of(rest, key, text);
                    law_relabel_needs_label(first, key, old_text);
                    assert(after.first() == first);
                    assert(after.drop_first() =~= relabeled_of(rest, key, text)->Some_0);
                    assert(seq![first] + rest =~= list);
                },
            }
        }
    }
}

/// Replacing a text changes neither the keys nor the number of nodes, and of
/// the texts exactly one.
pub proof fn law_relabel_keeps_rest(tree: Tree, key: Seq<char>, text: Seq<char>)
    ensures
        relabeled(tree, key, text) matches Some(after) ==> {
            &&& keys(after) == keys(tree)
            &&& node_count(after) == node_count(tree)
            &&& exists|i: int|
                0 <= i < texts(tree).len() && #[trigger] texts(tree)[i] == label(tree, key)->Some_0
                    && texts(after) == texts(tree).update(i, text)
        },
    decreases tree,
{
    if let Tree::Div { props, children } = tree {
        if let Some(after) = relabeled(tree, key, text) {
            let list = after->children;
            let old_text = label(tree, key)->Some_0;
            if props.key == Some(key) {
                lemma_first_text(children);
                lemma_text_replaced(children, first_text(children)->Some_0, text, key);
                let i = choose|i: int|
                    0 <= i < texts_of(children).len() && #[trigger] texts_of(children)[i]
                        == old_text && texts_of(list) == texts_of(children).update(i, text);
                assert(texts(tree)[i] == old_text);
            } else {
                lemma_relabel_keeps_rest_of(children, key, text);
                let i = choose|i: int|
                    0 <= i < texts_of(children).len() && #[trigger] texts_of(children)[i]
                        == label_of(children, key)->Some_0 && texts_of(list) == texts_of(
                        children,
                    ).update(i, text);
                assert(texts(tree)[i] == old_text);
            }
        }
    }
}

proof fn lemma_relabel_keeps_rest_of(list: Seq<Tree>, key: Seq<char>, text: Seq<char>)
    ensures
        relabeled_of(list, key, text) matches Some(after) ==> {
            &&& keys_of(after) == keys_of(list)
            &&& node_count_of(after) == node_count_of(list)
            &&& exists|i: int|
                0 <= i < texts_of(list).len() && #[trigger] texts_of(list)[i] == label_of(
                    list,
                    key,
                )->Some_0 && texts_of(after) == texts_of(list).update(i, text)
        },
    decreases list,
{
    if list.len() > 0 {
        let first = list.first();
        let rest = list.drop_first();
        law_relabel_keeps_rest(first, key, text);
        law_relabel_needs_label(first, key, text);
        lemma_relabel_keeps_rest_of(rest, key, text);
        if let Some(after) = relabeled_of(list, key, text) {
            let all = texts_of(list);
            match relabeled(first, key, text) {
                Some(_) => {
                    assert(after.drop_first() =~= rest);
                    let i = choose|i: int|
                        0 <= i < texts(first).len() && #[trigger] texts(first)[i] == label(
                            first,
                            key,
                        )->Some_0 && texts(after.first()) == texts(first).update(i, text);
                    assert(all[i] == label_of(list, key)->Some_0);
                    assert(texts_of(after) =~= all.update(i, text));
                },
                None => {
                    let tail = relabeled_of(rest, key, text)->Some_0;
                    assert(after.drop_first() =~= tail);
                    let i = choose|i: int|
                        0 <= i < texts_of(rest).len() && #[trigger] texts_of(rest)[i] == label_of(
                            rest,
                            key,
                        )->Some_0 && texts_of(tail) == texts_of(rest).update(i, text);
                    let j = texts(first).len() + i;
                    assert(all[j] == label_of(list, key)->Some_0);
                    assert(texts_of(after) =~= all.update(j, text));
                },
            }
        }
    }
}

/// Replacing a text keeps the styles in range.
pub proof fn lemma_relabel_style_range(tree: Tree, key: Seq<char>, text: Seq<char>)
    requires
        in_style_range(tree),
    ensures
        relabeled(tree, key, text) matches Some(after) ==> in_style_range(after),
    decreases tree,
{
    if let Tree::Div { props, children } = tree {
        if let Some(after) = relabeled(tree, key, text) {
            let list = after->children;
            if props.key == Some(key) {
                lemma_first_text(children);
                assert forall|j: int| 0 <= j < list.len() implies in_style_range(
                    #[trigger] list[j],
                ) by {
                    assert(in_style_range(children[j]));
                }
            } else {
                lemma_relabel_style_range_of(children, key, text);
            }
        }
    }
}

proof fn lemma_relabel_style_range_of(list: Seq<Tree>, key: Seq<char>, text: Seq<char>)
    requires
        forall|i: int| 0 <= i < list.len() ==> in_style_range(#[trigger] list[i]),
    ensures
        relabeled_of(list, key, text) matches Some(after) ==> forall|i: int|
            0 <= i < after.len() ==> in_style_range(#[trigger] after[i]),
    decreases list,
{
    if list.len() > 0 {
        let rest = list.drop_first();
        assert forall|i: int| 0 <= i < rest.len() implies in_style_range(#[trigger] rest[i]) by {
            assert(in_style_range(list[i + 1]));
        }
        assert(in_style_range(list[0]));
        lemma_relabel_style_range(list.first(), key, text);
        lemma_relabel_style_range_of(rest, key, text);
        if let Some(after) = relabeled_of(list, key, text) {
            assert forall|i: int| 0 <= i < after.len() implies in_style_range(
                #[trigger] after[i],
            ) by {
                if i > 0 {
                    match relabeled(list.first(), key, text) {
                        Some(_) => assert(after[i] == rest[i - 1]),
                        None => assert(after[i] == relabeled_of(rest, key, text)->Some_0[i - 1]),
                    }
                }
            }
        }
    }
}

} // verus!
