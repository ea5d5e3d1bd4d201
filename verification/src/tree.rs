//! What a committed tree says: its keys, its texts, the text under a key.

use vstd::prelude::*;
use vstd::hash_set::StringHashSet;
use vstd::string::*;
use vstd::utf8::*;

use crate::node::{Tree, UiNode, lemma_div_tree, trees};
use crate::reader::{low_u32, push_u32, u32_bytes};
use crate::text::{append_bytes, str_eq};

verus! {

/// The number of nodes in a tree.
pub open spec fn node_count(tree: Tree) -> nat
    decreases tree,
{
    match tree {
        Tree::Div { children, .. } => 1 + node_count_of(children),
        Tree::Text { .. } => 1,
    }
}

/// The number of nodes in a list of trees.
pub open spec fn node_count_of(list: Seq<Tree>) -> nat
    decreases list,
{
    if list.len() == 0 {
        0
    } else {
        node_count(list.first()) + node_count_of(list.drop_first())
    }
}

/// The keys in a tree: each div before its children, children in order.
pub open spec fn keys(tree: Tree) -> Seq<Seq<char>>
    decreases tree,
{
    match tree {
        Tree::Div { props, children } => match props.key {
            Some(key) => seq![key] + keys_of(children),
            None => keys_of(children),
        },
        Tree::Text { .. } => Seq::empty(),
    }
}

/// The keys in a list of trees.
pub open spec fn keys_of(list: Seq<Tree>) -> Seq<Seq<char>>
    decreases list,
{
    if list.len() == 0 {
        Seq::empty()
    } else {
        keys(list.first()) + keys_of(list.drop_first())
    }
}

/// The contents of the texts in a tree, in order.
pub open spec fn texts(tree: Tree) -> Seq<Seq<char>>
    decreases tree,
{
    match tree {
        Tree::Div { children, .. } => texts_of(children),
        Tree::Text { content, .. } => seq![content],
    }
}

/// The contents of the texts in a list of trees.
pub open spec fn texts_of(list: Seq<Tree>) -> Seq<Seq<char>>
    decreases list,
{
    if list.len() == 0 {
        Seq::empty()
    } else {
        texts(list.first()) + texts_of(list.drop_first())
    }
}

/// A text as it is dumped: the number of its UTF-8 bytes, then the bytes.
pub open spec fn record(content: Seq<char>) -> Seq<u8> {
    u32_bytes((encode_utf8(content).len() % 0x1_0000_0000) as u32) + encode_utf8(content)
}

/// Texts as they are dumped, one after the other.
pub open spec fn records(contents: Seq<Seq<char>>) -> Seq<u8>
    decreases contents.len(),
{
    if contents.len() == 0 {
        Seq::empty()
    } else {
        record(contents.first()) + records(contents.drop_first())
    }
}

/// The index of the first text in a list of trees.
pub open spec fn first_text(list: Seq<Tree>) -> Option<int>
    decreases list.len(),
{
    if list.len() == 0 {
        None
    } else if list.first() is Text {
        Some(0)
    } else {
        match first_text(list.drop_first()) {
            Some(i) => Some(i + 1),
            None => None,
        }
    }
}

/// The text with another content; its color and size are kept.
pub open spec fn retexted(tree: Tree, text: Seq<char>) -> Tree {
    match tree {
        Tree::Text { color, size, .. } => Tree::Text { content: text, color, size },
        Tree::Div { .. } => tree,
    }
}

/// The text under a key: the content of the first text among the children of
/// the first div that carries the key and has a text among its children. A div
/// that carries the key is not searched further down.
pub open spec fn label(tree: Tree, key: Seq<char>) -> Option<Seq<char>>
    decreases tree,
{
    match tree {
        Tree::Div { props, children } => if props.key == Some(key) {
            match first_text(children) {
                Some(i) => Some(children[i]->content),
                None => None,
            }
        } else {
            label_of(children, key)
        },
        Tree::Text { .. } => None,
    }
}

/// The text under a key in the first tree of a list that has one.
pub open spec fn label_of(list: Seq<Tree>, key: Seq<char>) -> Option<Seq<char>>
    decreases list,
{
    if list.len() == 0 {
        None
    } else {
        match label(list.first(), key) {
            Some(content) => Some(content),
            None => label_of(list.drop_first(), key),
        }
    }
}

/// The tree with the text under a key replaced; `None` when there is none.
pub open spec fn relabeled(tree: Tree, key: Seq<char>, text: Seq<char>) -> Option<Tree>
    decreases tree,
{
    match tree {
        Tree::Div { props, children } => if props.key == Some(key) {
            match first_text(children) {
                Some(i) => Some(
                    Tree::Div { props, children: children.update(i, retexted(children[i], text)) },
                ),
                None => None,
            }
        } else {
            match relabeled_of(children, key, text) {
                Some(children) => Some(Tree::Div { props, children }),
                None => None,
            }
        },
        Tree::Text { .. } => None,
    }
}

/// The list with the text under a key replaced in the first tree that has one.
pub open spec fn relabeled_of(list: Seq<Tree>, key: Seq<char>, text: Seq<char>) -> Option<Seq<Tree>>
    decreases list,
{
    if list.len() == 0 {
        None
    } else {
        match relabeled(list.first(), key, text) {
            Some(first) => Some(seq![first] + list.drop_first()),
            None => match relabeled_of(list.drop_first(), key, text) {
                Some(rest) => Some(seq![list.first()] + rest),
                None => None,
            },
        }
    }
}

/// The keys of the trees on a stack, from the top down.
spec fn pending_keys(stack: Seq<Tree>) -> Seq<Seq<char>>
    decreases stack.len(),
{
    if stack.len() == 0 {
        Seq::empty()
    } else {
        keys(stack.last()) + pending_keys(stack.drop_last())
    }
}

/// The number of nodes in the trees on a stack.
spec fn pending_count(stack: Seq<Tree>) -> nat
    decreases stack.len(),
{
    if stack.len() == 0 {
        0
    } else {
        node_count(stack.last()) + pending_count(stack.drop_last())
    }
}

/// The trees of borrowed nodes.
spec fn borrowed_trees(nodes: Seq<&UiNode>) -> Seq<Tree> {
    nodes.map_values(|n: &UiNode| n.tree())
}

/// Whether no key occurs twice in the tree of a node.
pub fn has_unique_keys(root: &UiNode) -> (unique: bool)
    ensures
        unique == keys(root.tree()).no_duplicates(),
{
    let mut seen = StringHashSet::new();
    let mut walk: Vec<&UiNode> = Vec::new();
    walk.push(root);
    let ghost mut done: Seq<Seq<char>> = Seq::empty();
    let ghost all = keys(root.tree());
    proof {
        assert(borrowed_trees(walk@) =~= seq![root.tree()]);
        reveal_with_fuel(pending_keys, 2);
        assert(seq![root.tree()].drop_last() =~= Seq::<Tree>::empty());
        assert(all =~= done + pending_keys(borrowed_trees(walk@)));
    }
    loop
        invariant
            all == keys(root.tree()),
            all == done + pending_keys(borrowed_trees(walk@)),
            done.no_duplicates(),
            forall|k: Seq<char>| #[trigger] seen@.contains(k) <==> done.contains(k),
        decreases pending_count(borrowed_trees(walk@)),
    {
        let ghost stack = borrowed_trees(walk@);
        match walk.pop() {
            None => {
                assert(all =~= done);
                return true;
            },
            Some(node) => {
                let ghost rest = borrowed_trees(walk@);
                assert(stack.drop_last() =~= rest);
                assert(stack.last() == node.tree());
                match node {
                    UiNode::Text { .. } => {
                        assert(all =~= done + pending_keys(rest));
                    },
                    UiNode::Div { props, children } => {
                        proof {
                            lemma_div_tree(*props, *children);
                        }
                        if let Some(key) = &props.key {
                            assert(all =~= done.push(key@) + (keys_of(trees(children@))
                                + pending_keys(rest)));
                            if seen.contains(key.as_str()) {
                                proof {
                                    assert(done.contains(key@));
                                    let i = choose|i: int| 0 <= i < done.len() && done[i] == key@;
                                    assert(all[i] == all[done.len() as int]);
                                }
                                return false;
                            }
                            seen.insert(key.clone());
                            proof {
                                assert forall|k: Seq<char>| seen@.contains(k) <==> done.push(
                                    key@,
                                ).contains(k) by {
                                    if done.contains(k) {
                                        let i = choose|i: int|
                                            0 <= i < done.len() && done[i] == k;
                                        assert(done.push(key@)[i] == k);
                                    }
                                    if k == key@ {
                                        assert(done.push(key@)[done.len() as int] == k);
                                    }
                                }
                                done = done.push(key@);
                            }
                        }
                        assert(all =~= done + (keys_of(trees(children@)) + pending_keys(rest)));
                        let mut i: usize = children.len();
                        let ghost list = trees(children@);
                        assert(list.skip(i as int) =~= Seq::<Tree>::empty());
                        assert(pending_keys(rest) =~= keys_of(list.skip(i as int)) + pending_keys(
                            rest,
                        ));
                        while i > 0
                            invariant
                                i <= children@.len(),
                                list == trees(children@),
                                pending_keys(borrowed_trees(walk@)) == keys_of(list.skip(i as int))
                                    + pending_keys(rest),
                                pending_count(borrowed_trees(walk@)) == node_count_of(
                                    list.skip(i as int),
                                ) + pending_count(rest),
                            decreases i,
                        {
                            let ghost before = borrowed_trees(walk@);
                            i -= 1;
                            walk.push(&children[i]);
                            proof {
                                let after = borrowed_trees(walk@);
                                assert(after =~= before.push(list[i as int]));
                                assert(after.drop_last() =~= before);
                                assert(list.skip(i as int).drop_first() =~= list.skip(i + 1));
                                assert(pending_keys(after) =~= keys_of(list.skip(i as int))
                                    + pending_keys(rest));
                            }
                        }
                        assert(list.skip(0) =~= list);
                    },
                }
            },
        }
    }
}

/// Dumping one list of texts after another is dumping them as one list.
pub proof fn lemma_records_concat(a: Seq<Seq<char>>, b: Seq<Seq<char>>)
    ensures
        records(a + b) == records(a) + records(b),
    decreases a.len(),
{
    if a.len() == 0 {
        assert(a + b =~= b);
    } else {
        assert((a + b).drop_first() =~= a.drop_first() + b);
        lemma_records_concat(a.drop_first(), b);
    }
    assert(records(a + b) =~= records(a) + records(b));
}

/// Appends every text of the tree to `out`, each as its length and its bytes.
pub fn collect_text_contents(node: &UiNode, out: &mut Vec<u8>)
    ensures
        final(out)@ == old(out)@ + records(texts(node.tree())),
    decreases node_count(node.tree()),
{
    match node {
        UiNode::Div { props, children } => {
            let ghost list = trees(children@);
            let mut i: usize = 0;
            proof {
                lemma_div_tree(*props, *children);
                assert(list.skip(0) =~= list);
            }
            while i < children.len()
                invariant
                    i <= children@.len(),
                    list == trees(children@),
                    node_count_of(list) < node_count(node.tree()),
                    old(out)@ + records(texts_of(list)) == out@ + records(
                        texts_of(list.skip(i as int)),
                    ),
                decreases children@.len() - i,
            {
                let ghost before = out@;
                proof {
                    lemma_node_count_member(list, i as int);
                }
                collect_text_contents(&children[i], out);
                proof {
                    let rest = list.skip(i as int);
                    assert(rest.drop_first() =~= list.skip(i + 1));
                    lemma_records_concat(texts(rest.first()), texts_of(rest.drop_first()));
                    assert(before + records(texts_of(rest)) =~= out@ + records(
                        texts_of(list.skip(i + 1)),
                    ));
                }
                i += 1;
            }
            assert(list.skip(i as int) =~= Seq::<Tree>::empty());
            assert(out@ =~= old(out)@ + records(texts_of(list)));
        },
        UiNode::Text { content, .. } => {
            let bytes = content.as_str().as_bytes();
            push_u32(out, low_u32(bytes.len()));
            append_bytes(out, bytes);
            proof {
                reveal_with_fuel(records, 2);
                let one = seq![content@];
                assert(one.drop_first() =~= Seq::<Seq<char>>::empty());
                assert(records(one) =~= record(content@));
                assert(out@ =~= old(out)@ + records(texts(node.tree())));
            }
        },
    }
}

/// Each tree of a list has at most as many nodes as the list.
pub proof fn lemma_node_count_member(list: Seq<Tree>, i: int)
    requires
        0 <= i < list.len(),
    ensures
        node_count(list[i]) <= node_count_of(list),
    decreases list.len(),
{
    if i > 0 {
        lemma_node_count_member(list.drop_first(), i - 1);
    }
}

/// Replacing in a list whose first `i` trees lack the key.
pub proof fn lemma_relabeled_of_at(list: Seq<Tree>, key: Seq<char>, text: Seq<char>, i: int)
    requires
        0 <= i < list.len(),
        forall|j: int| 0 <= j < i ==> relabeled(#[trigger] list[j], key, text) is None,
        relabeled(list[i], key, text) is Some,
    ensures
        relabeled_of(list, key, text) == Some(
            list.update(i, relabeled(list[i], key, text)->Some_0),
        ),
    decreases i,
{
    let tree = relabeled(list[i], key, text)->Some_0;
    if i == 0 {
        assert(seq![tree] + list.drop_first() =~= list.update(0, tree));
    } else {
        let rest = list.drop_first();
        assert forall|j: int| 0 <= j < i - 1 implies relabeled(
            #[trigger] rest[j],
            key,
            text,
        ) is None by {
            assert(rest[j] == list[j + 1]);
        }
        lemma_relabeled_of_at(rest, key, text, i - 1);
        assert(relabeled(list[0], key, text) is None);
        assert(seq![list.first()] + rest.update(i - 1, tree) =~= list.update(i, tree));
    }
}

/// Replacing in a list that lacks the key.
pub proof fn lemma_relabeled_of_none(list: Seq<Tree>, key: Seq<char>, text: Seq<char>)
    requires
        forall|j: int| 0 <= j < list.len() ==> relabeled(#[trigger] list[j], key, text) is None,
    ensures
        relabeled_of(list, key, text) is None,
    decreases list.len(),
{
    if list.len() > 0 {
        assert(relabeled(list[0], key, text) is None);
        let rest = list.drop_first();
        assert forall|j: int| 0 <= j < rest.len() implies relabeled(
            #[trigger] rest[j],
            key,
            text,
        ) is None by {
            assert(rest[j] == list[j + 1]);
        }
        lemma_relabeled_of_none(rest, key, text);
    }
}

/// The first text is a text, and only divs come before it; where there is none,
/// there are only divs.
pub proof fn lemma_first_text(list: Seq<Tree>)
    ensures
        match first_text(list) {
            Some(i) => {
                &&& 0 <= i < list.len()
                &&& list[i] is Text
                &&& forall|j: int| 0 <= j < i ==> #[trigger] list[j] is Div
            },
            None => forall|j: int| 0 <= j < list.len() ==> #[trigger] list[j] is Div,
        },
    decreases list.len(),
{
    if list.len() > 0 && list.first() is Div {
        let rest = list.drop_first();
        lemma_first_text(rest);
        let n = match first_text(rest) {
            Some(i) => i + 1,
            None => list.len() as int,
        };
        assert forall|j: int| 0 <= j < n implies #[trigger] list[j] is Div by {
            if j > 0 {
                assert(rest[j - 1] is Div);
            }
        }
    }
}

/// The index of the first text among nodes.
fn first_text_index(nodes: &Vec<UiNode>) -> (index: Option<usize>)
    ensures
        match first_text(trees(nodes@)) {
            Some(i) => index matches Some(r) && r == i,
            None => index is None,
        },
{
    let ghost list = trees(nodes@);
    proof {
        lemma_first_text(list);
    }
    let mut i: usize = 0;
    while i < nodes.len()
        invariant
            i <= nodes@.len(),
            list == trees(nodes@),
            forall|j: int| 0 <= j < i ==> #[trigger] list[j] is Div,
            match first_text(list) {
                Some(n) => 0 <= n < list.len() && list[n] is Text && forall|j: int|
                    0 <= j < n ==> #[trigger] list[j] is Div,
                None => forall|j: int| 0 <= j < list.len() ==> #[trigger] list[j] is Div,
            },
        decreases nodes@.len() - i,
    {
        assert(list[i as int] == nodes@[i as int].tree());
        match &nodes[i] {
            UiNode::Text { .. } => {
                return Some(i);
            },
            UiNode::Div { .. } => {},
        }
        i += 1;
    }
    None
}

/// Replaces the text under a key in place. Only the first text among the
/// children of the div that carries the key is touched.
pub fn update_keyed_text(node: &mut UiNode, key: &str, text: &str) -> (updated: bool)
    ensures
        match relabeled(old(node).tree(), key@, text@) {
            Some(tree) => updated && final(node).tree() == tree,
            None => !updated && final(node).tree() == old(node).tree(),
        },
    decreases node_count(old(node).tree()),
{
    match node {
        UiNode::Text { .. } => false,
        UiNode::Div { props, children } => {
            let ghost before = *children;
            proof {
                lemma_div_tree(*props, *children);
            }
            let here = match &props.key {
                Some(own) => str_eq(own.as_str(), key),
                None => false,
            };
            if here {
                let i = match first_text_index(children) {
                    Some(i) => i,
                    None => {
                        return false;
                    },
                };
                proof {
                    lemma_first_text(trees(before@));
                    assert(trees(before@)[i as int] == before@[i as int].tree());
                }
                if let UiNode::Text { content, .. } = &mut children[i] {
                    *content = text.to_owned();
                }
                proof {
                    lemma_div_tree(*props, *children);
                    assert(trees(children@) =~= trees(before@).update(
                        i as int,
                        children@[i as int].tree(),
                    ));
                }
                return true;
            }
            let ghost list = trees(before@);
            let mut i: usize = 0;
            #[verifier::loop_isolation(false)]
            while i < children.len()
                invariant
                    i <= children@.len(),
                    trees(children@) == list,
                    forall|j: int| 0 <= j < i ==> relabeled(#[trigger] list[j], key@, text@) is None,
                decreases list.len() - i,
            {
                proof {
                    lemma_node_count_member(list, i as int);
                }
                if update_keyed_text(&mut children[i], key, text) {
                    proof {
                        lemma_relabeled_of_at(list, key@, text@, i as int);
                        lemma_div_tree(*props, *children);
                        assert(trees(children@) =~= list.update(
                            i as int,
                            children@[i as int].tree(),
                        ));
                    }
                    return true;
                }
                assert(trees(children@) =~= list);
                i += 1;
            }
            proof {
                lemma_div_tree(*props, *children);
                lemma_relabeled_of_none(list, key@, text@);
            }
            false
        },
    }
}

} // verus!
