//! Trees seen by paths: a path goes from the root down, one child index per
//! level. What the keys of a tree are for, said of every place in it.

use vstd::prelude::*;

use crate::labels::{law_relabel_needs_label, law_relabel_reads_back};
use crate::node::Tree;
use crate::tree::{
    first_text, keys, keys_of, label, label_of, lemma_first_text, lemma_relabeled_of_at,
    lemma_relabeled_of_none, relabeled,
};

verus! {

/// The node at the end of a path.
pub open spec fn node_at(tree: Tree, path: Seq<int>) -> Option<Tree>
    decreases path.len(),
{
    if path.len() == 0 {
        Some(tree)
    } else {
        match tree {
            Tree::Div { children, .. } => if 0 <= path.first() < children.len() {
                node_at(children[path.first()], path.drop_first())
            } else {
                None
            },
            Tree::Text { .. } => None,
        }
    }
}

/// Whether the node at the end of a path is a div with this key.
pub open spec fn carries(tree: Tree, path: Seq<int>, key: Seq<char>) -> bool {
    node_at(tree, path) matches Some(Tree::Div { props, .. }) && props.key == Some(key)
}

/// No two places of a tree carry the same key.
pub open spec fn distinct_keys(tree: Tree) -> bool {
    forall|p: Seq<int>, q: Seq<int>, key: Seq<char>|
        #[trigger] carries(tree, p, key) && #[trigger] carries(tree, q, key) ==> p == q
}

/// Two nodes are alike apart from what is below them.
pub open spec fn alike(a: Option<Tree>, b: Option<Tree>) -> bool {
    match (a, b) {
        (
            Some(Tree::Div { props, children }),
            Some(Tree::Div { props: other, children: others }),
        ) => props == other && children.len() == others.len(),
        (Some(Tree::Text { .. }), Some(Tree::Text { .. })) => a == b,
        (None, None) => true,
        _ => false,
    }
}

proof fn lemma_step_down(tree: Tree, c: int, path: Seq<int>)
    requires
        tree is Div,
        0 <= c < tree->children.len(),
    ensures
        node_at(tree, seq![c] + path) == node_at(tree->children[c], path),
{
    assert((seq![c] + path).drop_first() =~= path);
}

proof fn lemma_child_distinct(tree: Tree, c: int)
    requires
        distinct_keys(tree),
        tree is Div,
        0 <= c < tree->children.len(),
    ensures
        distinct_keys(tree->children[c]),
{
    let child = tree->children[c];
    assert forall|p: Seq<int>, q: Seq<int>, key: Seq<char>| #[trigger]
        carries(child, p, key) && #[trigger] carries(child, q, key) implies p == q by {
        lemma_step_down(tree, c, p);
        lemma_step_down(tree, c, q);
        assert(carries(tree, seq![c] + p, key) && carries(tree, seq![c] + q, key));
        assert((seq![c] + p).drop_first() =~= p);
        assert((seq![c] + q).drop_first() =~= q);
    }
}

/// A key that no div with a text among its children carries is not found, and
/// nothing is replaced.
pub proof fn law_update_needs_a_place(tree: Tree, key: Seq<char>, text: Seq<char>)
    requires
        forall|p: Seq<int>, i: int|
            #[trigger] carries(tree, p, key) && 0 <= i < node_at(tree, p)->Some_0->children.len()
                ==> #[trigger] node_at(tree, p)->Some_0->children[i] is Div,
    ensures
        label(tree, key) is None,
        relabeled(tree, key, text) is None,
    decreases tree,
{
    if let Tree::Div { props, children } = tree {
        let here = Seq::<int>::empty();
        assert(node_at(tree, here) == Some(tree));
        if props.key == Some(key) {
            assert(carries(tree, here, key));
            lemma_first_text(children);
            if first_text(children) is Some {
                let i = first_text(children)->Some_0;
                assert(node_at(tree, here)->Some_0->children[i] is Div);
            }
        } else {
            assert forall|c: int| 0 <= c < children.len() implies relabeled(
                #[trigger] children[c],
                key,
                text,
            ) is None by {
                let child = children[c];
                assert forall|p: Seq<int>, i: int| #[trigger]
                    carries(child, p, key) && 0 <= i < node_at(
                        child,
                        p,
                    )->Some_0->children.len() implies #[trigger] node_at(
                    child,
                    p,
                )->Some_0->children[i] is Div by {
                    lemma_step_down(tree, c, p);
                    assert(carries(tree, seq![c] + p, key));
                    assert(node_at(tree, seq![c] + p)->Some_0->children[i] is Div);
                }
                law_update_needs_a_place(child, key, text);
            }
            lemma_relabeled_of_none(children, key, text);
        }
    }
    law_relabel_needs_label(tree, key, text);
}

/// In a tree with distinct keys every div that carries a key and has a text
/// among its children is found, wherever it is and whatever else is set on it
/// or above it: the first text among its children gets the new content, with its
/// color and size kept, and every other place of the tree is as it was.
pub proof fn law_update_finds_every_place(
    tree: Tree,
    path: Seq<int>,
    key: Seq<char>,
    i: int,
    text: Seq<char>,
)
    requires
        distinct_keys(tree),
        carries(tree, path, key),
        0 <= i < node_at(tree, path)->Some_0->children.len(),
        node_at(tree, path)->Some_0->children[i] is Text,
        forall|j: int| 0 <= j < i ==> #[trigger] node_at(tree, path)->Some_0->children[j] is Div,
    ensures
        node_at(tree, path.push(i)) matches Some(Tree::Text { content, color, size }) && {
            &&& label(tree, key) == Some(content)
            &&& relabeled(tree, key, text) matches Some(after)
            &&& node_at(after, path.push(i)) == Some(Tree::Text { content: text, color, size })
            &&& forall|q: Seq<int>|
                q != path.push(i) ==> alike(#[trigger] node_at(after, q), node_at(tree, q))
        },
    decreases path.len(),
{
    let children = tree->children;
    if path.len() == 0 {
        lemma_first_text(children);
        assert(first_text(children) == Some(i)) by {
            assert(node_at(tree, path)->Some_0->children[i] is Text);
            if let Some(k) = first_text(children) {
                if k < i {
                    assert(node_at(tree, path)->Some_0->children[k] is Div);
                }
            }
        }
        let after = relabeled(tree, key, text)->Some_0;
        let list = after->children;
        assert(path.push(i).drop_first() =~= Seq::empty());
        assert(node_at(tree, path.push(i)) == Some(children[i])) by {
            assert(node_at(children[i], Seq::empty()) == Some(children[i]));
        }
        assert(node_at(after, path.push(i)) == Some(list[i])) by {
            assert(node_at(list[i], Seq::empty()) == Some(list[i]));
        }
        assert forall|q: Seq<int>| q != path.push(i) implies alike(
            #[trigger] node_at(after, q),
            node_at(tree, q),
        ) by {
            if q.len() > 0 && 0 <= q.first() < children.len() {
                if q.first() == i {
                    assert(q.drop_first().len() > 0) by {
                        if q.len() == 1 {
                            assert(q =~= path.push(i));
                        }
                    }
                    assert(node_at(list[i], q.drop_first()) is None);
                    assert(node_at(children[i], q.drop_first()) is None);
                } else {
                    assert(list[q.first()] == children[q.first()]);
                    lemma_alike_self(node_at(children[q.first()], q.drop_first()));
                }
            }
        }
    } else {
        let c = path.first();
        let rest = path.drop_first();
        let child = children[c];
        assert(path =~= seq![c] + rest);
        assert(tree->props.key != Some(key)) by {
            let here = Seq::<int>::empty();
            if tree->props.key == Some(key) {
                assert(node_at(tree, here) == Some(tree));
                assert(carries(tree, here, key));
                assert(here == path);
            }
        }
        lemma_child_distinct(tree, c);
        assert(carries(child, rest, key));
        assert forall|j: int| 0 <= j < i implies #[trigger] node_at(
            child,
            rest,
        )->Some_0->children[j] is Div by {
            assert(node_at(tree, path)->Some_0->children[j] is Div);
        }
        law_update_finds_every_place(child, rest, key, i, text);
        assert forall|d: int| 0 <= d < c implies relabeled(#[trigger] children[d], key, text)
            is None by {
            lemma_not_in_sibling(tree, path, d, key);
            law_update_needs_a_place(children[d], key, text);
        }
        lemma_relabeled_of_at(children, key, text, c);
        let new_child = relabeled(child, key, text)->Some_0;
        let after = relabeled(tree, key, text)->Some_0;
        let list = after->children;
        assert(list == children.update(c, new_child));
        assert(label(tree, key) == label(child, key)) by {
            law_relabel_reads_back(tree, key, text, key);
            lemma_label_of_at(children, key, text, c);
        }
        assert(path.push(i).drop_first() =~= rest.push(i));
        assert(path.push(i).first() == c);
        assert forall|q: Seq<int>| q != path.push(i) implies alike(
            #[trigger] node_at(after, q),
            node_at(tree, q),
        ) by {
            if q.len() > 0 && 0 <= q.first() < children.len() {
                if q.first() == c {
                    assert(q =~= seq![c] + q.drop_first());
                    assert(q.drop_first() != rest.push(i)) by {
                        if q.drop_first() == rest.push(i) {
                            assert(q =~= path.push(i));
                        }
                    }
                    assert(alike(
                        node_at(new_child, q.drop_first()),
                        node_at(child, q.drop_first()),
                    ));
                } else {
                    lemma_alike_self(node_at(children[q.first()], q.drop_first()));
                }
            }
        }
    }
}

proof fn lemma_alike_self(a: Option<Tree>)
    ensures
        alike(a, a),
{
}

/// A key carried below one child is not carried below another.
proof fn lemma_not_in_sibling(tree: Tree, path: Seq<int>, d: int, key: Seq<char>)
    requires
        distinct_keys(tree),
        carries(tree, path, key),
        path.len() > 0,
        tree is Div,
        0 <= d < tree->children.len(),
        d != path.first(),
    ensures
        forall|p: Seq<int>| !#[trigger] carries(tree->children[d], p, key),
{
    assert forall|p: Seq<int>| !#[trigger] carries(tree->children[d], p, key) by {
        if carries(tree->children[d], p, key) {
            lemma_step_down(tree, d, p);
            assert(carries(tree, seq![d] + p, key));
            assert((seq![d] + p).first() == d);
        }
    }
}

proof fn lemma_label_of_at(list: Seq<Tree>, key: Seq<char>, text: Seq<char>, c: int)
    requires
        0 <= c < list.len(),
        forall|d: int| 0 <= d < c ==> relabeled(#[trigger] list[d], key, text) is None,
        relabeled(list[c], key, text) is Some,
    ensures
        label_of(list, key) == label(list[c], key),
    decreases c,
{
    if c == 0 {
        law_relabel_needs_label(list[0], key, text);
    } else {
        assert(relabeled(list[0], key, text) is None);
        law_relabel_needs_label(list[0], key, text);
        let rest = list.drop_first();
        assert forall|d: int| 0 <= d < c - 1 implies relabeled(#[trigger] rest[d], key, text)
            is None by {
            assert(rest[d] == list[d + 1]);
        }
        lemma_label_of_at(rest, key, text, c - 1);
    }
}

/// Whether a key is carried at a place below one of a list of trees.
spec fn list_carries(list: Seq<Tree>, c: int, path: Seq<int>, key: Seq<char>) -> bool {
    0 <= c < list.len() && carries(list[c], path, key)
}

/// No two places below a list of trees carry the same key.
spec fn list_distinct(list: Seq<Tree>) -> bool {
    forall|c: int, p: Seq<int>, d: int, q: Seq<int>, key: Seq<char>|
        #[trigger] list_carries(list, c, p, key) && #[trigger] list_carries(list, d, q, key)
            ==> c == d && p == q
}

proof fn lemma_carries_split(tree: Tree, path: Seq<int>, key: Seq<char>)
    requires
        tree is Div,
    ensures
        carries(tree, path, key) <==> if path.len() == 0 {
            tree->props.key == Some(key)
        } else {
            list_carries(tree->children, path.first(), path.drop_first(), key)
        },
{
}

proof fn lemma_list_shift(list: Seq<Tree>, c: int, path: Seq<int>, key: Seq<char>)
    requires
        list.len() > 0,
    ensures
        list_carries(list, c, path, key) <==> if c == 0 {
            carries(list.first(), path, key)
        } else {
            list_carries(list.drop_first(), c - 1, path, key)
        },
{
}

/// The keys of a tree are those that some place of it carries.
pub proof fn law_keys_have_places(tree: Tree, key: Seq<char>)
    ensures
        keys(tree).contains(key) <==> exists|p: Seq<int>| #[trigger] carries(tree, p, key),
    decreases tree,
{
    match tree {
        Tree::Div { props, children } => {
            let here = Seq::<int>::empty();
            lemma_keys_have_places_of(children, key);
            lemma_carries_split(tree, here, key);
            let below = keys_of(children);
            if keys(tree).contains(key) {
                let n = choose|n: int| 0 <= n < keys(tree).len() && keys(tree)[n] == key;
                if props.key != Some(key) {
                    assert(below.contains(key)) by {
                        if props.key is Some {
                            assert(below[n - 1] == key);
                        }
                    }
                    let (c, p) = choose|c: int, p: Seq<int>| list_carries(children, c, p, key);
                    let path = seq![c] + p;
                    assert(path.drop_first() =~= p);
                    lemma_carries_split(tree, path, key);
                    assert(carries(tree, path, key));
                } else {
                    assert(carries(tree, here, key));
                }
            }
            if exists|p: Seq<int>| #[trigger] carries(tree, p, key) {
                let p = choose|p: Seq<int>| #[trigger] carries(tree, p, key);
                lemma_carries_split(tree, p, key);
                if p.len() == 0 {
                    assert(keys(tree)[0] == key);
                } else {
                    assert(list_carries(children, p.first(), p.drop_first(), key));
                    let n = choose|n: int| 0 <= n < below.len() && below[n] == key;
                    if props.key is Some {
                        assert(keys(tree)[n + 1] == key);
                    } else {
                        assert(keys(tree)[n] == key);
                    }
                }
            }
        },
        Tree::Text { .. } => {
            assert forall|p: Seq<int>| !#[trigger] carries(tree, p, key) by {}
        },
    }
}

proof fn lemma_keys_have_places_of(list: Seq<Tree>, key: Seq<char>)
    ensures
        keys_of(list).contains(key) <==> exists|c: int, p: Seq<int>|
            #[trigger] list_carries(list, c, p, key),
    decreases list,
{
    if list.len() > 0 {
        let (first, rest) = (list.first(), list.drop_first());
        let (a, b) = (keys(first), keys_of(rest));
        law_keys_have_places(first, key);
        lemma_keys_have_places_of(rest, key);
        if keys_of(list).contains(key) {
            let n = choose|n: int| 0 <= n < (a + b).len() && (a + b)[n] == key;
            if n < a.len() {
                assert(a[n] == key);
                let p = choose|p: Seq<int>| #[trigger] carries(first, p, key);
                assert(list_carries(list, 0, p, key));
            } else {
                assert(b[n - a.len()] == key);
                let (c, p) = choose|c: int, p: Seq<int>| list_carries(rest, c, p, key);
                lemma_list_shift(list, c + 1, p, key);
                assert(list_carries(list, c + 1, p, key));
            }
        }
        if exists|c: int, p: Seq<int>| #[trigger] list_carries(list, c, p, key) {
            let (c, p) = choose|c: int, p: Seq<int>| list_carries(list, c, p, key);
            lemma_list_shift(list, c, p, key);
            if c == 0 {
                assert(carries(first, p, key));
                let n = choose|n: int| 0 <= n < a.len() && a[n] == key;
                assert((a + b)[n] == key);
            } else {
                assert(list_carries(rest, c - 1, p, key));
                let n = choose|n: int| 0 <= n < b.len() && b[n] == key;
                assert((a + b)[a.len() + n] == key);
            }
        }
    } else {
        assert forall|c: int, p: Seq<int>| !#[trigger] list_carries(list, c, p, key) by {}
    }
}

/// Lists put together repeat nothing exactly when neither does and they share
/// nothing.
proof fn lemma_concat_no_duplicates(a: Seq<Seq<char>>, b: Seq<Seq<char>>)
    ensures
        (a + b).no_duplicates() <==> a.no_duplicates() && b.no_duplicates() && forall|k: Seq<char>|
            !(#[trigger] a.contains(k) && b.contains(k)),
{
    let all = a + b;
    let n = a.len() as int;
    if all.no_duplicates() {
        assert forall|i: int, j: int| 0 <= i < a.len() && 0 <= j < a.len() && i != j implies a[i]
            != a[j] by {
            assert(all[i] == a[i] && all[j] == a[j]);
        }
        assert forall|i: int, j: int| 0 <= i < b.len() && 0 <= j < b.len() && i != j implies b[i]
            != b[j] by {
            assert(all[n + i] == b[i] && all[n + j] == b[j]);
        }
        assert forall|k: Seq<char>| !(#[trigger] a.contains(k) && b.contains(k)) by {
            if a.contains(k) && b.contains(k) {
                let i = choose|i: int| 0 <= i < a.len() && a[i] == k;
                let j = choose|j: int| 0 <= j < b.len() && b[j] == k;
                assert(all[i] == k && all[n + j] == k);
            }
        }
    }
    if a.no_duplicates() && b.no_duplicates() && forall|k: Seq<char>|
        !(#[trigger] a.contains(k) && b.contains(k)) {
        assert forall|i: int, j: int| 0 <= i < all.len() && 0 <= j < all.len() && i != j implies all[i]
            != all[j] by {
            if i < n && j >= n {
                assert(a.contains(a[i]));
                assert(b[j - n] == all[j]);
            } else if j < n && i >= n {
                assert(a.contains(a[j]));
                assert(b[i - n] == all[i]);
            }
        }
    }
}

/// A tree repeats no key exactly when no two of its places carry the same one.
pub proof fn law_keys_distinct_by_place(tree: Tree)
    ensures
        keys(tree).no_duplicates() <==> distinct_keys(tree),
    decreases tree,
{
    match tree {
        Tree::Div { props, children } => {
            let below = keys_of(children);
            let here = Seq::<int>::empty();
            lemma_keys_distinct_by_place_of(children);
            assert(node_at(tree, here) == Some(tree));
            let own = match props.key {
                Some(key) => seq![key],
                None => Seq::empty(),
            };
            assert(keys(tree) =~= own + below);
            lemma_concat_no_duplicates(own, below);
            if distinct_keys(tree) {
                assert forall|c: int, p: Seq<int>, d: int, q: Seq<int>, key: Seq<char>| #[trigger]
                    list_carries(children, c, p, key) && #[trigger] list_carries(
                        children,
                        d,
                        q,
                        key,
                    ) implies c == d && p == q by {
                    lemma_step_down(tree, c, p);
                    lemma_step_down(tree, d, q);
                    let (one, two) = (seq![c] + p, seq![d] + q);
                    assert(carries(tree, one, key) && carries(tree, two, key));
                    assert(one.first() == c && two.first() == d);
                    assert(one.drop_first() =~= p);
                    assert(two.drop_first() =~= q);
                }
                assert forall|k: Seq<char>| !(#[trigger] own.contains(k) && below.contains(k)) by {
                    if own.contains(k) && below.contains(k) {
                        lemma_keys_have_places_of(children, k);
                        let (c, p) = choose|c: int, p: Seq<int>| list_carries(children, c, p, k);
                        lemma_step_down(tree, c, p);
                        assert(carries(tree, seq![c] + p, k));
                        assert(carries(tree, here, k));
                        assert(here.len() != (seq![c] + p).len());
                    }
                }
            }
            if keys(tree).no_duplicates() {
                assert forall|p: Seq<int>, q: Seq<int>, key: Seq<char>| #[trigger]
                    carries(tree, p, key) && #[trigger] carries(tree, q, key) implies p == q by {
                    lemma_carries_split(tree, p, key);
                    lemma_carries_split(tree, q, key);
                    lemma_keys_have_places_of(children, key);
                    if p.len() == 0 && q.len() == 0 {
                        assert(p =~= q);
                    } else if p.len() > 0 && q.len() > 0 {
                        assert(list_carries(children, p.first(), p.drop_first(), key));
                        assert(list_carries(children, q.first(), q.drop_first(), key));
                        assert(p =~= seq![p.first()] + p.drop_first());
                        assert(q =~= seq![q.first()] + q.drop_first());
                    } else {
                        assert(own[0] == key);
                        assert(own.contains(key));
                        if p.len() > 0 {
                            assert(list_carries(children, p.first(), p.drop_first(), key));
                        } else {
                            assert(list_carries(children, q.first(), q.drop_first(), key));
                        }
                        assert(below.contains(key));
                    }
                }
            }
        },
        Tree::Text { .. } => {
            assert forall|p: Seq<int>, q: Seq<int>, key: Seq<char>| #[trigger]
                carries(tree, p, key) && #[trigger] carries(tree, q, key) implies p == q by {}
        },
    }
}

proof fn lemma_keys_distinct_by_place_of(list: Seq<Tree>)
    ensures
        keys_of(list).no_duplicates() <==> list_distinct(list),
    decreases list,
{
    if list.len() > 0 {
        let (first, rest) = (list.first(), list.drop_first());
        let (a, b) = (keys(first), keys_of(rest));
        law_keys_distinct_by_place(first);
        lemma_keys_distinct_by_place_of(rest);
        lemma_concat_no_duplicates(a, b);
        if list_distinct(list) {
            assert forall|p: Seq<int>, q: Seq<int>, key: Seq<char>| #[trigger]
                carries(first, p, key) && #[trigger] carries(first, q, key) implies p == q by {
                assert(list_carries(list, 0, p, key) && list_carries(list, 0, q, key));
            }
            assert forall|c: int, p: Seq<int>, d: int, q: Seq<int>, key: Seq<char>| #[trigger]
                list_carries(rest, c, p, key) && #[trigger] list_carries(
                    rest,
                    d,
                    q,
                    key,
                ) implies c == d && p == q by {
                lemma_list_shift(list, c + 1, p, key);
                lemma_list_shift(list, d + 1, q, key);
                assert(list_carries(list, c + 1, p, key) && list_carries(list, d + 1, q, key));
            }
            assert forall|k: Seq<char>| !(#[trigger] a.contains(k) && b.contains(k)) by {
                if a.contains(k) && b.contains(k) {
                    law_keys_have_places(first, k);
                    lemma_keys_have_places_of(rest, k);
                    let p = choose|p: Seq<int>| #[trigger] carries(first, p, k);
                    let (d, q) = choose|d: int, q: Seq<int>| list_carries(rest, d, q, k);
                    lemma_list_shift(list, d + 1, q, k);
                    assert(list_carries(list, 0, p, k) && list_carries(list, d + 1, q, k));
                }
            }
        }
        if keys_of(list).no_duplicates() {
            assert forall|c: int, p: Seq<int>, d: int, q: Seq<int>, key: Seq<char>| #[trigger]
                list_carries(list, c, p, key) && #[trigger] list_carries(
                    list,
                    d,
                    q,
                    key,
                ) implies c == d && p == q by {
                lemma_list_shift(list, c, p, key);
                lemma_list_shift(list, d, q, key);
                law_keys_have_places(first, key);
                lemma_keys_have_places_of(rest, key);
                if c == 0 && d == 0 {
                    assert(carries(first, p, key) && carries(first, q, key));
                } else if c > 0 && d > 0 {
                    assert(list_carries(rest, c - 1, p, key) && list_carries(rest, d - 1, q, key));
                } else if c == 0 {
                    assert(carries(first, p, key) && list_carries(rest, d - 1, q, key));
                    assert(a.contains(key) && b.contains(key));
                } else {
                    assert(carries(first, q, key) && list_carries(rest, c - 1, p, key));
                    assert(a.contains(key) && b.contains(key));
                }
            }
        }
    }
}

} // verus!
