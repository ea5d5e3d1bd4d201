//! Identities of elements: keys carry over from the tree, numbers are handed
//! out one after the other, and none of them collide.

use vstd::prelude::*;

use crate::node::{DivProps, Tree};
use crate::render::{
    ElementTree, Identity, div_element, focus_numbers, focus_numbers_of, lemma_numbers_bounded,
    rendered, rendered_of, scroll_numbers, scroll_numbers_of,
};
use crate::tree::{keys, keys_of, texts, texts_of};
use crate::views::committable;

verus! {

/// The keys that elements are known by: each div before its children.
pub open spec fn element_keys(element: ElementTree) -> Seq<Seq<char>>
    decreases element,
{
    match element {
        ElementTree::Div { div, children } => match div.identity {
            Identity::Key(key) => seq![key] + element_keys_of(children),
            _ => element_keys_of(children),
        },
        ElementTree::Text { .. } => Seq::empty(),
    }
}

/// The keys that a list of elements is known by.
pub open spec fn element_keys_of(list: Seq<ElementTree>) -> Seq<Seq<char>>
    decreases list,
{
    if list.len() == 0 {
        Seq::empty()
    } else {
        element_keys(list.first()) + element_keys_of(list.drop_first())
    }
}

/// The numbers handed out for scrolling: each div after its children.
pub open spec fn element_scrolls(element: ElementTree) -> Seq<usize>
    decreases element,
{
    match element {
        ElementTree::Div { div, children } => match div.identity {
            Identity::Scroll(n) => element_scrolls_of(children).push(n),
            _ => element_scrolls_of(children),
        },
        ElementTree::Text { .. } => Seq::empty(),
    }
}

/// The numbers handed out for scrolling in a list of elements.
pub open spec fn element_scrolls_of(list: Seq<ElementTree>) -> Seq<usize>
    decreases list,
{
    if list.len() == 0 {
        Seq::empty()
    } else {
        element_scrolls(list.first()) + element_scrolls_of(list.drop_first())
    }
}

/// The numbers handed out for the focus: each div after its children.
pub open spec fn element_focuses(element: ElementTree) -> Seq<usize>
    decreases element,
{
    match element {
        ElementTree::Div { div, children } => match div.identity {
            Identity::Focus(n) => element_focuses_of(children).push(n),
            _ => element_focuses_of(children),
        },
        ElementTree::Text { .. } => Seq::empty(),
    }
}

/// The numbers handed out for the focus in a list of elements.
pub open spec fn element_focuses_of(list: Seq<ElementTree>) -> Seq<usize>
    decreases list,
{
    if list.len() == 0 {
        Seq::empty()
    } else {
        element_focuses(list.first()) + element_focuses_of(list.drop_first())
    }
}

/// The contents of the text elements, in order.
pub open spec fn element_texts(element: ElementTree) -> Seq<Seq<char>>
    decreases element,
{
    match element {
        ElementTree::Div { children, .. } => element_texts_of(children),
        ElementTree::Text { content, .. } => seq![content],
    }
}

/// The contents of the text elements in a list, in order.
pub open spec fn element_texts_of(list: Seq<ElementTree>) -> Seq<Seq<char>>
    decreases list,
{
    if list.len() == 0 {
        Seq::empty()
    } else {
        element_texts(list.first()) + element_texts_of(list.drop_first())
    }
}

/// `count` numbers from `start` on.
pub open spec fn numbers_from(start: nat, count: nat) -> Seq<usize> {
    Seq::new(count, |i: int| (start + i) as usize)
}

/// Every key of the tree becomes the identity of an element, in the same order.
pub proof fn law_keys_become_identities(tree: Tree, fill: bool, scroll: nat, focus: nat)
    ensures
        element_keys(rendered(tree, fill, scroll, focus)) == keys(tree),
    decreases tree,
{
    if let Tree::Div { children, .. } = tree {
        lemma_keys_become_identities_of(children, scroll, focus);
    }
}

proof fn lemma_keys_become_identities_of(list: Seq<Tree>, scroll: nat, focus: nat)
    ensures
        element_keys_of(rendered_of(list, scroll, focus)) == keys_of(list),
    decreases list,
{
    if list.len() > 0 {
        let first = list.first();
        let (s, f) = (scroll + scroll_numbers(first), focus + focus_numbers(first));
        law_keys_become_identities(first, false, scroll, focus);
        lemma_keys_become_identities_of(list.drop_first(), s, f);
        assert(rendered_of(list, scroll, focus).drop_first() =~= rendered_of(
            list.drop_first(),
            s,
            f,
        ));
    }
}

/// The texts of a tree are rendered unchanged and in the same order.
pub proof fn law_texts_flow_through(tree: Tree, fill: bool, scroll: nat, focus: nat)
    ensures
        element_texts(rendered(tree, fill, scroll, focus)) == texts(tree),
    decreases tree,
{
    if let Tree::Div { children, .. } = tree {
        lemma_texts_flow_through_of(children, scroll, focus);
    }
}

proof fn lemma_texts_flow_through_of(list: Seq<Tree>, scroll: nat, focus: nat)
    ensures
        element_texts_of(rendered_of(list, scroll, focus)) == texts_of(list),
    decreases list,
{
    if list.len() > 0 {
        let first = list.first();
        let (s, f) = (scroll + scroll_numbers(first), focus + focus_numbers(first));
        law_texts_flow_through(first, false, scroll, focus);
        lemma_texts_flow_through_of(list.drop_first(), s, f);
        assert(rendered_of(list, scroll, focus).drop_first() =~= rendered_of(
            list.drop_first(),
            s,
            f,
        ));
    }
}

/// The numbers for scrolling and those for the focus are handed out one after
/// the other, with no gap and no repetition.
pub proof fn law_numbers_in_sequence(tree: Tree, fill: bool, scroll: nat, focus: nat)
    ensures
        element_scrolls(rendered(tree, fill, scroll, focus)) == numbers_from(
            scroll,
            scroll_numbers(tree),
        ),
        element_focuses(rendered(tree, fill, scroll, focus)) == numbers_from(
            focus,
            focus_numbers(tree),
        ),
    decreases tree,
{
    if let Tree::Div { props, children } = tree {
        lemma_numbers_in_sequence_of(children, scroll, focus);
        assert(numbers_from(scroll, scroll_numbers_of(children)).push(
            (scroll + scroll_numbers_of(children)) as usize,
        ) =~= numbers_from(scroll, scroll_numbers_of(children) + 1));
        assert(numbers_from(focus, focus_numbers_of(children)).push(
            (focus + focus_numbers_of(children)) as usize,
        ) =~= numbers_from(focus, focus_numbers_of(children) + 1));
    } else {
        assert(numbers_from(scroll, 0) =~= Seq::empty());
        assert(numbers_from(focus, 0) =~= Seq::empty());
    }
}

proof fn lemma_numbers_in_sequence_of(list: Seq<Tree>, scroll: nat, focus: nat)
    ensures
        element_scrolls_of(rendered_of(list, scroll, focus)) == numbers_from(
            scroll,
            scroll_numbers_of(list),
        ),
        element_focuses_of(rendered_of(list, scroll, focus)) == numbers_from(
            focus,
            focus_numbers_of(list),
        ),
    decreases list,
{
    if list.len() > 0 {
        let first = list.first();
        let rest = list.drop_first();
        let (s, f) = (scroll + scroll_numbers(first), focus + focus_numbers(first));
        law_numbers_in_sequence(first, false, scroll, focus);
        lemma_numbers_in_sequence_of(rest, s, f);
        assert(rendered_of(list, scroll, focus).drop_first() =~= rendered_of(rest, s, f));
        assert(numbers_from(scroll, scroll_numbers(first)) + numbers_from(
            s,
            scroll_numbers_of(rest),
        ) =~= numbers_from(scroll, scroll_numbers_of(list)));
        assert(numbers_from(focus, focus_numbers(first)) + numbers_from(f, focus_numbers_of(rest))
            =~= numbers_from(focus, focus_numbers_of(list)));
    } else {
        assert(numbers_from(scroll, 0) =~= Seq::empty());
        assert(numbers_from(focus, 0) =~= Seq::empty());
    }
}

/// In the rendering of a tree that may be committed no two elements are known
/// by the same key, none by the same number for scrolling and none by the same
/// number for the focus.
pub proof fn law_identities_never_collide(tree: Tree)
    requires
        committable(tree),
    ensures
        element_keys(rendered(tree, true, 0, 0)).no_duplicates(),
        element_scrolls(rendered(tree, true, 0, 0)).no_duplicates(),
        element_focuses(rendered(tree, true, 0, 0)).no_duplicates(),
{
    law_keys_become_identities(tree, true, 0, 0);
    law_numbers_in_sequence(tree, true, 0, 0);
    lemma_numbers_bounded(tree);
}

/// Whatever else changes from one render to the next, a div with a key keeps
/// the identity of its key.
pub proof fn law_key_is_identity(
    p: DivProps<Seq<char>>,
    fill: bool,
    scroll: nat,
    focus: nat,
    key: Seq<char>,
)
    ensures
        div_element(p, fill, scroll, focus).identity == Identity::Key(key) <==> p.key == Some(key),
{
}

} // verus!
