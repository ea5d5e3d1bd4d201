//! The elements that a committed tree is rendered as.
//!
//! An element has an identity when something about it outlives a render or
//! needs to be found again: its key if it has one, else the id that clicks on
//! it are routed to, else a number handed out for scrolling or for the focus.

use vstd::prelude::*;
use vstd::string::*;

use crate::abi::OVERFLOW_SCROLL;
use crate::node::{DivProps, Tree, UiNode, lemma_div_tree, trees};
use crate::reader::Float32;
use crate::style::{
    BoxStyle, LayoutStyle, TextStyle, box_style, box_style_of, layout_style, layout_style_of,
    pack_rgb, packed_rgb, text_style, text_style_of,
};
use crate::tree::{lemma_node_count_member, node_count, node_count_of};
use crate::views::{Views, tree_in};

verus! {

/// What an element is known by across renders.
#[derive(Debug)]
pub enum Identity<S> {
    /// Nothing.
    Anonymous,
    /// Its key.
    Key(S),
    /// The id that clicks on it are routed to.
    Click(i32),
    /// The number of a div that scrolls, within one render.
    Scroll(usize),
    /// The number of a div that takes the focus, within one render.
    Focus(usize),
}

/// Everything about a div element except its children.
#[derive(Debug)]
pub struct DivElement<S> {
    pub box_style: BoxStyle,
    pub layout: LayoutStyle,
    pub text: Option<TextStyle<S>>,
    pub identity: Identity<S>,
    /// Whether its scroll position is tracked.
    pub scrolls: bool,
    /// Whether it takes the focus.
    pub focusable: bool,
    pub tab_index: Option<isize>,
    pub tab_stop: Option<bool>,
    /// Where clicks are routed to.
    pub on_click: Option<i32>,
}

/// An element.
#[derive(Debug)]
pub enum Element {
    Div { div: DivElement<String>, children: Vec<Element> },
    /// A text, with its color as `0xRRGGBB`.
    Text { content: String, color: u32, size: Float32 },
}

/// The tree of elements that an element stands for.
pub enum ElementTree {
    Div { div: DivElement<Seq<char>>, children: Seq<ElementTree> },
    Text { content: Seq<char>, color: u32, size: Float32 },
}

impl Identity<String> {
    /// The identity with its key taken by its characters.
    pub open spec fn chars(self) -> Identity<Seq<char>> {
        match self {
            Identity::Anonymous => Identity::Anonymous,
            Identity::Key(key) => Identity::Key(key@),
            Identity::Click(id) => Identity::Click(id),
            Identity::Scroll(n) => Identity::Scroll(n),
            Identity::Focus(n) => Identity::Focus(n),
        }
    }
}

impl DivElement<String> {
    /// The element with each string taken by its characters.
    pub open spec fn chars(self) -> DivElement<Seq<char>> {
        DivElement {
            box_style: self.box_style,
            layout: self.layout,
            text: match self.text {
                Some(t) => Some(t.chars()),
                None => None,
            },
            identity: self.identity.chars(),
            scrolls: self.scrolls,
            focusable: self.focusable,
            tab_index: self.tab_index,
            tab_stop: self.tab_stop,
            on_click: self.on_click,
        }
    }
}

impl Element {
    /// The tree the element stands for.
    pub open spec fn tree(self) -> ElementTree
        decreases self,
    {
        match self {
            Element::Div { div, children } => ElementTree::Div {
                div: div.chars(),
                children: Seq::new(
                    children@.len(),
                    |i: int|
                        if 0 <= i < children@.len() {
                            children@[i].tree()
                        } else {
                            arbitrary()
                        },
                ),
            },
            Element::Text { content, color, size } => ElementTree::Text {
                content: content@,
                color,
                size,
            },
        }
    }
}

/// The trees that a list of elements stands for.
pub open spec fn element_trees(elements: Seq<Element>) -> Seq<ElementTree> {
    elements.map_values(|e: Element| e.tree())
}

/// Whether a div scrolls along either axis.
pub open spec fn scrolls<S>(p: DivProps<S>) -> bool {
    p.overflow matches Some((x, y)) && (x == OVERFLOW_SCROLL || y == OVERFLOW_SCROLL)
}

/// Whether a div takes the focus. A tab index or a tab stop implies it.
pub open spec fn takes_focus<S>(p: DivProps<S>) -> bool {
    p.focusable == Some(true) || p.tab_index is Some || p.tab_stop is Some
}

/// Whether a div is numbered for scrolling.
pub open spec fn takes_scroll_number<S>(p: DivProps<S>) -> bool {
    p.key is None && p.on_click is None && scrolls(p)
}

/// Whether a div is numbered for the focus.
pub open spec fn takes_focus_number<S>(p: DivProps<S>) -> bool {
    p.key is None && p.on_click is None && !scrolls(p) && takes_focus(p)
}

/// The identity of a div when `scroll` and `focus` are the next numbers.
pub open spec fn identity_of<S>(p: DivProps<S>, scroll: nat, focus: nat) -> Identity<S> {
    match (p.key, p.on_click) {
        (Some(key), _) => Identity::Key(key),
        (None, Some(id)) => Identity::Click(id),
        (None, None) => if scrolls(p) {
            Identity::Scroll(scroll as usize)
        } else if takes_focus(p) {
            Identity::Focus(focus as usize)
        } else {
            Identity::Anonymous
        },
    }
}

/// How many numbers a tree takes for scrolling.
pub open spec fn scroll_numbers(tree: Tree) -> nat
    decreases tree,
{
    match tree {
        Tree::Div { props, children } => scroll_numbers_of(children) + if takes_scroll_number(
            props,
        ) {
            1nat
        } else {
            0nat
        },
        Tree::Text { .. } => 0,
    }
}

/// How many numbers a list of trees takes for scrolling.
pub open spec fn scroll_numbers_of(list: Seq<Tree>) -> nat
    decreases list,
{
    if list.len() == 0 {
        0
    } else {
        scroll_numbers(list.first()) + scroll_numbers_of(list.drop_first())
    }
}

/// How many numbers a tree takes for the focus.
pub open spec fn focus_numbers(tree: Tree) -> nat
    decreases tree,
{
    match tree {
        Tree::Div { props, children } => focus_numbers_of(children) + if takes_focus_number(props) {
            1nat
        } else {
            0nat
        },
        Tree::Text { .. } => 0,
    }
}

/// How many numbers a list of trees takes for the focus.
pub open spec fn focus_numbers_of(list: Seq<Tree>) -> nat
    decreases list,
{
    if list.len() == 0 {
        0
    } else {
        focus_numbers(list.first()) + focus_numbers_of(list.drop_first())
    }
}

/// The div element for these props.
pub open spec fn div_element(
    p: DivProps<Seq<char>>,
    fill: bool,
    scroll: nat,
    focus: nat,
) -> DivElement<Seq<char>> {
    DivElement {
        box_style: box_style(p, fill),
        layout: layout_style(p),
        text: text_style(p),
        identity: identity_of(p, scroll, focus),
        scrolls: scrolls(p),
        focusable: takes_focus(p),
        tab_index: p.tab_index,
        tab_stop: p.tab_stop,
        on_click: p.on_click,
    }
}

/// The elements that a tree is rendered as when `scroll` and `focus` are the
/// next numbers. The numbers of the children come before that of the div. Only
/// the outermost div fills the space there is.
pub open spec fn rendered(tree: Tree, fill: bool, scroll: nat, focus: nat) -> ElementTree
    decreases tree,
{
    match tree {
        Tree::Div { props, children } => ElementTree::Div {
            div: div_element(
                props,
                fill,
                scroll + scroll_numbers_of(children),
                focus + focus_numbers_of(children),
            ),
            children: rendered_of(children, scroll, focus),
        },
        Tree::Text { content, color, size } => ElementTree::Text {
            content,
            color: packed_rgb(color),
            size,
        },
    }
}

/// The elements that a list of trees is rendered as.
pub open spec fn rendered_of(list: Seq<Tree>, scroll: nat, focus: nat) -> Seq<ElementTree>
    decreases list,
{
    if list.len() == 0 {
        Seq::empty()
    } else {
        seq![rendered(list.first(), false, scroll, focus)] + rendered_of(
            list.drop_first(),
            scroll + scroll_numbers(list.first()),
            focus + focus_numbers(list.first()),
        )
    }
}

/// A tree takes at most one number per node.
pub proof fn lemma_numbers_bounded(tree: Tree)
    ensures
        scroll_numbers(tree) + focus_numbers(tree) <= node_count(tree),
    decreases tree,
{
    if let Tree::Div { children, .. } = tree {
        lemma_numbers_bounded_of(children);
    }
}

proof fn lemma_numbers_bounded_of(list: Seq<Tree>)
    ensures
        scroll_numbers_of(list) + focus_numbers_of(list) <= node_count_of(list),
    decreases list,
{
    if list.len() > 0 {
        lemma_numbers_bounded(list.first());
        lemma_numbers_bounded_of(list.drop_first());
    }
}

/// The next numbers to hand out during a render.
#[derive(Clone, Copy, Debug, PartialEq, Eq, Structural)]
pub struct Numbers {
    pub scroll: usize,
    pub focus: usize,
}

/// Whether a div scrolls along either axis.
fn is_scrolling(p: &DivProps<String>) -> (r: bool)
    ensures
        r == scrolls(p.chars()),
{
    match p.overflow {
        Some((x, y)) => x == OVERFLOW_SCROLL || y == OVERFLOW_SCROLL,
        None => false,
    }
}

/// Whether a div takes the focus.
fn is_focusable(p: &DivProps<String>) -> (r: bool)
    ensures
        r == takes_focus(p.chars()),
{
    let asked = match p.focusable {
        Some(mode) => mode,
        None => false,
    };
    asked || p.tab_index.is_some() || p.tab_stop.is_some()
}

/// The identity of a div. A number is handed out if the div needs one.
fn take_identity(p: &DivProps<String>, numbers: &mut Numbers) -> (identity: Identity<String>)
    requires
        old(numbers).scroll < usize::MAX,
        old(numbers).focus < usize::MAX,
    ensures
        identity.chars() == identity_of(
            p.chars(),
            old(numbers).scroll as nat,
            old(numbers).focus as nat,
        ),
        final(numbers).scroll == old(numbers).scroll + if takes_scroll_number(p.chars()) {
            1int
        } else {
            0int
        },
        final(numbers).focus == old(numbers).focus + if takes_focus_number(p.chars()) {
            1int
        } else {
            0int
        },
{
    match (&p.key, p.on_click) {
        (Some(key), _) => Identity::Key(key.clone()),
        (None, Some(id)) => Identity::Click(id),
        (None, None) => {
            if is_scrolling(p) {
                let n = numbers.scroll;
                numbers.scroll = n + 1;
                Identity::Scroll(n)
            } else if is_focusable(p) {
                let n = numbers.focus;
                numbers.focus = n + 1;
                Identity::Focus(n)
            } else {
                Identity::Anonymous
            }
        },
    }
}

/// The element of a div with this identity.
fn render_div(p: &DivProps<String>, fill: bool, identity: Identity<String>) -> (div: DivElement<
    String,
>)
    ensures
        div.chars() == (DivElement {
            identity: identity.chars(),
            ..div_element(p.chars(), fill, 0, 0)
        }),
{
    DivElement {
        box_style: box_style_of(p, fill),
        layout: layout_style_of(p),
        text: text_style_of(p),
        identity,
        scrolls: is_scrolling(p),
        focusable: is_focusable(p),
        tab_index: p.tab_index,
        tab_stop: p.tab_stop,
        on_click: p.on_click,
    }
}

/// Renders a node: its children in order, then itself.
pub fn render_node(node: &UiNode, fill: bool, numbers: &mut Numbers) -> (element: Element)
    requires
        old(numbers).scroll + node_count(node.tree()) <= usize::MAX,
        old(numbers).focus + node_count(node.tree()) <= usize::MAX,
    ensures
        element.tree() == rendered(
            node.tree(),
            fill,
            old(numbers).scroll as nat,
            old(numbers).focus as nat,
        ),
        final(numbers).scroll == old(numbers).scroll + scroll_numbers(node.tree()),
        final(numbers).focus == old(numbers).focus + focus_numbers(node.tree()),
    decreases node_count(node.tree()),
{
    match node {
        UiNode::Div { props, children } => {
            let ghost list = trees(children@);
            let ghost start = *numbers;
            let mut elements: Vec<Element> = Vec::new();
            let mut i: usize = 0;
            proof {
                lemma_div_tree(*props, *children);
                assert(list.skip(0) =~= list);
                assert(element_trees(elements@) + rendered_of(
                    list,
                    start.scroll as nat,
                    start.focus as nat,
                ) =~= rendered_of(list, start.scroll as nat, start.focus as nat));
            }
            while i < children.len()
                invariant
                    i <= children@.len(),
                    list == trees(children@),
                    node_count_of(list) < node_count(node.tree()),
                    numbers.scroll + node_count_of(list.skip(i as int)) < usize::MAX,
                    numbers.focus + node_count_of(list.skip(i as int)) < usize::MAX,
                    numbers.scroll + scroll_numbers_of(list.skip(i as int)) == start.scroll
                        + scroll_numbers_of(list),
                    numbers.focus + focus_numbers_of(list.skip(i as int)) == start.focus
                        + focus_numbers_of(list),
                    element_trees(elements@) + rendered_of(
                        list.skip(i as int),
                        numbers.scroll as nat,
                        numbers.focus as nat,
                    ) == rendered_of(list, start.scroll as nat, start.focus as nat),
                decreases children@.len() - i,
            {
                let ghost before = element_trees(elements@);
                let ghost at = *numbers;
                let ghost rest = list.skip(i as int);
                proof {
                    assert(rest.first() == children@[i as int].tree());
                    assert(rest.drop_first() =~= list.skip(i + 1));
                    lemma_node_count_member(list, i as int);
                    lemma_numbers_bounded(rest.first());
                }
                let element = render_node(&children[i], false, numbers);
                elements.push(element);
                proof {
                    assert(element_trees(elements@) =~= before.push(element.tree()));
                    assert(element_trees(elements@) + rendered_of(
                        list.skip(i + 1),
                        numbers.scroll as nat,
                        numbers.focus as nat,
                    ) =~= before + rendered_of(rest, at.scroll as nat, at.focus as nat));
                }
                i += 1;
            }
            assert(list.skip(i as int) =~= Seq::<Tree>::empty());
            let identity = take_identity(props, numbers);
            let div = render_div(props, fill, identity);
            proof {
                lemma_element_tree(div, elements);
                assert(element_trees(elements@) =~= rendered_of(
                    list,
                    start.scroll as nat,
                    start.focus as nat,
                ));
            }
            Element::Div { div, children: elements }
        },
        UiNode::Text { content, color, size } => Element::Text {
            content: content.clone(),
            color: pack_rgb(*color),
            size: *size,
        },
    }
}

/// A div element stands for itself over the trees of its children.
proof fn lemma_element_tree(div: DivElement<String>, children: Vec<Element>)
    ensures
        (Element::Div { div, children }).tree() == (ElementTree::Div {
            div: div.chars(),
            children: element_trees(children@),
        }),
{
    let t = (Element::Div { div, children }).tree();
    assert(t->children =~= element_trees(children@));
}

/// Renders the tree of a view; `None` when the view has no tree. Numbers start
/// from zero in every render.
pub fn render_view(views: &Views, view: usize) -> (element: Option<Element>)
    requires
        views.wf(),
    ensures
        match tree_in(views@, view as int) {
            Some(tree) => element matches Some(e) && e.tree() == rendered(tree, true, 0, 0),
            None => element is None,
        },
{
    match views.get(view) {
        Some(node) => {
            let mut numbers = Numbers { scroll: 0, focus: 0 };
            Some(render_node(node, true, &mut numbers))
        },
        None => None,
    }
}

/// The id under which an element with a key is registered.
pub fn key_element_id(key: &str) -> (id: String)
    ensures
        id@ == "gpui_key:"@ + key@,
{
    "gpui_key:".to_owned().concat(key)
}

/// The name under which the bounds of a text can be looked up.
pub fn text_selector(content: &str) -> (selector: String)
    ensures
        selector@ == "text:"@ + content@,
{
    "text:".to_owned().concat(content)
}

} // verus!
