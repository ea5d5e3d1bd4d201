//! How what is set on a div shows in its element, and that every place of a
//! tree is rendered.

use vstd::prelude::*;

use crate::growth::dressed;
use crate::node::{DivProps, Setter, Sides, Tree};
use crate::paths::{carries, distinct_keys, node_at};
use crate::reader::Float32;
use crate::render::{
    DivElement, Element, ElementTree, Identity, div_element, focus_numbers, focus_numbers_of,
    lemma_numbers_bounded, rendered, rendered_of, scroll_numbers, scroll_numbers_of,
};
use crate::setters::{law_setter_leaves_rest, lemma_dressed_concat};
use crate::style::{
    AlignItems, CursorStyle, Fill, JustifyContent, Length, Overflow, Padding, Position, TextAlign,
    WhiteSpace, align_of, box_style, cursor_of, justify_of, layout_style, overflow_of,
    position_of, text_align_of, text_style, white_space_of,
};
use crate::tree::{lemma_node_count_member, node_count, node_count_of};

verus! {

/// Whether the bits are those of a float greater than zero, infinity included.
pub open spec fn above_zero(f: Float32) -> bool {
    0 < f.bits <= 2139095040
}

/// Whether `n` is a color in three bytes.
pub open spec fn packs(n: u32, c: (u8, u8, u8)) -> bool {
    n == 65536 * c.0 + 256 * c.1 + c.2
}

/// Whether `n` is a color in four bytes, the alpha last.
pub open spec fn packs_alpha(n: u32, c: (u8, u8, u8, u8)) -> bool {
    n == 16777216 * c.0 + 65536 * c.1 + 256 * c.2 + c.3
}

/// Whether a length is that many pixels, or one the layout picks if negative.
pub open spec fn measures(l: Length, v: i32) -> bool {
    if v >= 0 {
        l == Length::Px(v)
    } else {
        l is Auto
    }
}

/// The size, the corners, the padding and the margin of a div show when they are
/// set: sizes, corners and uniform padding if they are greater than zero,
/// padding per side in place of uniform padding, the margin as it is, each side
/// at its place.
pub proof fn law_box_shows_edges(p: DivProps<Seq<char>>, fill: bool)
    ensures
        ({
            let shown = box_style(p, fill);
            &&& shown.size_full == fill
            &&& above_zero(p.width) && above_zero(p.height) ==> shown.size == Some(
                (p.width, p.height),
            )
            &&& !above_zero(p.width) || !above_zero(p.height) ==> shown.size is None
            &&& above_zero(p.rounded) ==> shown.rounded == Some(p.rounded)
            &&& !above_zero(p.rounded) ==> shown.rounded is None
            &&& p.padding_sides matches Some(s) ==> shown.padding == Padding::PerSide(s)
            &&& p.padding_sides is None && above_zero(p.padding) ==> shown.padding
                == Padding::Uniform(p.padding)
            &&& p.padding_sides is None && !above_zero(p.padding) ==> shown.padding is Unset
            &&& shown.margin == p.margin
            &&& !above_zero(p.border_width) ==> shown.border is None
            &&& above_zero(p.border_width) ==> {
                &&& shown.border matches Some((w, color))
                &&& w == p.border_width
                &&& p.border_color is None ==> color is None
                &&& p.border_color matches Some(c) ==> color matches Some(n) && packs(n, c)
            }
        }),
{
}

/// The limits on the size of a div show component by component where they are
/// not negative.
pub proof fn law_box_shows_limits(p: DivProps<Seq<char>>, fill: bool)
    ensures
        ({
            let shown = box_style(p, fill);
            &&& p.min_size is None ==> shown.min_width is None && shown.min_height is None
            &&& p.max_size is None ==> shown.max_width is None && shown.max_height is None
            &&& p.min_size matches Some((w, h)) ==> {
                &&& w >= 0 ==> shown.min_width == Some(w)
                &&& w < 0 ==> shown.min_width is None
                &&& h >= 0 ==> shown.min_height == Some(h)
                &&& h < 0 ==> shown.min_height is None
            }
            &&& p.max_size matches Some((w, h)) ==> {
                &&& w >= 0 ==> shown.max_width == Some(w)
                &&& w < 0 ==> shown.max_width is None
                &&& h >= 0 ==> shown.max_height == Some(h)
                &&& h < 0 ==> shown.max_height is None
            }
        }),
{
}

/// The paint of a div: a background with an alpha in place of one without, the
/// opacity as it is, the shadow with every number at its place, and the pointer
/// on a div that can be clicked in place of the cursor it asks for.
pub proof fn law_box_shows_paint(p: DivProps<Seq<char>>, fill: bool)
    ensures
        ({
            let shown = box_style(p, fill);
            &&& p.bg_color matches Some(c) ==> shown.background matches Some(Fill::Translucent(n))
                && packs_alpha(n, c)
            &&& p.bg_color is None ==> {
                &&& p.bg matches Some(c) ==> shown.background matches Some(Fill::Opaque(n))
                    && packs(n, c)
                &&& p.bg is None ==> shown.background is None
            }
            &&& shown.opacity == p.opacity
            &&& p.shadow is None ==> shown.shadow is None
            &&& p.shadow matches Some(s) ==> {
                &&& shown.shadow matches Some(t)
                &&& t.x == s.x && t.y == s.y && t.blur == s.blur && t.spread == s.spread
                &&& packs_alpha(t.color, s.color)
            }
            &&& p.on_click is Some ==> shown.cursor == Some(CursorStyle::PointingHand)
            &&& p.on_click is None && p.cursor is None ==> shown.cursor is None
            &&& p.on_click is None ==> {
                &&& p.cursor matches Some(id) ==> shown.cursor == cursor_of(id)
            }
        }),
{
}

/// Each cursor has one id, and no other id names a cursor.
pub proof fn law_cursor_ids(id: i32)
    ensures
        cursor_of(id) == Some(CursorStyle::Arrow) <==> id == 0,
        cursor_of(id) == Some(CursorStyle::PointingHand) <==> id == 1,
        cursor_of(id) == Some(CursorStyle::IBeam) <==> id == 2,
        cursor_of(id) == Some(CursorStyle::Crosshair) <==> id == 3,
        cursor_of(id) == Some(CursorStyle::OpenHand) <==> id == 4,
        cursor_of(id) == Some(CursorStyle::ClosedHand) <==> id == 5,
        cursor_of(id) == Some(CursorStyle::OperationNotAllowed) <==> id == 6,
        cursor_of(id) == Some(CursorStyle::ResizeLeftRight) <==> id == 7,
        cursor_of(id) == Some(CursorStyle::ResizeUpDown) <==> id == 8,
        cursor_of(id) == Some(CursorStyle::ResizeColumn) <==> id == 9,
        cursor_of(id) == Some(CursorStyle::ResizeRow) <==> id == 10,
        cursor_of(id) == Some(CursorStyle::Hidden) <==> id == 11,
{
}

/// Each style has the ids that name it, and no other id names one. Justified text
/// is shown left-aligned; preserved whitespace does not wrap, and preserved
/// whitespace that wraps does.
pub proof fn law_style_ids(id: i32)
    ensures
        align_of(id) == Some(AlignItems::Start) <==> id == 1,
        align_of(id) == Some(AlignItems::Center) <==> id == 2,
        align_of(id) == Some(AlignItems::End) <==> id == 3,
        align_of(id) == Some(AlignItems::Stretch) <==> id == 4,
        justify_of(id) == Some(JustifyContent::Start) <==> id == 1,
        justify_of(id) == Some(JustifyContent::Center) <==> id == 2,
        justify_of(id) == Some(JustifyContent::End) <==> id == 3,
        justify_of(id) == Some(JustifyContent::SpaceBetween) <==> id == 4,
        justify_of(id) == Some(JustifyContent::SpaceAround) <==> id == 5,
        overflow_of(id) == Some(Overflow::Visible) <==> id == 0,
        overflow_of(id) == Some(Overflow::Hidden) <==> id == 1,
        overflow_of(id) == Some(Overflow::Scroll) <==> id == 2,
        position_of(id) == Some(Position::Relative) <==> id == 0,
        position_of(id) == Some(Position::Absolute) <==> id == 1,
        text_align_of(id) == Some(TextAlign::Left) <==> id == 1 || id == 4,
        text_align_of(id) == Some(TextAlign::Center) <==> id == 2,
        text_align_of(id) == Some(TextAlign::Right) <==> id == 3,
        white_space_of(id) == Some(WhiteSpace::Normal) <==> id == 1 || id == 4,
        white_space_of(id) == Some(WhiteSpace::Nowrap) <==> id == 2 || id == 3,
{
}

/// The layout of a div: a direction only in a flex container, a gap only above
/// zero, the flex item with its basis, an alignment and a distribution by id in
/// place of centering, overflow along each axis, the position, and the inset
/// with each side at its place.
pub proof fn law_layout_shows(p: DivProps<Seq<char>>)
    ensures
        ({
            let shown = layout_style(p);
            &&& shown.flex == p.flex
            &&& shown.flex_col == (p.flex && p.flex_col)
            &&& above_zero(p.gap) ==> shown.gap == Some(p.gap)
            &&& !above_zero(p.gap) ==> shown.gap is None
            &&& p.flex_item is None ==> shown.flex_item is None
            &&& p.flex_item matches Some((grow, shrink, basis)) ==> {
                &&& shown.flex_item matches Some((g, s, b))
                &&& g == grow && s == shrink && measures(b, basis)
            }
            &&& p.overflow is None ==> shown.overflow_x is None && shown.overflow_y is None
            &&& p.overflow matches Some((x, y)) ==> shown.overflow_x == overflow_of(x)
                && shown.overflow_y == overflow_of(y)
            &&& p.position is None ==> shown.position is None
            &&& p.position matches Some(id) ==> shown.position == position_of(id)
            &&& p.inset is None ==> shown.inset is None
            &&& p.inset matches Some((top, right, bottom, left)) ==> {
                &&& shown.inset matches Some((t, r, b, l))
                &&& measures(t, top) && measures(r, right)
                &&& measures(b, bottom) && measures(l, left)
            }
            &&& p.align is None && !p.center ==> shown.align_items is None
                && shown.justify_content is None
            &&& p.align is None && p.center ==> {
                &&& shown.align_items == Some(AlignItems::Center)
                &&& shown.justify_content == Some(JustifyContent::Center)
            }
            &&& p.align matches Some((a, j)) ==> {
                &&& align_of(a) is Some ==> shown.align_items == align_of(a)
                &&& justify_of(j) is Some ==> shown.justify_content == justify_of(j)
                &&& align_of(a) is None && p.center ==> shown.align_items == Some(
                    AlignItems::Center,
                )
                &&& justify_of(j) is None && p.center ==> shown.justify_content == Some(
                    JustifyContent::Center,
                )
                &&& align_of(a) is None && !p.center ==> shown.align_items is None
                &&& justify_of(j) is None && !p.center ==> shown.justify_content is None
            }
        }),
{
}

/// What the texts below a div inherit is what is set on it, and nothing if none
/// of it is set.
pub proof fn law_text_style_shows(p: DivProps<Seq<char>>)
    ensures
        match text_style(p) {
            None => {
                &&& p.text_size is None && p.text_color is None && p.font_weight is None
                &&& p.line_height is None && p.text_align is None && p.whitespace is None
                &&& p.font_family is None
            },
            Some(shown) => {
                &&& p.text_size is Some || p.text_color is Some || p.font_weight is Some
                    || p.line_height is Some || p.text_align is Some || p.whitespace is Some
                    || p.font_family is Some
                &&& shown.font_size == p.text_size
                &&& p.text_color is None ==> shown.color is None
                &&& p.text_color matches Some(c) ==> shown.color matches Some(n) && packs_alpha(
                    n,
                    c,
                )
                &&& shown.font_weight == p.font_weight
                &&& shown.line_height == p.line_height
                &&& p.text_align is None ==> shown.text_align is None
                &&& p.text_align matches Some(id) ==> shown.text_align == text_align_of(id)
                &&& p.whitespace is None ==> shown.white_space is None
                &&& p.whitespace matches Some(id) ==> shown.white_space == white_space_of(id)
                &&& shown.font_family == p.font_family
            },
        },
{
}

/// The scroll position of a div is tracked exactly when it scrolls along at
/// least one axis.
pub proof fn law_scrolling_is_tracked(
    p: DivProps<Seq<char>>,
    fill: bool,
    scroll: nat,
    focus: nat,
)
    ensures
        ({
            let div = div_element(p, fill, scroll, focus);
            div.scrolls <==> div.layout.overflow_x == Some(Overflow::Scroll)
                || div.layout.overflow_y == Some(Overflow::Scroll)
        }),
{
}

/// A div takes the focus exactly when it asks for it or has a place in the tab
/// order or a say in it. Its tab index, its tab stop and where its clicks go are
/// as they were set.
pub proof fn law_focus_and_clicks(p: DivProps<Seq<char>>, fill: bool, scroll: nat, focus: nat)
    ensures
        ({
            let div = div_element(p, fill, scroll, focus);
            &&& div.focusable <==> p.focusable == Some(true) || p.tab_index is Some
                || p.tab_stop is Some
            &&& div.tab_index == p.tab_index
            &&& div.tab_stop == p.tab_stop
            &&& div.on_click == p.on_click
        }),
{
}

/// What a div is known by: its key; without one, where its clicks go; without
/// that, a number if it scrolls; otherwise a number if it takes the focus;
/// otherwise nothing.
pub proof fn law_known_by(p: DivProps<Seq<char>>, fill: bool, scroll: nat, focus: nat)
    ensures
        ({
            let div = div_element(p, fill, scroll, focus);
            &&& p.key matches Some(k) ==> div.identity == Identity::Key(k)
            &&& p.key is None ==> {
                &&& p.on_click matches Some(id) ==> div.identity == Identity::<Seq<char>>::Click(id)
                &&& p.on_click is None ==> {
                    &&& div.scrolls ==> div.identity == Identity::<Seq<char>>::Scroll(
                        scroll as usize,
                    )
                    &&& !div.scrolls && div.focusable ==> div.identity == Identity::<
                        Seq<char>,
                    >::Focus(focus as usize)
                    &&& !div.scrolls && !div.focusable ==> div.identity is Anonymous
                }
            }
        }),
{
}

/// The margin that the element of a div asks for is the last one set on it, and
/// none if none was set, whatever else was set before, between and after.
pub proof fn law_last_margin_shows(
    before: Seq<Setter<Seq<char>>>,
    sides: Sides,
    after: Seq<Setter<Seq<char>>>,
    fill: bool,
)
    requires
        forall|i: int| 0 <= i < after.len() ==> #[trigger] after[i] !is Margin,
    ensures
        ({
            let start = DivProps::<Seq<char>>::initial();
            let set = dressed(start, before + seq![Setter::Margin(sides)] + after);
            &&& box_style(set, fill).margin == Some(sides)
            &&& box_style(dressed(start, after), fill).margin is None
        }),
{
    let start = DivProps::<Seq<char>>::initial();
    let one = seq![Setter::Margin(sides)];
    lemma_dressed_concat(start, before + one, after);
    lemma_dressed_concat(start, before, one);
    let middle = dressed(start, before);
    reveal_with_fuel(dressed, 2);
    assert(one.drop_first() =~= Seq::empty());
    assert(dressed(middle, one) == middle.with(Setter::Margin(sides)));
    lemma_margin_kept(middle.with(Setter::Margin(sides)), after);
    lemma_margin_kept(start, after);
}

proof fn lemma_margin_kept(props: DivProps<Seq<char>>, setters: Seq<Setter<Seq<char>>>)
    requires
        forall|i: int| 0 <= i < setters.len() ==> #[trigger] setters[i] !is Margin,
    ensures
        dressed(props, setters).margin == props.margin,
    decreases setters.len(),
{
    if setters.len() > 0 {
        let rest = setters.drop_first();
        assert(setters[0] !is Margin);
        law_setter_leaves_rest(props, setters.first());
        assert forall|i: int| 0 <= i < rest.len() implies #[trigger] rest[i] !is Margin by {
            assert(setters[i + 1] !is Margin);
        }
        lemma_margin_kept(props.with(setters.first()), rest);
    }
}

/// The element at the end of a path.
pub open spec fn element_at(element: ElementTree, path: Seq<int>) -> Option<ElementTree>
    decreases path.len(),
{
    if path.len() == 0 {
        Some(element)
    } else {
        match element {
            ElementTree::Div { children, .. } => if 0 <= path.first() < children.len() {
                element_at(children[path.first()], path.drop_first())
            } else {
                None
            },
            ElementTree::Text { .. } => None,
        }
    }
}

/// Whether a div is shown with these props, apart from the number it may be
/// known by.
pub open spec fn shows(div: DivElement<Seq<char>>, p: DivProps<Seq<char>>, fill: bool) -> bool {
    exists|scroll: nat, focus: nat| div == #[trigger] div_element(p, fill, scroll, focus)
}

proof fn lemma_rendered_of(list: Seq<Tree>, scroll: nat, focus: nat, i: int)
    requires
        0 <= i < list.len(),
    ensures
        rendered_of(list, scroll, focus).len() == list.len(),
        exists|s: nat, f: nat|
            rendered_of(list, scroll, focus)[i] == #[trigger] rendered(list[i], false, s, f),
    decreases list.len(),
{
    let rest = list.drop_first();
    let (s, f) = (scroll + scroll_numbers(list.first()), focus + focus_numbers(list.first()));
    if i == 0 {
        lemma_rendered_len(list, scroll, focus);
        assert(rendered_of(list, scroll, focus)[0] == rendered(list[0], false, scroll, focus));
    } else {
        lemma_rendered_of(rest, s, f, i - 1);
        let (a, b) = choose|a: nat, b: nat|
            rendered_of(rest, s, f)[i - 1] == #[trigger] rendered(rest[i - 1], false, a, b);
        assert(rendered_of(list, scroll, focus)[i] == rendered(list[i], false, a, b));
    }
}

proof fn lemma_rendered_len(list: Seq<Tree>, scroll: nat, focus: nat)
    ensures
        rendered_of(list, scroll, focus).len() == list.len(),
    decreases list.len(),
{
    if list.len() > 0 {
        lemma_rendered_len(
            list.drop_first(),
            scroll + scroll_numbers(list.first()),
            focus + focus_numbers(list.first()),
        );
    }
}

/// Every place of a tree is rendered at the same place: a div as it is set, with
/// as many children; a text with its content and size and its color in three
/// bytes. Only the outermost div fills the space there is, if it is to.
pub proof fn law_every_place_is_rendered(
    tree: Tree,
    fill: bool,
    scroll: nat,
    focus: nat,
    path: Seq<int>,
)
    ensures
        match (node_at(tree, path), element_at(rendered(tree, fill, scroll, focus), path)) {
            (Some(Tree::Div { props, children }), Some(ElementTree::Div { div, children: list })) => {
                &&& shows(div, props, fill && path.len() == 0)
                &&& list.len() == children.len()
            },
            (
                Some(Tree::Text { content, color, size }),
                Some(ElementTree::Text { content: shown, color: n, size: s }),
            ) => shown == content && s == size && packs(n, color),
            (None, None) => true,
            _ => false,
        },
    decreases path.len(),
{
    let element = rendered(tree, fill, scroll, focus);
    if let Tree::Div { props, children } = tree {
        let list = element->children;
        lemma_rendered_len(children, scroll, focus);
        assert(list == rendered_of(children, scroll, focus));
        if path.len() > 0 && 0 <= path.first() < children.len() {
            let c = path.first();
            lemma_rendered_of(children, scroll, focus, c);
            let (s, f) = choose|s: nat, f: nat|
                rendered_of(children, scroll, focus)[c] == #[trigger] rendered(
                    children[c],
                    false,
                    s,
                    f,
                );
            law_every_place_is_rendered(children[c], false, s, f, path.drop_first());
        }
        if path.len() == 0 {
            let a = scroll + scroll_numbers_of(children);
            let b = focus + focus_numbers_of(children);
            assert(element->div == div_element(props, fill, a, b));
        }
    }
}

/// The parts of the element of a div are those that its props ask for.
pub proof fn law_element_of_its_props(
    p: DivProps<Seq<char>>,
    fill: bool,
    scroll: nat,
    focus: nat,
)
    ensures
        ({
            let div = div_element(p, fill, scroll, focus);
            &&& div.box_style == box_style(p, fill)
            &&& div.layout == layout_style(p)
            &&& div.text == text_style(p)
        }),
{
}

/// The element that contracts speak of is the one that is drawn, place for
/// place, with strings taken by their characters.
pub proof fn law_element_faithful(element: Element)
    ensures
        match element {
            Element::Div { div, children } => {
                &&& element.tree() matches ElementTree::Div { div: seen, children: list }
                &&& seen == div.chars()
                &&& list.len() == children@.len()
                &&& forall|i: int|
                    0 <= i < list.len() ==> #[trigger] list[i] == children@[i].tree()
            },
            Element::Text { content, color, size } => {
                &&& element.tree() matches ElementTree::Text { content: seen, color: c, size: s }
                &&& seen == content@
                &&& c == color
                &&& s == size
            },
        },
{
}

/// What contracts say of a div element is what it holds, with strings taken by
/// their characters.
pub proof fn law_div_element_faithful(div: DivElement<String>)
    ensures
        ({
            let seen = div.chars();
            &&& seen.box_style == div.box_style
            &&& seen.layout == div.layout
            &&& seen.scrolls == div.scrolls
            &&& seen.focusable == div.focusable
            &&& seen.tab_index == div.tab_index
            &&& seen.tab_stop == div.tab_stop
            &&& seen.on_click == div.on_click
            &&& match div.identity {
                Identity::Anonymous => seen.identity is Anonymous,
                Identity::Key(key) => seen.identity == Identity::Key(key@),
                Identity::Click(id) => seen.identity == Identity::<Seq<char>>::Click(id),
                Identity::Scroll(n) => seen.identity == Identity::<Seq<char>>::Scroll(n),
                Identity::Focus(n) => seen.identity == Identity::<Seq<char>>::Focus(n),
            }
            &&& div.text is None ==> seen.text is None
            &&& div.text matches Some(t) ==> {
                &&& seen.text matches Some(u)
                &&& u.font_size == t.font_size
                &&& u.color == t.color
                &&& u.font_weight == t.font_weight
                &&& u.line_height == t.line_height
                &&& u.text_align == t.text_align
                &&& u.white_space == t.white_space
                &&& match t.font_family {
                    Some(family) => u.font_family == Some(family@),
                    None => u.font_family is None,
                }
            }
        }),
{
}

/// Whether the element at the end of a path is known by this identity.
pub open spec fn known_as(element: ElementTree, path: Seq<int>, id: Identity<Seq<char>>) -> bool {
    element_at(element, path) matches Some(ElementTree::Div { div, .. }) && div.identity == id
}

/// The numbers that the first `i` trees of a list take for scrolling and for
/// the focus.
spec fn numbers_before(list: Seq<Tree>, i: int) -> (nat, nat) {
    (scroll_numbers_of(list.take(i)), focus_numbers_of(list.take(i)))
}

proof fn lemma_numbers_split(list: Seq<Tree>, i: int)
    requires
        0 <= i < list.len(),
    ensures
        numbers_before(list, i + 1).0 == numbers_before(list, i).0 + scroll_numbers(list[i]),
        numbers_before(list, i + 1).1 == numbers_before(list, i).1 + focus_numbers(list[i]),
    decreases i,
{
    reveal_with_fuel(scroll_numbers_of, 2);
    reveal_with_fuel(focus_numbers_of, 2);
    let longer = list.take(i + 1);
    if i == 0 {
        assert(longer.drop_first() =~= Seq::empty());
    } else {
        let rest = list.drop_first();
        lemma_numbers_split(rest, i - 1);
        assert(longer.drop_first() =~= rest.take(i));
        assert(list.take(i).drop_first() =~= rest.take(i - 1));
    }
}

proof fn lemma_numbers_monotone(list: Seq<Tree>, i: int, j: int)
    requires
        0 <= i < j <= list.len(),
    ensures
        numbers_before(list, i).0 + scroll_numbers(list[i]) <= numbers_before(list, j).0,
        numbers_before(list, i).1 + focus_numbers(list[i]) <= numbers_before(list, j).1,
    decreases j - i,
{
    lemma_numbers_split(list, i);
    if i + 1 < j {
        lemma_numbers_monotone(list, i + 1, j);
    }
}

proof fn lemma_rendered_at(list: Seq<Tree>, scroll: nat, focus: nat, i: int)
    requires
        0 <= i < list.len(),
    ensures
        rendered_of(list, scroll, focus).len() == list.len(),
        rendered_of(list, scroll, focus)[i] == rendered(
            list[i],
            false,
            scroll + numbers_before(list, i).0,
            focus + numbers_before(list, i).1,
        ),
    decreases list.len(),
{
    lemma_rendered_len(list, scroll, focus);
    let rest = list.drop_first();
    let (s, f) = (scroll + scroll_numbers(list.first()), focus + focus_numbers(list.first()));
    if i == 0 {
        assert(list.take(0) =~= Seq::empty());
    } else {
        lemma_rendered_at(rest, s, f, i - 1);
        assert(list.take(i).drop_first() =~= rest.take(i - 1));
        assert(list.take(i).first() == list.first());
    }
}

/// The numbers that the places of a tree are known by are those it takes.
proof fn lemma_number_in_range(
    tree: Tree,
    fill: bool,
    scroll: nat,
    focus: nat,
    path: Seq<int>,
    n: usize,
)
    requires
        scroll + scroll_numbers(tree) <= usize::MAX,
        focus + focus_numbers(tree) <= usize::MAX,
    ensures
        known_as(rendered(tree, fill, scroll, focus), path, Identity::Scroll(n)) ==> scroll <= n
            < scroll + scroll_numbers(tree),
        known_as(rendered(tree, fill, scroll, focus), path, Identity::Focus(n)) ==> focus <= n
            < focus + focus_numbers(tree),
    decreases path.len(),
{
    if let Tree::Div { props, children } = tree {
        lemma_rendered_len(children, scroll, focus);
        assert(children.take(children.len() as int) =~= children);
        if path.len() > 0 && 0 <= path.first() < children.len() {
            let c = path.first();
            let (a, b) = numbers_before(children, c);
            lemma_rendered_at(children, scroll, focus, c);
            lemma_numbers_monotone(children, c, children.len() as int);
            lemma_number_in_range(
                children[c],
                false,
                scroll + a,
                focus + b,
                path.drop_first(),
                n,
            );
        }
    }
}

proof fn lemma_numbers_differ(
    tree: Tree,
    fill: bool,
    scroll: nat,
    focus: nat,
    p: Seq<int>,
    q: Seq<int>,
    id: Identity<Seq<char>>,
)
    requires
        scroll + scroll_numbers(tree) <= usize::MAX,
        focus + focus_numbers(tree) <= usize::MAX,
        id is Scroll || id is Focus,
        known_as(rendered(tree, fill, scroll, focus), p, id),
        known_as(rendered(tree, fill, scroll, focus), q, id),
    ensures
        p == q,
    decreases p.len(),
{
    if let Tree::Div { props, children } = tree {
        let n = match id {
            Identity::Scroll(n) => n,
            Identity::Focus(n) => n,
            _ => 0,
        };
        lemma_rendered_len(children, scroll, focus);
        assert(children.take(children.len() as int) =~= children);
        if p.len() > 0 {
            lemma_number_below(tree, scroll, focus, p, n);
        }
        if q.len() > 0 {
            lemma_number_below(tree, scroll, focus, q, n);
        }
        if p.len() == 0 && q.len() == 0 {
            assert(p =~= q);
        } else if p.len() > 0 && q.len() > 0 {
            let (c, d) = (p.first(), q.first());
            let (a, b) = numbers_before(children, c);
            lemma_rendered_at(children, scroll, focus, c);
            lemma_rendered_at(children, scroll, focus, d);
            lemma_numbers_monotone(children, c, children.len() as int);
            if c == d {
                lemma_numbers_differ(
                    children[c],
                    false,
                    scroll + a,
                    focus + b,
                    p.drop_first(),
                    q.drop_first(),
                    id,
                );
                assert(p =~= seq![c] + p.drop_first());
                assert(q =~= seq![d] + q.drop_first());
            } else if c < d {
                lemma_numbers_monotone(children, c, d);
            } else {
                lemma_numbers_monotone(children, d, c);
            }
        }
    } else {
        assert(rendered(tree, fill, scroll, focus) is Text);
    }
}

/// The number of a place below a div lies among those of the child it is under,
/// and before that of the div.
proof fn lemma_number_below(tree: Tree, scroll: nat, focus: nat, path: Seq<int>, n: usize)
    requires
        tree is Div,
        scroll + scroll_numbers(tree) <= usize::MAX,
        focus + focus_numbers(tree) <= usize::MAX,
        path.len() > 0,
    ensures
        ({
            let children = tree->children;
            let c = path.first();
            let list = rendered_of(children, scroll, focus);
            let (a, b) = numbers_before(children, c);
            &&& 0 <= c < list.len() ==> {
                &&& known_as(list[c], path.drop_first(), Identity::Scroll(n)) ==> scroll + a <= n
                    < scroll + a + scroll_numbers(children[c]) <= scroll + scroll_numbers_of(
                    children,
                )
                &&& known_as(list[c], path.drop_first(), Identity::Focus(n)) ==> focus + b <= n
                    < focus + b + focus_numbers(children[c]) <= focus + focus_numbers_of(children)
            }
        }),
{
    let children = tree->children;
    let c = path.first();
    lemma_rendered_len(children, scroll, focus);
    if 0 <= c < children.len() {
        let (a, b) = numbers_before(children, c);
        assert(children.take(children.len() as int) =~= children);
        lemma_rendered_at(children, scroll, focus, c);
        lemma_numbers_monotone(children, c, children.len() as int);
        lemma_number_in_range(children[c], false, scroll + a, focus + b, path.drop_first(), n);
    }
}

/// Whether one place comes before another when children come before their
/// parent and in their order.
pub open spec fn comes_before(p: Seq<int>, q: Seq<int>) -> bool
    decreases p.len(),
{
    if p.len() == 0 {
        false
    } else if q.len() == 0 {
        true
    } else if p.first() == q.first() {
        comes_before(p.drop_first(), q.drop_first())
    } else {
        p.first() < q.first()
    }
}

/// Numbers grow in the order of the places: children before their parent, and in
/// their order.
pub proof fn law_numbers_grow(
    tree: Tree,
    fill: bool,
    scroll: nat,
    focus: nat,
    p: Seq<int>,
    q: Seq<int>,
    n: usize,
    m: usize,
)
    requires
        scroll + node_count(tree) <= usize::MAX,
        focus + node_count(tree) <= usize::MAX,
        comes_before(p, q),
    ensures
        ({
            let element = rendered(tree, fill, scroll, focus);
            &&& known_as(element, p, Identity::Scroll(n)) && known_as(
                element,
                q,
                Identity::Scroll(m),
            ) ==> scroll <= n < m
            &&& known_as(element, p, Identity::Focus(n)) && known_as(
                element,
                q,
                Identity::Focus(m),
            ) ==> focus <= n < m
        }),
    decreases p.len(),
{
    lemma_numbers_bounded(tree);
    if let Tree::Div { props, children } = tree {
        lemma_rendered_len(children, scroll, focus);
        lemma_number_below(tree, scroll, focus, p, n);
        if q.len() > 0 {
            lemma_number_below(tree, scroll, focus, q, m);
            let (c, d) = (p.first(), q.first());
            if 0 <= c < children.len() && 0 <= d < children.len() {
                let (a, b) = numbers_before(children, c);
                lemma_rendered_at(children, scroll, focus, c);
                lemma_rendered_at(children, scroll, focus, d);
                if c == d {
                    lemma_numbers_bounded(children[c]);
                    lemma_node_count_member(children, c);
                    assert(children.take(children.len() as int) =~= children);
                    lemma_numbers_monotone(children, c, children.len() as int);
                    lemma_room_below(children, c);
                    law_numbers_grow(
                        children[c],
                        false,
                        scroll + a,
                        focus + b,
                        p.drop_first(),
                        q.drop_first(),
                        n,
                        m,
                    );
                } else {
                    lemma_numbers_monotone(children, c, d);
                }
            }
        }
    } else {
        assert(rendered(tree, fill, scroll, focus) is Text);
    }
}

/// The numbers taken before a child and the nodes of the child are no more than
/// the nodes of the list.
proof fn lemma_room_below(list: Seq<Tree>, c: int)
    requires
        0 <= c < list.len(),
    ensures
        numbers_before(list, c).0 + node_count(list[c]) <= node_count_of(list),
        numbers_before(list, c).1 + node_count(list[c]) <= node_count_of(list),
    decreases list.len(),
{
    let rest = list.drop_first();
    if c == 0 {
        assert(list.take(0) =~= Seq::empty());
    } else {
        lemma_room_below(rest, c - 1);
        lemma_numbers_bounded(list.first());
        assert(list.take(c).drop_first() =~= rest.take(c - 1));
        assert(list.take(c).first() == list.first());
    }
}

/// No two places of a committed tree are known by the same key or the same
/// number.
pub proof fn law_no_two_places_known_alike(
    tree: Tree,
    p: Seq<int>,
    q: Seq<int>,
    id: Identity<Seq<char>>,
)
    requires
        distinct_keys(tree),
        node_count(tree) <= usize::MAX,
        id is Key || id is Scroll || id is Focus,
        known_as(rendered(tree, true, 0, 0), p, id),
        known_as(rendered(tree, true, 0, 0), q, id),
    ensures
        p == q,
{
    lemma_numbers_bounded(tree);
    if let Identity::Key(key) = id {
        law_every_place_is_rendered(tree, true, 0, 0, p);
        law_every_place_is_rendered(tree, true, 0, 0, q);
        assert(carries(tree, p, key));
        assert(carries(tree, q, key));
    } else {
        lemma_numbers_differ(tree, true, 0, 0, p, q, id);
    }
}

} // verus!
