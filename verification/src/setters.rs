//! What each setter does to a div, and that nodes and the trees they stand for
//! say the same.

use vstd::prelude::*;

use crate::decode::decode;
use crate::encode::{command_fits, setter_op};
use crate::growth::{
    Recipe, dressed, grown, grown_of, law_recipe_decodes, recipe_buffer, recipe_commands,
};
use crate::node::{Command, DivProps, Setter, Tree, UiNode, lemma_div_tree, trees};
use crate::tree::{keys, keys_of, node_count, node_count_of};

verus! {

/// Whether what a setter carries is what the attribute it is for holds. A font
/// weight between 100 and 900 is kept, a lighter one becomes 100 and a heavier
/// one 900; a negative line height unsets it; a mode is on unless it is zero.
pub open spec fn in_effect(after: DivProps<Seq<char>>, setter: Setter<Seq<char>>) -> bool {
    &&& setter matches Setter::Size(w, h) ==> after.width == w && after.height == h
    &&& setter matches Setter::Bg(c) ==> after.bg == Some(c)
    &&& setter matches Setter::Flex(col) ==> after.flex && (after.flex_col <==> col != 0)
    &&& setter is Center ==> after.center
    &&& setter matches Setter::Gap(v) ==> after.gap == v
    &&& setter matches Setter::Rounded(v) ==> after.rounded == v
    &&& setter matches Setter::OnClick(id) ==> after.on_click == Some(id)
    &&& setter matches Setter::Key(k) ==> after.key == Some(k)
    &&& setter matches Setter::Padding(v) ==> after.padding == v
    &&& setter matches Setter::Border(w, c) ==> after.border_width == w
        && after.border_color == Some(c)
    &&& setter matches Setter::BgColor(c) ==> after.bg_color == Some(c)
    &&& setter matches Setter::Margin(s) ==> after.margin == Some(s)
    &&& setter matches Setter::MinSize(s) ==> after.min_size == Some(s)
    &&& setter matches Setter::MaxSize(s) ==> after.max_size == Some(s)
    &&& setter matches Setter::FlexItem(g, s, b) ==> after.flex_item == Some((g, s, b))
    &&& setter matches Setter::Align(a) ==> after.align == Some(a)
    &&& setter matches Setter::Overflow(o) ==> after.overflow == Some(o)
    &&& setter matches Setter::Opacity(v) ==> after.opacity == Some(v)
    &&& setter matches Setter::Shadow(s) ==> after.shadow == Some(s)
    &&& setter matches Setter::Cursor(id) ==> after.cursor == Some(id)
    &&& setter matches Setter::Position(id) ==> after.position == Some(id)
    &&& setter matches Setter::Inset(s) ==> after.inset == Some(s)
    &&& setter matches Setter::PaddingSides(s) ==> after.padding_sides == Some(s)
    &&& setter matches Setter::TextSize(v) ==> after.text_size == Some(v)
    &&& setter matches Setter::TextColor(c) ==> after.text_color == Some(c)
    &&& setter matches Setter::FontWeight(w) ==> {
        &&& 100 <= w <= 900 ==> after.font_weight == Some(w)
        &&& w < 100 ==> after.font_weight == Some(100i32)
        &&& w > 900 ==> after.font_weight == Some(900i32)
    }
    &&& setter matches Setter::LineHeight(v) ==> {
        &&& v >= 0 ==> after.line_height == Some(v)
        &&& v < 0 ==> after.line_height is None
    }
    &&& setter matches Setter::TextAlign(id) ==> after.text_align == Some(id)
    &&& setter matches Setter::Whitespace(id) ==> after.whitespace == Some(id)
    &&& setter matches Setter::FontFamily(f) ==> after.font_family == Some(f)
    &&& setter matches Setter::Focusable(mode) ==> after.focusable == Some(mode != 0)
    &&& setter matches Setter::TabIndex(index) ==> (after.tab_index matches Some(i) && i
        == index)
    &&& setter matches Setter::TabStop(mode) ==> after.tab_stop == Some(mode != 0)
}

/// A setter writes what it carries to the attribute it is for.
pub proof fn law_setter_writes(props: DivProps<Seq<char>>, setter: Setter<Seq<char>>)
    ensures
        in_effect(props.with(setter), setter),
{
}

/// A setter leaves every attribute alone that it is not for.
pub proof fn law_setter_leaves_rest(props: DivProps<Seq<char>>, setter: Setter<Seq<char>>)
    ensures
        ({
            let after = props.with(setter);
            &&& setter !is Size ==> after.width == props.width
            &&& setter !is Size ==> after.height == props.height
            &&& setter !is Bg ==> after.bg == props.bg
            &&& setter !is Flex ==> after.flex == props.flex
            &&& setter !is Flex ==> after.flex_col == props.flex_col
            &&& setter !is Center ==> after.center == props.center
            &&& setter !is Gap ==> after.gap == props.gap
            &&& setter !is Rounded ==> after.rounded == props.rounded
            &&& setter !is Padding ==> after.padding == props.padding
            &&& setter !is Border ==> after.border_width == props.border_width
            &&& setter !is Border ==> after.border_color == props.border_color
            &&& setter !is BgColor ==> after.bg_color == props.bg_color
            &&& setter !is Margin ==> after.margin == props.margin
            &&& setter !is MinSize ==> after.min_size == props.min_size
            &&& setter !is MaxSize ==> after.max_size == props.max_size
            &&& setter !is FlexItem ==> after.flex_item == props.flex_item
            &&& setter !is Align ==> after.align == props.align
            &&& setter !is Overflow ==> after.overflow == props.overflow
            &&& setter !is Opacity ==> after.opacity == props.opacity
            &&& setter !is Shadow ==> after.shadow == props.shadow
            &&& setter !is Cursor ==> after.cursor == props.cursor
            &&& setter !is Position ==> after.position == props.position
            &&& setter !is Inset ==> after.inset == props.inset
            &&& setter !is PaddingSides ==> after.padding_sides == props.padding_sides
            &&& setter !is TextSize ==> after.text_size == props.text_size
            &&& setter !is TextColor ==> after.text_color == props.text_color
            &&& setter !is FontWeight ==> after.font_weight == props.font_weight
            &&& setter !is LineHeight ==> after.line_height == props.line_height
            &&& setter !is TextAlign ==> after.text_align == props.text_align
            &&& setter !is Whitespace ==> after.whitespace == props.whitespace
            &&& setter !is FontFamily ==> after.font_family == props.font_family
            &&& setter !is OnClick ==> after.on_click == props.on_click
            &&& setter !is Focusable ==> after.focusable == props.focusable
            &&& setter !is TabIndex ==> after.tab_index == props.tab_index
            &&& setter !is TabStop ==> after.tab_stop == props.tab_stop
            &&& setter !is Key ==> after.key == props.key
        }),
{
}

/// A new div has no size, no gap, no rounding, no padding and no border, is no
/// flex container and does not center, and nothing else is set on it.
pub proof fn law_new_div_is_bare(props: DivProps<Seq<char>>)
    requires
        props == DivProps::<Seq<char>>::initial(),
    ensures
        props.width.bits == 0,
        props.height.bits == 0,
        props.bg is None,
        !props.flex,
        !props.flex_col,
        !props.center,
        props.gap.bits == 0,
        props.rounded.bits == 0,
        props.padding.bits == 0,
        props.border_width.bits == 0,
        props.border_color is None,
        props.bg_color is None,
        props.margin is None,
        props.min_size is None,
        props.max_size is None,
        props.flex_item is None,
        props.align is None,
        props.overflow is None,
        props.opacity is None,
        props.shadow is None,
        props.cursor is None,
        props.position is None,
        props.inset is None,
        props.padding_sides is None,
        props.text_size is None,
        props.text_color is None,
        props.font_weight is None,
        props.line_height is None,
        props.text_align is None,
        props.whitespace is None,
        props.font_family is None,
        props.on_click is None,
        props.focusable is None,
        props.tab_index is None,
        props.tab_stop is None,
        props.key is None,
{
}

/// The props that contracts speak of are those of the node, attribute for
/// attribute, with strings taken by their characters.
pub proof fn law_props_faithful(props: DivProps<String>)
    ensures
        ({
            let seen = props.chars();
            &&& seen.width == props.width
            &&& seen.height == props.height
            &&& seen.bg == props.bg
            &&& seen.flex == props.flex
            &&& seen.flex_col == props.flex_col
            &&& seen.center == props.center
            &&& seen.gap == props.gap
            &&& seen.rounded == props.rounded
            &&& seen.padding == props.padding
            &&& seen.border_width == props.border_width
            &&& seen.border_color == props.border_color
            &&& seen.bg_color == props.bg_color
            &&& seen.margin == props.margin
            &&& seen.min_size == props.min_size
            &&& seen.max_size == props.max_size
            &&& seen.flex_item == props.flex_item
            &&& seen.align == props.align
            &&& seen.overflow == props.overflow
            &&& seen.opacity == props.opacity
            &&& seen.shadow == props.shadow
            &&& seen.cursor == props.cursor
            &&& seen.position == props.position
            &&& seen.inset == props.inset
            &&& seen.padding_sides == props.padding_sides
            &&& seen.text_size == props.text_size
            &&& seen.text_color == props.text_color
            &&& seen.font_weight == props.font_weight
            &&& seen.line_height == props.line_height
            &&& seen.text_align == props.text_align
            &&& seen.whitespace == props.whitespace
            &&& match props.font_family {
                Some(s) => seen.font_family == Some(s@),
                None => seen.font_family is None,
            }
            &&& seen.on_click == props.on_click
            &&& seen.focusable == props.focusable
            &&& seen.tab_index == props.tab_index
            &&& seen.tab_stop == props.tab_stop
            &&& match props.key {
                Some(s) => seen.key == Some(s@),
                None => seen.key is None,
            }
        }),
{
}

/// The setter that contracts speak of is the one that is applied.
pub proof fn law_setter_faithful(setter: Setter<String>)
    ensures
        match setter {
            Setter::Size(a, b) => setter.chars() == Setter::<Seq<char>>::Size(a, b),
            Setter::Bg(a) => setter.chars() == Setter::<Seq<char>>::Bg(a),
            Setter::Flex(a) => setter.chars() == Setter::<Seq<char>>::Flex(a),
            Setter::Center => setter.chars() is Center,
            Setter::Gap(a) => setter.chars() == Setter::<Seq<char>>::Gap(a),
            Setter::Rounded(a) => setter.chars() == Setter::<Seq<char>>::Rounded(a),
            Setter::OnClick(a) => setter.chars() == Setter::<Seq<char>>::OnClick(a),
            Setter::Key(s) => setter.chars() == Setter::Key(s@),
            Setter::Padding(a) => setter.chars() == Setter::<Seq<char>>::Padding(a),
            Setter::Border(a, b) => setter.chars() == Setter::<Seq<char>>::Border(a, b),
            Setter::BgColor(a) => setter.chars() == Setter::<Seq<char>>::BgColor(a),
            Setter::Margin(a) => setter.chars() == Setter::<Seq<char>>::Margin(a),
            Setter::MinSize(a) => setter.chars() == Setter::<Seq<char>>::MinSize(a),
            Setter::MaxSize(a) => setter.chars() == Setter::<Seq<char>>::MaxSize(a),
            Setter::FlexItem(a, b, c) => setter.chars() == Setter::<Seq<char>>::FlexItem(a, b, c),
            Setter::Align(a) => setter.chars() == Setter::<Seq<char>>::Align(a),
            Setter::Overflow(a) => setter.chars() == Setter::<Seq<char>>::Overflow(a),
            Setter::Opacity(a) => setter.chars() == Setter::<Seq<char>>::Opacity(a),
            Setter::Shadow(a) => setter.chars() == Setter::<Seq<char>>::Shadow(a),
            Setter::Cursor(a) => setter.chars() == Setter::<Seq<char>>::Cursor(a),
            Setter::Position(a) => setter.chars() == Setter::<Seq<char>>::Position(a),
            Setter::Inset(a) => setter.chars() == Setter::<Seq<char>>::Inset(a),
            Setter::PaddingSides(a) => setter.chars() == Setter::<Seq<char>>::PaddingSides(a),
            Setter::TextSize(a) => setter.chars() == Setter::<Seq<char>>::TextSize(a),
            Setter::TextColor(a) => setter.chars() == Setter::<Seq<char>>::TextColor(a),
            Setter::FontWeight(a) => setter.chars() == Setter::<Seq<char>>::FontWeight(a),
            Setter::LineHeight(a) => setter.chars() == Setter::<Seq<char>>::LineHeight(a),
            Setter::TextAlign(a) => setter.chars() == Setter::<Seq<char>>::TextAlign(a),
            Setter::Whitespace(a) => setter.chars() == Setter::<Seq<char>>::Whitespace(a),
            Setter::FontFamily(s) => setter.chars() == Setter::FontFamily(s@),
            Setter::Focusable(a) => setter.chars() == Setter::<Seq<char>>::Focusable(a),
            Setter::TabIndex(a) => setter.chars() == Setter::<Seq<char>>::TabIndex(a),
            Setter::TabStop(a) => setter.chars() == Setter::<Seq<char>>::TabStop(a),
        },
{
}

/// The command that contracts speak of is the one that is executed.
pub proof fn law_command_faithful(command: Command<String>)
    ensures
        match command {
            Command::Div => command.chars() is Div,
            Command::Text { content, color, size } => command.chars() == (Command::Text {
                content: content@,
                color,
                size,
            }),
            Command::Apply(setter) => command.chars() == Command::Apply(setter.chars()),
            Command::AddChild => command.chars() is AddChild,
            Command::SetRoot => command.chars() is SetRoot,
        },
{
}

/// The tree that contracts speak of is that of the node, place for place.
pub proof fn law_node_faithful(node: UiNode)
    ensures
        match node {
            UiNode::Div { props, children } => {
                &&& node.tree() matches Tree::Div { props: seen, children: list }
                &&& seen == props.chars()
                &&& list.len() == children@.len()
                &&& forall|i: int|
                    0 <= i < list.len() ==> #[trigger] list[i] == children@[i].tree()
            },
            UiNode::Text { content, color, size } => {
                &&& node.tree() matches Tree::Text { content: seen, color: c, size: s }
                &&& seen == content@
                &&& c == color
                &&& s == size
            },
        },
{
    if let UiNode::Div { props, children } = node {
        lemma_div_tree(props, children);
        assert forall|i: int| 0 <= i < children@.len() implies #[trigger] trees(children@)[i]
            == children@[i].tree() by {}
    }
}

/// A setting stays in effect under setters of other kinds.
#[verifier::rlimit(60)]
#[verifier::spinoff_prover]
proof fn lemma_stays_in_effect(
    props: DivProps<Seq<char>>,
    setter: Setter<Seq<char>>,
    other: Setter<Seq<char>>,
)
    requires
        in_effect(props, setter),
        setter_op(other) != setter_op(setter),
    ensures
        in_effect(props.with(other), setter),
{
    law_setter_leaves_rest(props, other);
}

proof fn lemma_stays_under(
    props: DivProps<Seq<char>>,
    setter: Setter<Seq<char>>,
    others: Seq<Setter<Seq<char>>>,
)
    requires
        in_effect(props, setter),
        forall|i: int|
            0 <= i < others.len() ==> setter_op(#[trigger] others[i]) != setter_op(setter),
    ensures
        in_effect(dressed(props, others), setter),
    decreases others.len(),
{
    if others.len() > 0 {
        let rest = others.drop_first();
        assert(setter_op(others[0]) != setter_op(setter));
        lemma_stays_in_effect(props, setter, others.first());
        assert forall|i: int| 0 <= i < rest.len() implies setter_op(#[trigger] rest[i])
            != setter_op(setter) by {
            assert(setter_op(others[i + 1]) != setter_op(setter));
        }
        lemma_stays_under(props.with(others.first()), setter, rest);
    }
}

/// Props after one list of setters and then another.
pub proof fn lemma_dressed_concat(
    props: DivProps<Seq<char>>,
    a: Seq<Setter<Seq<char>>>,
    b: Seq<Setter<Seq<char>>>,
)
    ensures
        dressed(props, a + b) == dressed(dressed(props, a), b),
    decreases a.len(),
{
    if a.len() == 0 {
        assert(a + b =~= b);
    } else {
        assert((a + b).first() == a.first());
        assert((a + b).drop_first() =~= a.drop_first() + b);
        lemma_dressed_concat(props.with(a.first()), a.drop_first(), b);
    }
}

/// Of everything set on a div, the last setter of each kind is in effect.
pub proof fn law_last_setting_in_effect(
    props: DivProps<Seq<char>>,
    before: Seq<Setter<Seq<char>>>,
    setter: Setter<Seq<char>>,
    after: Seq<Setter<Seq<char>>>,
)
    requires
        forall|i: int|
            0 <= i < after.len() ==> setter_op(#[trigger] after[i]) != setter_op(setter),
    ensures
        in_effect(dressed(props, before + seq![setter] + after), setter),
{
    let one = seq![setter];
    let middle = dressed(props, before);
    lemma_dressed_concat(props, before + one, after);
    lemma_dressed_concat(props, before, one);
    reveal_with_fuel(dressed, 2);
    assert(one.drop_first() =~= Seq::empty());
    assert(dressed(middle, one) == middle.with(setter));
    law_setter_writes(middle, setter);
    lemma_stays_under(middle.with(setter), setter, after);
}

/// A buffer with one div decodes to that div with the last setter of each kind
/// in effect and without children.
pub proof fn law_decoded_settings(
    before: Seq<Setter<Seq<char>>>,
    setter: Setter<Seq<char>>,
    after: Seq<Setter<Seq<char>>>,
)
    requires
        forall|i: int|
            0 <= i < after.len() ==> setter_op(#[trigger] after[i]) != setter_op(setter),
        ({
            let setters = before + seq![setter] + after;
            let commands = recipe_commands(Recipe::Div { setters, children: Seq::empty() });
            forall|i: int| 0 <= i < commands.len() ==> command_fits(#[trigger] commands[i])
        }),
    ensures
        ({
            let setters = before + seq![setter] + after;
            let recipe = Recipe::Div { setters, children: Seq::empty() };
            &&& decode(recipe_buffer(recipe)) matches Ok(Tree::Div { props, children })
            &&& in_effect(props, setter)
            &&& children.len() == 0
        }),
{
    let setters = before + seq![setter] + after;
    let recipe = Recipe::Div { setters, children: Seq::empty() };
    let tree = grown(recipe);
    assert(grown_of(Seq::empty()).len() == 0);
    assert(node_count_of(grown_of(Seq::empty())) == 0);
    assert(node_count(tree) == 1);
    assert(keys_of(grown_of(Seq::empty())).len() == 0);
    assert(keys(tree).len() <= 1);
    law_last_setting_in_effect(DivProps::initial(), before, setter, after);
    law_recipe_decodes(recipe);
}

} // verus!
