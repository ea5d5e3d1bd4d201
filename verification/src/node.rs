//! Nodes of a retained tree, and the commands that build one.

use vstd::prelude::*;

use crate::reader::Float32;
use crate::style::{Overflow, Padding, Position, TextAlign};

verus! {

/// Three color components.
pub type Rgb = (u8, u8, u8);

/// Three color components and an alpha.
pub type Rgba = (u8, u8, u8, u8);

/// One number per side: top, right, bottom, left.
pub type Sides = (i32, i32, i32, i32);

/// A box shadow. Offsets, blur and spread are pixels.
#[derive(Clone, Copy, Debug, PartialEq, Eq)]
pub struct Shadow {
    pub x: i32,
    pub y: i32,
    pub blur: i32,
    pub spread: i32,
    pub color: Rgba,
}

/// Everything a div carries except its children. `S` is the type of its
/// strings: `String` in a node, a sequence of characters in the tree that
/// contracts speak of.
#[derive(Debug)]
pub struct DivProps<S> {
    pub width: Float32,
    pub height: Float32,
    pub bg: Option<Rgb>,
    pub flex: bool,
    pub flex_col: bool,
    pub center: bool,
    pub gap: Float32,
    pub rounded: Float32,
    pub padding: Float32,
    pub border_width: Float32,
    pub border_color: Option<Rgb>,
    /// Background with alpha. Takes precedence over `bg` when both are set.
    pub bg_color: Option<Rgba>,
    /// Margin in pixels.
    pub margin: Option<Sides>,
    /// Minimum width and height in pixels; a negative component means auto.
    pub min_size: Option<(i32, i32)>,
    /// Maximum width and height in pixels; a negative component means auto.
    pub max_size: Option<(i32, i32)>,
    /// Grow and shrink in thousandths, basis in pixels; a negative basis means auto.
    pub flex_item: Option<(i32, i32, i32)>,
    /// Cross-axis alignment and main-axis distribution, as ids.
    pub align: Option<(i32, i32)>,
    /// Horizontal and vertical overflow, as ids.
    pub overflow: Option<(i32, i32)>,
    /// Opacity in thousandths.
    pub opacity: Option<i32>,
    pub shadow: Option<Shadow>,
    /// Cursor style, as an id.
    pub cursor: Option<i32>,
    /// Position mode, as an id.
    pub position: Option<i32>,
    /// Inset in pixels; a negative side means auto.
    pub inset: Option<Sides>,
    /// Padding per side in pixels. Takes precedence over `padding` when set.
    pub padding_sides: Option<Sides>,
    /// Font size of the text below, in pixels.
    pub text_size: Option<i32>,
    /// Color of the text below.
    pub text_color: Option<Rgba>,
    /// Font weight of the text below, from 100 to 900.
    pub font_weight: Option<i32>,
    /// Line height of the text below, in thousandths of a pixel.
    pub line_height: Option<i32>,
    /// Alignment of the text below, as an id.
    pub text_align: Option<i32>,
    /// Whitespace handling of the text below, as an id.
    pub whitespace: Option<i32>,
    /// Font family of the text below.
    pub font_family: Option<S>,
    /// Where a click is routed to.
    pub on_click: Option<i32>,
    pub focusable: Option<bool>,
    pub tab_index: Option<isize>,
    pub tab_stop: Option<bool>,
    /// Stable identity, independent of where a click is routed to.
    pub key: Option<S>,
}

/// A node of a retained tree.
#[derive(Debug)]
pub enum UiNode {
    Div { props: DivProps<String>, children: Vec<UiNode> },
    Text { content: String, color: Rgb, size: Float32 },
}

/// The tree that a node stands for.
pub enum Tree {
    Div { props: DivProps<Seq<char>>, children: Seq<Tree> },
    Text { content: Seq<char>, color: Rgb, size: Float32 },
}

/// A command that sets something on the div on top of the stack.
#[derive(Debug)]
pub enum Setter<S> {
    Size(Float32, Float32),
    Bg(Rgb),
    Flex(u8),
    Center,
    Gap(Float32),
    Rounded(Float32),
    OnClick(i32),
    Key(S),
    Padding(Float32),
    Border(Float32, Rgb),
    BgColor(Rgba),
    Margin(Sides),
    MinSize((i32, i32)),
    MaxSize((i32, i32)),
    FlexItem(i32, i32, i32),
    Align((i32, i32)),
    Overflow((i32, i32)),
    Opacity(i32),
    Shadow(Shadow),
    Cursor(i32),
    Position(i32),
    Inset(Sides),
    PaddingSides(Sides),
    TextSize(i32),
    TextColor(Rgba),
    FontWeight(i32),
    LineHeight(i32),
    TextAlign(i32),
    Whitespace(i32),
    FontFamily(S),
    Focusable(i32),
    TabIndex(i32),
    TabStop(i32),
}

/// One command of a buffer.
#[derive(Debug)]
pub enum Command<S> {
    /// Creates a div and pushes it.
    Div,
    /// Creates a text and pushes it.
    Text { content: S, color: Rgb, size: Float32 },
    /// Sets something on the div on top of the stack.
    Apply(Setter<S>),
    /// Pops a child, then its parent, and pushes the parent with the child in it.
    AddChild,
    /// Pops the root.
    SetRoot,
}

/// The lightest and the heaviest font weight.
pub const FONT_WEIGHT_MIN: i32 = 100;

pub const FONT_WEIGHT_MAX: i32 = 900;

/// A font weight brought into range.
pub open spec fn clamped_weight(weight: i32) -> i32 {
    if weight < FONT_WEIGHT_MIN {
        FONT_WEIGHT_MIN
    } else if weight > FONT_WEIGHT_MAX {
        FONT_WEIGHT_MAX
    } else {
        weight
    }
}

/// The characters of a string that may be absent.
pub open spec fn chars_of(s: Option<String>) -> Option<Seq<char>> {
    match s {
        Some(s) => Some(s@),
        None => None,
    }
}

impl<S> DivProps<S> {
    /// A new div, with nothing set.
    pub open spec fn initial() -> DivProps<S> {
        DivProps {
            width: Float32::zero(),
            height: Float32::zero(),
            bg: None,
            flex: false,
            flex_col: false,
            center: false,
            gap: Float32::zero(),
            rounded: Float32::zero(),
            padding: Float32::zero(),
            border_width: Float32::zero(),
            border_color: None,
            bg_color: None,
            margin: None,
            min_size: None,
            max_size: None,
            flex_item: None,
            align: None,
            overflow: None,
            opacity: None,
            shadow: None,
            cursor: None,
            position: None,
            inset: None,
            padding_sides: None,
            text_size: None,
            text_color: None,
            font_weight: None,
            line_height: None,
            text_align: None,
            whitespace: None,
            font_family: None,
            on_click: None,
            focusable: None,
            tab_index: None,
            tab_stop: None,
            key: None,
        }
    }

    /// The props after a setter: the fields it names hold its operands and
    /// every other field is as it was.
    pub open spec fn with(self, setter: Setter<S>) -> DivProps<S> {
        match setter {
            Setter::Size(w, h) => DivProps { width: w, height: h, ..self },
            Setter::Bg(c) => DivProps { bg: Some(c), ..self },
            Setter::Flex(col) => DivProps { flex: true, flex_col: col != 0, ..self },
            Setter::Center => DivProps { center: true, ..self },
            Setter::Gap(v) => DivProps { gap: v, ..self },
            Setter::Rounded(v) => DivProps { rounded: v, ..self },
            Setter::OnClick(id) => DivProps { on_click: Some(id), ..self },
            Setter::Key(k) => DivProps { key: Some(k), ..self },
            Setter::Padding(v) => DivProps { padding: v, ..self },
            Setter::Border(w, c) => DivProps { border_width: w, border_color: Some(c), ..self },
            Setter::BgColor(c) => DivProps { bg_color: Some(c), ..self },
            Setter::Margin(s) => DivProps { margin: Some(s), ..self },
            Setter::MinSize(s) => DivProps { min_size: Some(s), ..self },
            Setter::MaxSize(s) => DivProps { max_size: Some(s), ..self },
            Setter::FlexItem(g, s, b) => DivProps { flex_item: Some((g, s, b)), ..self },
            Setter::Align(a) => DivProps { align: Some(a), ..self },
            Setter::Overflow(o) => DivProps { overflow: Some(o), ..self },
            Setter::Opacity(v) => DivProps { opacity: Some(v), ..self },
            Setter::Shadow(s) => DivProps { shadow: Some(s), ..self },
            Setter::Cursor(id) => DivProps { cursor: Some(id), ..self },
            Setter::Position(id) => DivProps { position: Some(id), ..self },
            Setter::Inset(s) => DivProps { inset: Some(s), ..self },
            Setter::PaddingSides(s) => DivProps { padding_sides: Some(s), ..self },
            Setter::TextSize(v) => DivProps { text_size: Some(v), ..self },
            Setter::TextColor(c) => DivProps { text_color: Some(c), ..self },
            Setter::FontWeight(w) => DivProps { font_weight: Some(clamped_weight(w)), ..self },
            Setter::LineHeight(v) => DivProps {
                line_height: if v < 0 {
                    None
                } else {
                    Some(v)
                },
                ..self
            },
            Setter::TextAlign(id) => DivProps { text_align: Some(id), ..self },
            Setter::Whitespace(id) => DivProps { whitespace: Some(id), ..self },
            Setter::FontFamily(f) => DivProps { font_family: Some(f), ..self },
            Setter::Focusable(mode) => DivProps { focusable: Some(mode != 0), ..self },
            Setter::TabIndex(index) => DivProps { tab_index: Some(index as isize), ..self },
            Setter::TabStop(mode) => DivProps { tab_stop: Some(mode != 0), ..self },
        }
    }
}

impl DivProps<String> {
    /// The props with each string taken by its characters.
    pub open spec fn chars(self) -> DivProps<Seq<char>> {
        DivProps {
            width: self.width,
            height: self.height,
            bg: self.bg,
            flex: self.flex,
            flex_col: self.flex_col,
            center: self.center,
            gap: self.gap,
            rounded: self.rounded,
            padding: self.padding,
            border_width: self.border_width,
            border_color: self.border_color,
            bg_color: self.bg_color,
            margin: self.margin,
            min_size: self.min_size,
            max_size: self.max_size,
            flex_item: self.flex_item,
            align: self.align,
            overflow: self.overflow,
            opacity: self.opacity,
            shadow: self.shadow,
            cursor: self.cursor,
            position: self.position,
            inset: self.inset,
            padding_sides: self.padding_sides,
            text_size: self.text_size,
            text_color: self.text_color,
            font_weight: self.font_weight,
            line_height: self.line_height,
            text_align: self.text_align,
            whitespace: self.whitespace,
            font_family: chars_of(self.font_family),
            on_click: self.on_click,
            focusable: self.focusable,
            tab_index: self.tab_index,
            tab_stop: self.tab_stop,
            key: chars_of(self.key),
        }
    }

    /// A new div, with nothing set.
    pub fn new() -> (props: Self)
        ensures
            props == Self::initial(),
    {
        DivProps {
            width: Float32 { bits: 0 },
            height: Float32 { bits: 0 },
            bg: None,
            flex: false,
            flex_col: false,
            center: false,
            gap: Float32 { bits: 0 },
            rounded: Float32 { bits: 0 },
            padding: Float32 { bits: 0 },
            border_width: Float32 { bits: 0 },
            border_color: None,
            bg_color: None,
            margin: None,
            min_size: None,
            max_size: None,
            flex_item: None,
            align: None,
            overflow: None,
            opacity: None,
            shadow: None,
            cursor: None,
            position: None,
            inset: None,
            padding_sides: None,
            text_size: None,
            text_color: None,
            font_weight: None,
            line_height: None,
            text_align: None,
            whitespace: None,
            font_family: None,
            on_click: None,
            focusable: None,
            tab_index: None,
            tab_stop: None,
            key: None,
        }
    }

    /// Applies a setter.
    pub fn apply(&mut self, setter: Setter<String>)
        ensures
            final(self).chars() == old(self).chars().with(setter.chars()),
    {
        match setter {
            Setter::Size(w, h) => {
                self.width = w;
                self.height = h;
            },
            Setter::Bg(c) => self.bg = Some(c),
            Setter::Flex(col) => {
                self.flex = true;
                self.flex_col = col != 0;
            },
            Setter::Center => self.center = true,
            Setter::Gap(v) => self.gap = v,
            Setter::Rounded(v) => self.rounded = v,
            Setter::OnClick(id) => self.on_click = Some(id),
            Setter::Key(k) => self.key = Some(k),
            Setter::Padding(v) => self.padding = v,
            Setter::Border(w, c) => {
                self.border_width = w;
                self.border_color = Some(c);
            },
            Setter::BgColor(c) => self.bg_color = Some(c),
            Setter::Margin(s) => self.margin = Some(s),
            Setter::MinSize(s) => self.min_size = Some(s),
            Setter::MaxSize(s) => self.max_size = Some(s),
            Setter::FlexItem(g, s, b) => self.flex_item = Some((g, s, b)),
            Setter::Align(a) => self.align = Some(a),
            Setter::Overflow(o) => self.overflow = Some(o),
            Setter::Opacity(v) => self.opacity = Some(v),
            Setter::Shadow(s) => self.shadow = Some(s),
            Setter::Cursor(id) => self.cursor = Some(id),
            Setter::Position(id) => self.position = Some(id),
            Setter::Inset(s) => self.inset = Some(s),
            Setter::PaddingSides(s) => self.padding_sides = Some(s),
            Setter::TextSize(v) => self.text_size = Some(v),
            Setter::TextColor(c) => self.text_color = Some(c),
            Setter::FontWeight(w) => {
                self.font_weight = Some(
                    if w < FONT_WEIGHT_MIN {
                        FONT_WEIGHT_MIN
                    } else if w > FONT_WEIGHT_MAX {
                        FONT_WEIGHT_MAX
                    } else {
                        w
                    },
                );
            },
            Setter::LineHeight(v) => {
                self.line_height = if v < 0 {
                    None
                } else {
                    Some(v)
                };
            },
            Setter::TextAlign(id) => self.text_align = Some(id),
            Setter::Whitespace(id) => self.whitespace = Some(id),
            Setter::FontFamily(f) => self.font_family = Some(f),
            Setter::Focusable(mode) => self.focusable = Some(mode != 0),
            Setter::TabIndex(index) => self.tab_index = Some(index as isize),
            Setter::TabStop(mode) => self.tab_stop = Some(mode != 0),
        }
    }
}

impl Setter<String> {
    /// The setter with its string, if any, taken by its characters.
    pub open spec fn chars(self) -> Setter<Seq<char>> {
        match self {
            Setter::Size(w, h) => Setter::Size(w, h),
            Setter::Bg(c) => Setter::Bg(c),
            Setter::Flex(col) => Setter::Flex(col),
            Setter::Center => Setter::Center,
            Setter::Gap(v) => Setter::Gap(v),
            Setter::Rounded(v) => Setter::Rounded(v),
            Setter::OnClick(id) => Setter::OnClick(id),
            Setter::Key(k) => Setter::Key(k@),
            Setter::Padding(v) => Setter::Padding(v),
            Setter::Border(w, c) => Setter::Border(w, c),
            Setter::BgColor(c) => Setter::BgColor(c),
            Setter::Margin(s) => Setter::Margin(s),
            Setter::MinSize(s) => Setter::MinSize(s),
            Setter::MaxSize(s) => Setter::MaxSize(s),
            Setter::FlexItem(g, s, b) => Setter::FlexItem(g, s, b),
            Setter::Align(a) => Setter::Align(a),
            Setter::Overflow(o) => Setter::Overflow(o),
            Setter::Opacity(v) => Setter::Opacity(v),
            Setter::Shadow(s) => Setter::Shadow(s),
            Setter::Cursor(id) => Setter::Cursor(id),
            Setter::Position(id) => Setter::Position(id),
            Setter::Inset(s) => Setter::Inset(s),
            Setter::PaddingSides(s) => Setter::PaddingSides(s),
            Setter::TextSize(v) => Setter::TextSize(v),
            Setter::TextColor(c) => Setter::TextColor(c),
            Setter::FontWeight(w) => Setter::FontWeight(w),
            Setter::LineHeight(v) => Setter::LineHeight(v),
            Setter::TextAlign(id) => Setter::TextAlign(id),
            Setter::Whitespace(id) => Setter::Whitespace(id),
            Setter::FontFamily(f) => Setter::FontFamily(f@),
            Setter::Focusable(mode) => Setter::Focusable(mode),
            Setter::TabIndex(index) => Setter::TabIndex(index),
            Setter::TabStop(mode) => Setter::TabStop(mode),
        }
    }
}

impl Command<String> {
    /// The command with its string, if any, taken by its characters.
    pub open spec fn chars(self) -> Command<Seq<char>> {
        match self {
            Command::Div => Command::Div,
            Command::Text { content, color, size } => Command::Text {
                content: content@,
                color,
                size,
            },
            Command::Apply(s) => Command::Apply(s.chars()),
            Command::AddChild => Command::AddChild,
            Command::SetRoot => Command::SetRoot,
        }
    }
}

impl UiNode {
    /// The tree the node stands for.
    pub open spec fn tree(self) -> Tree
        decreases self,
    {
        match self {
            UiNode::Div { props, children } => Tree::Div {
                props: props.chars(),
                children: Seq::new(
                    children@.len(),
                    |i: int|
                        if 0 <= i < children@.len() {
                            children@[i].tree()
                        } else {
                            arbitrary()
                        },
                ),
            },
            UiNode::Text { content, color, size } => Tree::Text { content: content@, color, size },
        }
    }
}

/// The trees that a list of nodes stands for.
pub open spec fn trees(nodes: Seq<UiNode>) -> Seq<Tree> {
    nodes.map_values(|n: UiNode| n.tree())
}

/// A div stands for its props over the trees of its children.
pub proof fn lemma_div_tree(props: DivProps<String>, children: Vec<UiNode>)
    ensures
        (UiNode::Div { props, children }).tree() == (Tree::Div {
            props: props.chars(),
            children: trees(children@),
        }),
{
    let t = (UiNode::Div { props, children }).tree();
    assert(t->children =~= trees(children@));
}

} // verus!
