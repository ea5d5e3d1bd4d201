//! From the props of a div to what the renderer is asked for.

use vstd::prelude::*;
use vstd::string::*;

use crate::abi::{
    ALIGN_CENTER, ALIGN_DEFAULT, ALIGN_END, ALIGN_START, ALIGN_STRETCH, CURSOR_ARROW,
    CURSOR_COL_RESIZE, CURSOR_CROSSHAIR, CURSOR_EW_RESIZE, CURSOR_GRAB, CURSOR_GRABBING,
    CURSOR_NONE, CURSOR_NOT_ALLOWED, CURSOR_NS_RESIZE, CURSOR_POINTER, CURSOR_ROW_RESIZE,
    CURSOR_TEXT, JUSTIFY_CENTER, JUSTIFY_DEFAULT, JUSTIFY_END, JUSTIFY_SPACE_AROUND,
    JUSTIFY_SPACE_BETWEEN, JUSTIFY_START, OVERFLOW_HIDDEN, OVERFLOW_SCROLL, OVERFLOW_VISIBLE,
    POSITION_ABSOLUTE, POSITION_RELATIVE, TEXT_ALIGN_CENTER, TEXT_ALIGN_DEFAULT,
    TEXT_ALIGN_JUSTIFY, TEXT_ALIGN_LEFT, TEXT_ALIGN_RIGHT, WHITESPACE_DEFAULT, WHITESPACE_NORMAL,
    WHITESPACE_NOWRAP, WHITESPACE_PRE, WHITESPACE_PRE_WRAP,
};
use crate::node::{DivProps, Rgb, Rgba, Sides, chars_of};
use crate::reader::Float32;

verus! {

/// How children line up across the main axis.
#[derive(Clone, Copy, Debug, PartialEq, Eq, Structural)]
pub enum AlignItems {
    Start,
    Center,
    End,
    Stretch,
}

/// How children spread along the main axis.
#[derive(Clone, Copy, Debug, PartialEq, Eq, Structural)]
pub enum JustifyContent {
    Start,
    Center,
    End,
    SpaceBetween,
    SpaceAround,
}

/// What happens to content that does not fit.
#[derive(Clone, Copy, Debug, PartialEq, Eq, Structural)]
pub enum Overflow {
    Visible,
    Hidden,
    Scroll,
}

/// The shape of the mouse cursor.
#[derive(Clone, Copy, Debug, PartialEq, Eq, Structural)]
pub enum CursorStyle {
    Arrow,
    PointingHand,
    IBeam,
    Crosshair,
    OpenHand,
    ClosedHand,
    OperationNotAllowed,
    ResizeLeftRight,
    ResizeUpDown,
    ResizeColumn,
    ResizeRow,
    Hidden,
}

/// How lines of text line up.
#[derive(Clone, Copy, Debug, PartialEq, Eq, Structural)]
pub enum TextAlign {
    Left,
    Center,
    Right,
}

/// Whether lines of text wrap.
#[derive(Clone, Copy, Debug, PartialEq, Eq, Structural)]
pub enum WhiteSpace {
    Normal,
    Nowrap,
}

/// How a div is positioned.
#[derive(Clone, Copy, Debug, PartialEq, Eq, Structural)]
pub enum Position {
    Relative,
    Absolute,
}

/// A length in pixels, or one that the layout picks.
#[derive(Clone, Copy, Debug, PartialEq, Eq, Structural)]
pub enum Length {
    Px(i32),
    Auto,
}

/// A background: `0xRRGGBB`, or `0xRRGGBBAA` with an alpha.
#[derive(Clone, Copy, Debug, PartialEq, Eq, Structural)]
pub enum Fill {
    Opaque(u32),
    Translucent(u32),
}

/// The padding of a div.
#[derive(Clone, Copy, Debug, PartialEq, Eq)]
pub enum Padding {
    Unset,
    Uniform(Float32),
    PerSide(Sides),
}

/// A box shadow with its color packed as `0xRRGGBBAA`.
#[derive(Clone, Copy, Debug, PartialEq, Eq, Structural)]
pub struct BoxShadow {
    pub x: i32,
    pub y: i32,
    pub blur: i32,
    pub spread: i32,
    pub color: u32,
}

/// The box of a div: its size, its edges and how it is painted.
#[derive(Clone, Copy, Debug, PartialEq, Eq)]
pub struct BoxStyle {
    pub size_full: bool,
    pub size: Option<(Float32, Float32)>,
    pub background: Option<Fill>,
    pub rounded: Option<Float32>,
    pub padding: Padding,
    /// Width, and the color as `0xRRGGBB` if there is one.
    pub border: Option<(Float32, Option<u32>)>,
    pub margin: Option<Sides>,
    pub min_width: Option<i32>,
    pub min_height: Option<i32>,
    pub max_width: Option<i32>,
    pub max_height: Option<i32>,
    /// In thousandths.
    pub opacity: Option<i32>,
    pub shadow: Option<BoxShadow>,
    pub cursor: Option<CursorStyle>,
}

/// How a div lays out its children and is laid out among its siblings.
#[derive(Clone, Copy, Debug, PartialEq, Eq)]
pub struct LayoutStyle {
    pub flex: bool,
    pub flex_col: bool,
    pub gap: Option<Float32>,
    /// Grow and shrink in thousandths, and the basis.
    pub flex_item: Option<(i32, i32, Length)>,
    pub align_items: Option<AlignItems>,
    pub justify_content: Option<JustifyContent>,
    pub overflow_x: Option<Overflow>,
    pub overflow_y: Option<Overflow>,
    pub position: Option<Position>,
    /// Top, right, bottom, left.
    pub inset: Option<(Length, Length, Length, Length)>,
}

/// What the texts below a div inherit.
#[derive(Debug)]
pub struct TextStyle<S> {
    pub font_size: Option<i32>,
    /// As `0xRRGGBBAA`.
    pub color: Option<u32>,
    pub font_weight: Option<i32>,
    /// In thousandths of a pixel.
    pub line_height: Option<i32>,
    pub text_align: Option<TextAlign>,
    pub white_space: Option<WhiteSpace>,
    pub font_family: Option<S>,
}

impl TextStyle<String> {
    /// The style with its string taken by its characters.
    pub open spec fn chars(self) -> TextStyle<Seq<char>> {
        TextStyle {
            font_size: self.font_size,
            color: self.color,
            font_weight: self.font_weight,
            line_height: self.line_height,
            text_align: self.text_align,
            white_space: self.white_space,
            font_family: chars_of(self.font_family),
        }
    }
}

/// A color packed as `0xRRGGBB`.
pub open spec fn packed_rgb(c: Rgb) -> u32 {
    (c.0 * 0x1_0000 + c.1 * 0x100 + c.2) as u32
}

/// A color packed as `0xRRGGBBAA`.
pub open spec fn packed_rgba(c: Rgba) -> u32 {
    (c.0 * 0x100_0000 + c.1 * 0x1_0000 + c.2 * 0x100 + c.3) as u32
}

/// A number of pixels; a negative one stands for a length the layout picks.
pub open spec fn length_of(v: i32) -> Length {
    if v >= 0 {
        Length::Px(v)
    } else {
        Length::Auto
    }
}

/// The cross-axis alignment that an id names.
pub open spec fn align_of(id: i32) -> Option<AlignItems> {
    if id == ALIGN_START {
        Some(AlignItems::Start)
    } else if id == ALIGN_CENTER {
        Some(AlignItems::Center)
    } else if id == ALIGN_END {
        Some(AlignItems::End)
    } else if id == ALIGN_STRETCH {
        Some(AlignItems::Stretch)
    } else {
        None
    }
}

/// The main-axis distribution that an id names.
pub open spec fn justify_of(id: i32) -> Option<JustifyContent> {
    if id == JUSTIFY_START {
        Some(JustifyContent::Start)
    } else if id == JUSTIFY_CENTER {
        Some(JustifyContent::Center)
    } else if id == JUSTIFY_END {
        Some(JustifyContent::End)
    } else if id == JUSTIFY_SPACE_BETWEEN {
        Some(JustifyContent::SpaceBetween)
    } else if id == JUSTIFY_SPACE_AROUND {
        Some(JustifyContent::SpaceAround)
    } else {
        None
    }
}

/// The overflow that an id names.
pub open spec fn overflow_of(id: i32) -> Option<Overflow> {
    if id == OVERFLOW_VISIBLE {
        Some(Overflow::Visible)
    } else if id == OVERFLOW_HIDDEN {
        Some(Overflow::Hidden)
    } else if id == OVERFLOW_SCROLL {
        Some(Overflow::Scroll)
    } else {
        None
    }
}

/// The cursor that an id names.
pub open spec fn cursor_of(id: i32) -> Option<CursorStyle> {
    if id == CURSOR_ARROW {
        Some(CursorStyle::Arrow)
    } else if id == CURSOR_POINTER {
        Some(CursorStyle::PointingHand)
    } else if id == CURSOR_TEXT {
        Some(CursorStyle::IBeam)
    } else if id == CURSOR_CROSSHAIR {
        Some(CursorStyle::Crosshair)
    } else if id == CURSOR_GRAB {
        Some(CursorStyle::OpenHand)
    } else if id == CURSOR_GRABBING {
        Some(CursorStyle::ClosedHand)
    } else if id == CURSOR_NOT_ALLOWED {
        Some(CursorStyle::OperationNotAllowed)
    } else if id == CURSOR_EW_RESIZE {
        Some(CursorStyle::ResizeLeftRight)
    } else if id == CURSOR_NS_RESIZE {
        Some(CursorStyle::ResizeUpDown)
    } else if id == CURSOR_COL_RESIZE {
        Some(CursorStyle::ResizeColumn)
    } else if id == CURSOR_ROW_RESIZE {
        Some(CursorStyle::ResizeRow)
    } else if id == CURSOR_NONE {
        Some(CursorStyle::Hidden)
    } else {
        None
    }
}

/// The text alignment that an id names. The renderer cannot justify, so
/// justified text is left-aligned.
pub open spec fn text_align_of(id: i32) -> Option<TextAlign> {
    if id == TEXT_ALIGN_LEFT || id == TEXT_ALIGN_JUSTIFY {
        Some(TextAlign::Left)
    } else if id == TEXT_ALIGN_CENTER {
        Some(TextAlign::Center)
    } else if id == TEXT_ALIGN_RIGHT {
        Some(TextAlign::Right)
    } else {
        None
    }
}

/// The wrapping that a whitespace id names. Preserved whitespace is a matter of
/// the text itself; the id only says whether it wraps.
pub open spec fn white_space_of(id: i32) -> Option<WhiteSpace> {
    if id == WHITESPACE_NORMAL || id == WHITESPACE_PRE_WRAP {
        Some(WhiteSpace::Normal)
    } else if id == WHITESPACE_NOWRAP || id == WHITESPACE_PRE {
        Some(WhiteSpace::Nowrap)
    } else {
        None
    }
}

/// The position mode that an id names.
pub open spec fn position_of(id: i32) -> Option<Position> {
    if id == POSITION_ABSOLUTE {
        Some(Position::Absolute)
    } else if id == POSITION_RELATIVE {
        Some(Position::Relative)
    } else {
        None
    }
}

/// A number that counts only if it is greater than zero.
pub open spec fn positive(v: Float32) -> Option<Float32> {
    if v.is_positive_spec() {
        Some(v)
    } else {
        None
    }
}

/// A number of pixels that counts only if it is not negative.
pub open spec fn not_negative(v: i32) -> Option<i32> {
    if v >= 0 {
        Some(v)
    } else {
        None
    }
}

/// The box of a div with these props. A background with an alpha wins over one
/// without, padding per side over uniform padding, and the pointer of a div
/// that can be clicked over the cursor it asks for.
pub open spec fn box_style<S>(p: DivProps<S>, fill: bool) -> BoxStyle {
    BoxStyle {
        size_full: fill,
        size: if p.width.is_positive_spec() && p.height.is_positive_spec() {
            Some((p.width, p.height))
        } else {
            None
        },
        background: match (p.bg_color, p.bg) {
            (Some(c), _) => Some(Fill::Translucent(packed_rgba(c))),
            (None, Some(c)) => Some(Fill::Opaque(packed_rgb(c))),
            (None, None) => None,
        },
        rounded: positive(p.rounded),
        padding: match p.padding_sides {
            Some(s) => Padding::PerSide(s),
            None => if p.padding.is_positive_spec() {
                Padding::Uniform(p.padding)
            } else {
                Padding::Unset
            },
        },
        border: if p.border_width.is_positive_spec() {
            Some(
                (
                    p.border_width,
                    match p.border_color {
                        Some(c) => Some(packed_rgb(c)),
                        None => None,
                    },
                ),
            )
        } else {
            None
        },
        margin: p.margin,
        min_width: match p.min_size {
            Some((w, _)) => not_negative(w),
            None => None,
        },
        min_height: match p.min_size {
            Some((_, h)) => not_negative(h),
            None => None,
        },
        max_width: match p.max_size {
            Some((w, _)) => not_negative(w),
            None => None,
        },
        max_height: match p.max_size {
            Some((_, h)) => not_negative(h),
            None => None,
        },
        opacity: p.opacity,
        shadow: match p.shadow {
            Some(s) => Some(
                BoxShadow {
                    x: s.x,
                    y: s.y,
                    blur: s.blur,
                    spread: s.spread,
                    color: packed_rgba(s.color),
                },
            ),
            None => None,
        },
        cursor: match (p.on_click, p.cursor) {
            (Some(_), _) => Some(CursorStyle::PointingHand),
            (None, Some(id)) => cursor_of(id),
            (None, None) => None,
        },
    }
}

/// The layout of a div with these props. A direction counts only on a flex
/// container, and centering yields to an alignment or a distribution that is
/// asked for by id.
pub open spec fn layout_style<S>(p: DivProps<S>) -> LayoutStyle {
    LayoutStyle {
        flex: p.flex,
        flex_col: p.flex && p.flex_col,
        gap: positive(p.gap),
        flex_item: match p.flex_item {
            Some((grow, shrink, basis)) => Some((grow, shrink, length_of(basis))),
            None => None,
        },
        align_items: match p.align {
            Some((a, _)) if align_of(a) is Some => align_of(a),
            _ => if p.center {
                Some(AlignItems::Center)
            } else {
                None
            },
        },
        justify_content: match p.align {
            Some((_, j)) if justify_of(j) is Some => justify_of(j),
            _ => if p.center {
                Some(JustifyContent::Center)
            } else {
                None
            },
        },
        overflow_x: match p.overflow {
            Some((x, _)) => overflow_of(x),
            None => None,
        },
        overflow_y: match p.overflow {
            Some((_, y)) => overflow_of(y),
            None => None,
        },
        position: match p.position {
            Some(id) => position_of(id),
            None => None,
        },
        inset: match p.inset {
            Some((top, right, bottom, left)) => Some(
                (length_of(top), length_of(right), length_of(bottom), length_of(left)),
            ),
            None => None,
        },
    }
}

/// Whether a div says anything about the texts below it.
pub open spec fn has_text_style<S>(p: DivProps<S>) -> bool {
    ||| p.text_size is Some
    ||| p.text_color is Some
    ||| p.font_weight is Some
    ||| p.line_height is Some
    ||| p.text_align is Some
    ||| p.whitespace is Some
    ||| p.font_family is Some
}

/// What the texts below a div with these props inherit from it.
pub open spec fn text_style<S>(p: DivProps<S>) -> Option<TextStyle<S>> {
    if has_text_style(p) {
        Some(
            TextStyle {
                font_size: p.text_size,
                color: match p.text_color {
                    Some(c) => Some(packed_rgba(c)),
                    None => None,
                },
                font_weight: p.font_weight,
                line_height: p.line_height,
                text_align: match p.text_align {
                    Some(id) => text_align_of(id),
                    None => None,
                },
                white_space: match p.whitespace {
                    Some(id) => white_space_of(id),
                    None => None,
                },
                font_family: p.font_family,
            },
        )
    } else {
        None
    }
}

/// Packs a color as `0xRRGGBB`.
pub fn pack_rgb(c: Rgb) -> (packed: u32)
    ensures
        packed == packed_rgb(c),
{
    c.0 as u32 * 0x1_0000 + c.1 as u32 * 0x100 + c.2 as u32
}

/// Packs a color as `0xRRGGBBAA`.
pub fn pack_rgba(c: Rgba) -> (packed: u32)
    ensures
        packed == packed_rgba(c),
{
    c.0 as u32 * 0x100_0000 + c.1 as u32 * 0x1_0000 + c.2 as u32 * 0x100 + c.3 as u32
}

/// A number of pixels; a negative one stands for a length the layout picks.
pub fn px_or_auto(v: i32) -> (length: Length)
    ensures
        length == length_of(v),
{
    if v >= 0 {
        Length::Px(v)
    } else {
        Length::Auto
    }
}

/// The cross-axis alignment that an id names. The default and unknown ids name
/// none.
pub fn map_align_items(id: i32) -> (align: Option<AlignItems>)
    ensures
        align == align_of(id),
{
    match id {
        ALIGN_DEFAULT => None,
        ALIGN_START => Some(AlignItems::Start),
        ALIGN_CENTER => Some(AlignItems::Center),
        ALIGN_END => Some(AlignItems::End),
        ALIGN_STRETCH => Some(AlignItems::Stretch),
        _ => None,
    }
}

/// The main-axis distribution that an id names. The default and unknown ids
/// name none.
pub fn map_justify_content(id: i32) -> (justify: Option<JustifyContent>)
    ensures
        justify == justify_of(id),
{
    match id {
        JUSTIFY_DEFAULT => None,
        JUSTIFY_START => Some(JustifyContent::Start),
        JUSTIFY_CENTER => Some(JustifyContent::Center),
        JUSTIFY_END => Some(JustifyContent::End),
        JUSTIFY_SPACE_BETWEEN => Some(JustifyContent::SpaceBetween),
        JUSTIFY_SPACE_AROUND => Some(JustifyContent::SpaceAround),
        _ => None,
    }
}

/// The overflow that an id names. Unknown ids name none.
pub fn map_overflow(id: i32) -> (overflow: Option<Overflow>)
    ensures
        overflow == overflow_of(id),
{
    match id {
        OVERFLOW_VISIBLE => Some(Overflow::Visible),
        OVERFLOW_HIDDEN => Some(Overflow::Hidden),
        OVERFLOW_SCROLL => Some(Overflow::Scroll),
        _ => None,
    }
}

/// The cursor that an id names. Unknown ids name none.
pub fn map_cursor(id: i32) -> (cursor: Option<CursorStyle>)
    ensures
        cursor == cursor_of(id),
{
    match id {
        CURSOR_ARROW => Some(CursorStyle::Arrow),
        CURSOR_POINTER => Some(CursorStyle::PointingHand),
        CURSOR_TEXT => Some(CursorStyle::IBeam),
        CURSOR_CROSSHAIR => Some(CursorStyle::Crosshair),
        CURSOR_GRAB => Some(CursorStyle::OpenHand),
        CURSOR_GRABBING => Some(CursorStyle::ClosedHand),
        CURSOR_NOT_ALLOWED => Some(CursorStyle::OperationNotAllowed),
        CURSOR_EW_RESIZE => Some(CursorStyle::ResizeLeftRight),
        CURSOR_NS_RESIZE => Some(CursorStyle::ResizeUpDown),
        CURSOR_COL_RESIZE => Some(CursorStyle::ResizeColumn),
        CURSOR_ROW_RESIZE => Some(CursorStyle::ResizeRow),
        CURSOR_NONE => Some(CursorStyle::Hidden),
        _ => None,
    }
}

/// The text alignment that an id names. The default and unknown ids name none.
pub fn map_text_align(id: i32) -> (align: Option<TextAlign>)
    ensures
        align == text_align_of(id),
{
    match id {
        TEXT_ALIGN_DEFAULT => None,
        TEXT_ALIGN_LEFT => Some(TextAlign::Left),
        TEXT_ALIGN_CENTER => Some(TextAlign::Center),
        TEXT_ALIGN_RIGHT => Some(TextAlign::Right),
        TEXT_ALIGN_JUSTIFY => Some(TextAlign::Left),
        _ => None,
    }
}

/// The wrapping that a whitespace id names. The default and unknown ids name
/// none.
pub fn map_whitespace(id: i32) -> (white_space: Option<WhiteSpace>)
    ensures
        white_space == white_space_of(id),
{
    match id {
        WHITESPACE_DEFAULT => None,
        WHITESPACE_NORMAL => Some(WhiteSpace::Normal),
        WHITESPACE_NOWRAP => Some(WhiteSpace::Nowrap),
        WHITESPACE_PRE => Some(WhiteSpace::Nowrap),
        WHITESPACE_PRE_WRAP => Some(WhiteSpace::Normal),
        _ => None,
    }
}

/// The position mode that an id names. Unknown ids name none.
pub fn map_position(id: i32) -> (position: Option<Position>)
    ensures
        position == position_of(id),
{
    match id {
        POSITION_ABSOLUTE => Some(Position::Absolute),
        POSITION_RELATIVE => Some(Position::Relative),
        _ => None,
    }
}

fn only_positive(v: Float32) -> (r: Option<Float32>)
    ensures
        r == positive(v),
{
    if v.is_positive() {
        Some(v)
    } else {
        None
    }
}

fn only_not_negative(v: i32) -> (r: Option<i32>)
    ensures
        r == not_negative(v),
{
    if v >= 0 {
        Some(v)
    } else {
        None
    }
}

/// The box of a div.
pub fn box_style_of(p: &DivProps<String>, fill: bool) -> (style: BoxStyle)
    ensures
        style == box_style(p.chars(), fill),
{
    let size = if p.width.is_positive() && p.height.is_positive() {
        Some((p.width, p.height))
    } else {
        None
    };
    let background = match (p.bg_color, p.bg) {
        (Some(c), _) => Some(Fill::Translucent(pack_rgba(c))),
        (None, Some(c)) => Some(Fill::Opaque(pack_rgb(c))),
        (None, None) => None,
    };
    let padding = match p.padding_sides {
        Some(s) => Padding::PerSide(s),
        None => if p.padding.is_positive() {
            Padding::Uniform(p.padding)
        } else {
            Padding::Unset
        },
    };
    let border_color = match p.border_color {
        Some(c) => Some(pack_rgb(c)),
        None => None,
    };
    let border = if p.border_width.is_positive() {
        Some((p.border_width, border_color))
    } else {
        None
    };
    let (min_width, min_height) = match p.min_size {
        Some((w, h)) => (only_not_negative(w), only_not_negative(h)),
        None => (None, None),
    };
    let (max_width, max_height) = match p.max_size {
        Some((w, h)) => (only_not_negative(w), only_not_negative(h)),
        None => (None, None),
    };
    let shadow = match p.shadow {
        Some(s) => Some(
            BoxShadow {
                x: s.x,
                y: s.y,
                blur: s.blur,
                spread: s.spread,
                color: pack_rgba(s.color),
            },
        ),
        None => None,
    };
    let cursor = match (p.on_click, p.cursor) {
        (Some(_), _) => Some(CursorStyle::PointingHand),
        (None, Some(id)) => map_cursor(id),
        (None, None) => None,
    };
    BoxStyle {
        size_full: fill,
        size,
        background,
        rounded: only_positive(p.rounded),
        padding,
        border,
        margin: p.margin,
        min_width,
        min_height,
        max_width,
        max_height,
        opacity: p.opacity,
        shadow,
        cursor,
    }
}

/// The layout of a div.
pub fn layout_style_of(p: &DivProps<String>) -> (style: LayoutStyle)
    ensures
        style == layout_style(p.chars()),
{
    let flex_item = match p.flex_item {
        Some((grow, shrink, basis)) => Some((grow, shrink, px_or_auto(basis))),
        None => None,
    };
    let (mut align_items, mut justify_content) = if p.center {
        (Some(AlignItems::Center), Some(JustifyContent::Center))
    } else {
        (None, None)
    };
    if let Some((a, j)) = p.align {
        if let Some(v) = map_align_items(a) {
            align_items = Some(v);
        }
        if let Some(v) = map_justify_content(j) {
            justify_content = Some(v);
        }
    }
    let (overflow_x, overflow_y) = match p.overflow {
        Some((x, y)) => (map_overflow(x), map_overflow(y)),
        None => (None, None),
    };
    let position = match p.position {
        Some(id) => map_position(id),
        None => None,
    };
    let inset = match p.inset {
        Some((top, right, bottom, left)) => Some(
            (px_or_auto(top), px_or_auto(right), px_or_auto(bottom), px_or_auto(left)),
        ),
        None => None,
    };
    LayoutStyle {
        flex: p.flex,
        flex_col: p.flex && p.flex_col,
        gap: only_positive(p.gap),
        flex_item,
        align_items,
        justify_content,
        overflow_x,
        overflow_y,
        position,
        inset,
    }
}

/// What the texts below a div inherit from it; `None` when it says nothing
/// about them.
pub fn text_style_of(p: &DivProps<String>) -> (style: Option<TextStyle<String>>)
    ensures
        match text_style(p.chars()) {
            Some(s) => style matches Some(r) && r.chars() == s,
            None => style is None,
        },
{
    if p.text_size.is_none() && p.text_color.is_none() && p.font_weight.is_none()
        && p.line_height.is_none() && p.text_align.is_none() && p.whitespace.is_none()
        && p.font_family.is_none() {
        return None;
    }
    let color = match p.text_color {
        Some(c) => Some(pack_rgba(c)),
        None => None,
    };
    let text_align = match p.text_align {
        Some(id) => map_text_align(id),
        None => None,
    };
    let white_space = match p.whitespace {
        Some(id) => map_whitespace(id),
        None => None,
    };
    let font_family = match &p.font_family {
        Some(family) => Some(family.clone()),
        None => None,
    };
    Some(
        TextStyle {
            font_size: p.text_size,
            color,
            font_weight: p.font_weight,
            line_height: p.line_height,
            text_align,
            white_space,
            font_family,
        },
    )
}

} // verus!
