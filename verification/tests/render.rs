//! From committed trees to elements.

use gpui_sys::abi::{
    ALIGN_CENTER, ALIGN_DEFAULT, ALIGN_END, ALIGN_START, ALIGN_STRETCH, BUFFER_VERSION,
    CURSOR_ARROW, CURSOR_COL_RESIZE, CURSOR_CROSSHAIR, CURSOR_EW_RESIZE, CURSOR_GRAB,
    CURSOR_GRABBING, CURSOR_NONE, CURSOR_NOT_ALLOWED, CURSOR_NS_RESIZE, CURSOR_POINTER,
    CURSOR_ROW_RESIZE, CURSOR_TEXT, GPUI_STATUS_OK, JUSTIFY_CENTER, JUSTIFY_DEFAULT, JUSTIFY_END,
    JUSTIFY_SPACE_AROUND, JUSTIFY_SPACE_BETWEEN, JUSTIFY_START, OP_ADD_CHILD, OP_DIV, OP_SET_ALIGN,
    OP_SET_BG, OP_SET_BG_COLOR, OP_SET_BORDER, OP_SET_CENTER, OP_SET_CURSOR, OP_SET_FLEX,
    OP_SET_FLEX_ITEM, OP_SET_FOCUSABLE, OP_SET_FONT_FAMILY, OP_SET_FONT_WEIGHT, OP_SET_GAP,
    OP_SET_INSET, OP_SET_KEY, OP_SET_MAX_SIZE, OP_SET_MIN_SIZE, OP_SET_ON_CLICK, OP_SET_OVERFLOW,
    OP_SET_PADDING, OP_SET_PADDING_SIDES, OP_SET_POSITION, OP_SET_ROOT, OP_SET_ROUNDED,
    OP_SET_SHADOW, OP_SET_SIZE, OP_SET_TAB_INDEX, OP_SET_TAB_STOP, OP_SET_TEXT_ALIGN,
    OP_SET_TEXT_COLOR, OP_TEXT, OVERFLOW_HIDDEN, OVERFLOW_SCROLL, OVERFLOW_VISIBLE,
    POSITION_ABSOLUTE, POSITION_RELATIVE, TEXT_ALIGN_CENTER, TEXT_ALIGN_DEFAULT,
    TEXT_ALIGN_JUSTIFY, TEXT_ALIGN_LEFT, TEXT_ALIGN_RIGHT, WHITESPACE_DEFAULT, WHITESPACE_NORMAL,
    WHITESPACE_NOWRAP, WHITESPACE_PRE, WHITESPACE_PRE_WRAP,
};
use gpui_sys::reader::Float32;
use gpui_sys::render::{
    key_element_id, render_view, text_selector, DivElement, Element, Identity,
};
use gpui_sys::style::{
    map_align_items, map_cursor, map_justify_content, map_overflow, map_position, map_text_align,
    map_whitespace, pack_rgb, pack_rgba, px_or_auto, AlignItems, BoxShadow, CursorStyle, Fill,
    JustifyContent, Length, Overflow, Padding, Position, TextAlign, WhiteSpace,
};
use gpui_sys::views::{gpui_build_tree, Views};

/// A command buffer under construction.
struct Buf(Vec<u8>);

impl Buf {
    fn new() -> Self {
        let mut b = Buf(b"GPUI".to_vec());
        b.i32(BUFFER_VERSION);
        b
    }

    fn op(&mut self, opcode: i32) -> &mut Self {
        self.u8(opcode as u8)
    }

    fn u8(&mut self, v: u8) -> &mut Self {
        self.0.push(v);
        self
    }

    fn i32(&mut self, v: i32) -> &mut Self {
        self.0.extend_from_slice(&v.to_le_bytes());
        self
    }

    fn f32(&mut self, v: f32) -> &mut Self {
        self.i32(v.to_bits() as i32)
    }

    fn str(&mut self, s: &str) -> &mut Self {
        self.i32(s.len() as i32);
        self.0.extend_from_slice(s.as_bytes());
        self
    }

    fn key(&mut self, key: &str) -> &mut Self {
        self.op(OP_SET_KEY).str(key)
    }

    fn scrolling(&mut self) -> &mut Self {
        self.op(OP_SET_OVERFLOW).i32(OVERFLOW_VISIBLE).i32(OVERFLOW_SCROLL)
    }

    fn focusable(&mut self) -> &mut Self {
        self.op(OP_SET_FOCUSABLE).i32(1)
    }

    fn render(&self) -> Element {
        let mut views = Views::new();
        let len = self.0.len() as i32;
        assert_eq!(gpui_build_tree(&mut views, 0, Some(&self.0), len), GPUI_STATUS_OK);
        render_view(&views, 0).unwrap()
    }

    /// The element of a root that is a div.
    fn div(&self) -> DivElement<String> {
        match self.render() {
            Element::Div { div, .. } => div,
            Element::Text { .. } => panic!("not a div"),
        }
    }
}

fn float(v: f32) -> Float32 {
    Float32 { bits: v.to_bits() }
}

fn children(element: &Element) -> &Vec<Element> {
    match element {
        Element::Div { children, .. } => children,
        Element::Text { .. } => panic!("not a div"),
    }
}

fn identity(element: &Element) -> &Identity<String> {
    match element {
        Element::Div { div, .. } => &div.identity,
        Element::Text { .. } => panic!("not a div"),
    }
}

#[test]
fn a_view_without_a_tree_renders_nothing() {
    assert!(render_view(&Views::new(), 0).is_none());
}

#[test]
fn ids_map_to_styles() {
    assert_eq!(map_align_items(ALIGN_DEFAULT), None);
    assert_eq!(map_align_items(ALIGN_START), Some(AlignItems::Start));
    assert_eq!(map_align_items(ALIGN_CENTER), Some(AlignItems::Center));
    assert_eq!(map_align_items(ALIGN_END), Some(AlignItems::End));
    assert_eq!(map_align_items(ALIGN_STRETCH), Some(AlignItems::Stretch));
    assert_eq!(map_align_items(99), None);

    assert_eq!(map_justify_content(JUSTIFY_DEFAULT), None);
    assert_eq!(map_justify_content(JUSTIFY_START), Some(JustifyContent::Start));
    assert_eq!(map_justify_content(JUSTIFY_CENTER), Some(JustifyContent::Center));
    assert_eq!(map_justify_content(JUSTIFY_END), Some(JustifyContent::End));
    assert_eq!(map_justify_content(JUSTIFY_SPACE_BETWEEN), Some(JustifyContent::SpaceBetween));
    assert_eq!(map_justify_content(JUSTIFY_SPACE_AROUND), Some(JustifyContent::SpaceAround));
    assert_eq!(map_justify_content(-1), None);

    assert_eq!(map_overflow(OVERFLOW_VISIBLE), Some(Overflow::Visible));
    assert_eq!(map_overflow(OVERFLOW_HIDDEN), Some(Overflow::Hidden));
    assert_eq!(map_overflow(OVERFLOW_SCROLL), Some(Overflow::Scroll));
    assert_eq!(map_overflow(99), None);

    assert_eq!(map_text_align(TEXT_ALIGN_DEFAULT), None);
    assert_eq!(map_text_align(TEXT_ALIGN_LEFT), Some(TextAlign::Left));
    assert_eq!(map_text_align(TEXT_ALIGN_CENTER), Some(TextAlign::Center));
    assert_eq!(map_text_align(TEXT_ALIGN_RIGHT), Some(TextAlign::Right));
    assert_eq!(map_text_align(TEXT_ALIGN_JUSTIFY), Some(TextAlign::Left));
    assert_eq!(map_text_align(99), None);

    assert_eq!(map_whitespace(WHITESPACE_DEFAULT), None);
    assert_eq!(map_whitespace(WHITESPACE_NORMAL), Some(WhiteSpace::Normal));
    assert_eq!(map_whitespace(WHITESPACE_NOWRAP), Some(WhiteSpace::Nowrap));
    assert_eq!(map_whitespace(WHITESPACE_PRE), Some(WhiteSpace::Nowrap));
    assert_eq!(map_whitespace(WHITESPACE_PRE_WRAP), Some(WhiteSpace::Normal));
    assert_eq!(map_whitespace(99), None);

    assert_eq!(map_position(POSITION_RELATIVE), Some(Position::Relative));
    assert_eq!(map_position(POSITION_ABSOLUTE), Some(Position::Absolute));
    assert_eq!(map_position(2), None);
}

#[test]
fn cursor_ids_map_to_cursors() {
    let table = [
        (CURSOR_ARROW, CursorStyle::Arrow),
        (CURSOR_POINTER, CursorStyle::PointingHand),
        (CURSOR_TEXT, CursorStyle::IBeam),
        (CURSOR_CROSSHAIR, CursorStyle::Crosshair),
        (CURSOR_GRAB, CursorStyle::OpenHand),
        (CURSOR_GRABBING, CursorStyle::ClosedHand),
        (CURSOR_NOT_ALLOWED, CursorStyle::OperationNotAllowed),
        (CURSOR_EW_RESIZE, CursorStyle::ResizeLeftRight),
        (CURSOR_NS_RESIZE, CursorStyle::ResizeUpDown),
        (CURSOR_COL_RESIZE, CursorStyle::ResizeColumn),
        (CURSOR_ROW_RESIZE, CursorStyle::ResizeRow),
        (CURSOR_NONE, CursorStyle::Hidden),
    ];
    for (id, cursor) in table {
        assert_eq!(map_cursor(id), Some(cursor));
    }
    assert_eq!(map_cursor(99), None);
}

#[test]
fn colors_and_lengths_convert() {
    assert_eq!(pack_rgb((0x12, 0x34, 0x56)), 0x123456);
    assert_eq!(pack_rgba((0xFF, 0x34, 0x56, 0x80)), 0xFF345680);
    assert_eq!(px_or_auto(0), Length::Px(0));
    assert_eq!(px_or_auto(12), Length::Px(12));
    assert_eq!(px_or_auto(-1), Length::Auto);
}

#[test]
fn a_plain_root_fills_the_space_and_asks_for_nothing_else() {
    let mut b = Buf::new();
    b.op(OP_DIV).op(OP_DIV).op(OP_ADD_CHILD).op(OP_SET_ROOT);
    let element = b.render();
    let Element::Div { div, children } = &element else { panic!("not a div") };
    assert!(div.box_style.size_full);
    assert_eq!(div.box_style.size, None);
    assert_eq!(div.box_style.background, None);
    assert_eq!(div.box_style.padding, Padding::Unset);
    assert_eq!(div.box_style.border, None);
    assert!(!div.layout.flex && !div.layout.flex_col);
    assert_eq!(div.layout.gap, None);
    assert!(div.text.is_none());
    assert!(matches!(div.identity, Identity::Anonymous));
    assert!(!div.scrolls && !div.focusable);
    let Element::Div { div: child, .. } = &children[0] else { panic!("not a div") };
    assert!(!child.box_style.size_full);
}

#[test]
fn sizes_count_only_when_both_are_positive() {
    let mut b = Buf::new();
    b.op(OP_DIV).op(OP_SET_SIZE).f32(10.0).f32(20.0).op(OP_SET_ROOT);
    assert_eq!(b.div().box_style.size, Some((float(10.0), float(20.0))));
    for (w, h) in [(0.0, 20.0), (10.0, -1.0), (f32::NAN, 20.0), (10.0, -0.0)] {
        let mut b = Buf::new();
        b.op(OP_DIV).op(OP_SET_SIZE).f32(w).f32(h).op(OP_SET_ROOT);
        assert_eq!(b.div().box_style.size, None);
    }
}

#[test]
fn positive_agrees_with_the_float_order() {
    let samples = [
        0.0,
        -0.0,
        1.0,
        -1.0,
        f32::MIN_POSITIVE,
        f32::from_bits(1),
        -f32::from_bits(1),
        f32::MAX,
        f32::MIN,
        f32::INFINITY,
        f32::NEG_INFINITY,
        f32::NAN,
        -f32::NAN,
        f32::from_bits(0x7F80_0001),
    ];
    for v in samples {
        assert_eq!(float(v).is_positive(), v > 0.0, "{v:?}");
    }
}

#[test]
fn a_background_with_alpha_wins() {
    let mut b = Buf::new();
    b.op(OP_DIV).op(OP_SET_BG).u8(1).u8(2).u8(3).op(OP_SET_ROOT);
    assert_eq!(b.div().box_style.background, Some(Fill::Opaque(0x010203)));
    let mut b = Buf::new();
    b.op(OP_DIV)
        .op(OP_SET_BG_COLOR)
        .u8(4)
        .u8(5)
        .u8(6)
        .u8(7)
        .op(OP_SET_BG)
        .u8(1)
        .u8(2)
        .u8(3)
        .op(OP_SET_ROOT);
    assert_eq!(b.div().box_style.background, Some(Fill::Translucent(0x04050607)));
}

#[test]
fn padding_per_side_wins() {
    let mut b = Buf::new();
    b.op(OP_DIV).op(OP_SET_PADDING).f32(4.0).op(OP_SET_ROOT);
    assert_eq!(b.div().box_style.padding, Padding::Uniform(float(4.0)));
    let mut b = Buf::new();
    b.op(OP_DIV)
        .op(OP_SET_PADDING_SIDES)
        .i32(1)
        .i32(2)
        .i32(3)
        .i32(4)
        .op(OP_SET_PADDING)
        .f32(4.0)
        .op(OP_SET_ROOT);
    assert_eq!(b.div().box_style.padding, Padding::PerSide((1, 2, 3, 4)));
}

#[test]
fn borders_gaps_and_corners_count_only_when_positive() {
    let mut b = Buf::new();
    b.op(OP_DIV)
        .op(OP_SET_BORDER)
        .f32(2.0)
        .u8(9)
        .u8(8)
        .u8(7)
        .op(OP_SET_GAP)
        .f32(3.0)
        .op(OP_SET_ROUNDED)
        .f32(5.0)
        .op(OP_SET_ROOT);
    let div = b.div();
    assert_eq!(div.box_style.border, Some((float(2.0), Some(0x090807))));
    assert_eq!(div.layout.gap, Some(float(3.0)));
    assert_eq!(div.box_style.rounded, Some(float(5.0)));
    let mut b = Buf::new();
    b.op(OP_DIV)
        .op(OP_SET_BORDER)
        .f32(0.0)
        .u8(9)
        .u8(8)
        .u8(7)
        .op(OP_SET_GAP)
        .f32(-3.0)
        .op(OP_SET_ROUNDED)
        .f32(0.0)
        .op(OP_SET_ROOT);
    let div = b.div();
    assert_eq!(div.box_style.border, None);
    assert_eq!(div.layout.gap, None);
    assert_eq!(div.box_style.rounded, None);
}

#[test]
fn negative_sizes_and_sides_stand_for_auto() {
    let mut b = Buf::new();
    b.op(OP_DIV)
        .op(OP_SET_MIN_SIZE)
        .i32(100)
        .i32(-1)
        .op(OP_SET_MAX_SIZE)
        .i32(-1)
        .i32(0)
        .op(OP_SET_INSET)
        .i32(10)
        .i32(-1)
        .i32(0)
        .i32(-7)
        .op(OP_SET_FLEX_ITEM)
        .i32(1500)
        .i32(500)
        .i32(-1)
        .op(OP_SET_POSITION)
        .i32(POSITION_ABSOLUTE)
        .op(OP_SET_ROOT);
    let div = b.div();
    assert_eq!(div.box_style.min_width, Some(100));
    assert_eq!(div.box_style.min_height, None);
    assert_eq!(div.box_style.max_width, None);
    assert_eq!(div.box_style.max_height, Some(0));
    assert_eq!(
        div.layout.inset,
        Some((Length::Px(10), Length::Auto, Length::Px(0), Length::Auto))
    );
    assert_eq!(div.layout.flex_item, Some((1500, 500, Length::Auto)));
    assert_eq!(div.layout.position, Some(Position::Absolute));
}

#[test]
fn centering_yields_to_an_alignment_by_id() {
    let mut b = Buf::new();
    b.op(OP_DIV).op(OP_SET_CENTER).op(OP_SET_ROOT);
    assert_eq!(b.div().layout.align_items, Some(AlignItems::Center));
    assert_eq!(b.div().layout.justify_content, Some(JustifyContent::Center));
    let mut b = Buf::new();
    b.op(OP_DIV)
        .op(OP_SET_CENTER)
        .op(OP_SET_ALIGN)
        .i32(ALIGN_END)
        .i32(JUSTIFY_DEFAULT)
        .op(OP_SET_ROOT);
    assert_eq!(b.div().layout.align_items, Some(AlignItems::End));
    assert_eq!(b.div().layout.justify_content, Some(JustifyContent::Center));
}

#[test]
fn a_flex_container_has_a_direction() {
    let mut b = Buf::new();
    b.op(OP_DIV).op(OP_SET_FLEX).u8(1).op(OP_SET_ROOT);
    assert!(b.div().layout.flex && b.div().layout.flex_col);
    let mut b = Buf::new();
    b.op(OP_DIV).op(OP_SET_FLEX).u8(0).op(OP_SET_ROOT);
    assert!(b.div().layout.flex && !b.div().layout.flex_col);
}

#[test]
fn shadows_pack_their_color() {
    let mut b = Buf::new();
    b.op(OP_DIV)
        .op(OP_SET_SHADOW)
        .i32(1)
        .i32(-2)
        .i32(3)
        .i32(-4)
        .u8(10)
        .u8(20)
        .u8(30)
        .u8(40)
        .op(OP_SET_ROOT);
    assert_eq!(
        b.div().box_style.shadow,
        Some(BoxShadow { x: 1, y: -2, blur: 3, spread: -4, color: 0x0A141E28 })
    );
}

#[test]
fn a_clickable_div_shows_the_pointer() {
    let mut b = Buf::new();
    b.op(OP_DIV).op(OP_SET_CURSOR).i32(CURSOR_TEXT).op(OP_SET_ROOT);
    assert_eq!(b.div().box_style.cursor, Some(CursorStyle::IBeam));
    let mut b = Buf::new();
    b.op(OP_DIV)
        .op(OP_SET_CURSOR)
        .i32(CURSOR_TEXT)
        .op(OP_SET_ON_CLICK)
        .i32(3)
        .op(OP_SET_ROOT);
    assert_eq!(b.div().box_style.cursor, Some(CursorStyle::PointingHand));
    assert_eq!(b.div().on_click, Some(3));
}

#[test]
fn text_styles_are_inherited_only_when_set() {
    let mut b = Buf::new();
    b.op(OP_DIV)
        .op(OP_SET_TEXT_COLOR)
        .u8(1)
        .u8(2)
        .u8(3)
        .u8(4)
        .op(OP_SET_FONT_WEIGHT)
        .i32(2000)
        .op(OP_SET_TEXT_ALIGN)
        .i32(99)
        .op(OP_SET_FONT_FAMILY)
        .str("Fira Code")
        .op(OP_SET_ROOT);
    let text = b.div().text.unwrap();
    assert_eq!(text.color, Some(0x01020304));
    assert_eq!(text.font_weight, Some(900));
    assert_eq!(text.text_align, None);
    assert_eq!(text.font_size, None);
    assert_eq!(text.font_family.as_deref(), Some("Fira Code"));
}

#[test]
fn a_text_element_keeps_its_content() {
    let mut b = Buf::new();
    b.op(OP_TEXT).str(" A\0あ ").u8(1).u8(2).u8(3).f32(14.0).op(OP_SET_ROOT);
    assert!(matches!(
        b.render(),
        Element::Text { content, color: 0x010203, size }
            if content == " A\0あ " && size == float(14.0)
    ));
}

#[test]
fn a_key_is_the_identity_whatever_else_is_set() {
    let mut b = Buf::new();
    b.op(OP_DIV)
        .key("k")
        .op(OP_SET_ON_CLICK)
        .i32(5)
        .scrolling()
        .focusable()
        .op(OP_SET_ROOT);
    let div = b.div();
    assert!(matches!(&div.identity, Identity::Key(k) if k == "k"));
    assert!(div.scrolls && div.focusable);
    assert_eq!(div.on_click, Some(5));
    assert_eq!(key_element_id("k"), "gpui_key:k");
    assert_eq!(text_selector("hello"), "text:hello");
}

#[test]
fn without_a_key_clicks_come_before_scrolling_and_scrolling_before_the_focus() {
    let mut b = Buf::new();
    b.op(OP_DIV).op(OP_SET_ON_CLICK).i32(-5).scrolling().focusable().op(OP_SET_ROOT);
    assert!(matches!(b.div().identity, Identity::Click(-5)));
    let mut b = Buf::new();
    b.op(OP_DIV).scrolling().focusable().op(OP_SET_ROOT);
    assert!(matches!(b.div().identity, Identity::Scroll(0)));
    let mut b = Buf::new();
    b.op(OP_DIV).focusable().op(OP_SET_ROOT);
    assert!(matches!(b.div().identity, Identity::Focus(0)));
}

#[test]
fn a_tab_index_or_a_tab_stop_implies_the_focus() {
    let mut b = Buf::new();
    b.op(OP_DIV).op(OP_SET_TAB_INDEX).i32(-3).op(OP_SET_ROOT);
    assert!(b.div().focusable);
    assert_eq!(b.div().tab_index, Some(-3));
    let mut b = Buf::new();
    b.op(OP_DIV).op(OP_SET_TAB_STOP).i32(0).op(OP_SET_ROOT);
    assert!(b.div().focusable);
    assert_eq!(b.div().tab_stop, Some(false));
    let mut b = Buf::new();
    b.op(OP_DIV).op(OP_SET_FOCUSABLE).i32(0).op(OP_SET_ROOT);
    assert!(!b.div().focusable);
}

#[test]
fn numbers_are_handed_out_children_first() {
    let mut b = Buf::new();
    b.op(OP_DIV).scrolling();
    b.op(OP_DIV).scrolling();
    b.op(OP_DIV).scrolling().op(OP_ADD_CHILD);
    b.op(OP_ADD_CHILD);
    b.op(OP_DIV).focusable().op(OP_ADD_CHILD);
    b.op(OP_DIV).focusable().op(OP_ADD_CHILD);
    b.op(OP_DIV).key("list").scrolling().op(OP_ADD_CHILD);
    b.op(OP_SET_ROOT);
    let element = b.render();
    let list = children(&element);
    assert!(matches!(identity(&element), Identity::Scroll(2)));
    assert!(matches!(identity(&list[0]), Identity::Scroll(1)));
    assert!(matches!(identity(&children(&list[0])[0]), Identity::Scroll(0)));
    assert!(matches!(identity(&list[1]), Identity::Focus(0)));
    assert!(matches!(identity(&list[2]), Identity::Focus(1)));
    assert!(matches!(identity(&list[3]), Identity::Key(k) if k == "list"));
}
