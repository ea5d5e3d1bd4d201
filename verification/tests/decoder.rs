//! Command buffers in, committed trees and statuses out.

use gpui_sys::abi::{
    ALIGN_CENTER, BUFFER_VERSION, CURSOR_POINTER, GPUI_STATUS_BAD_BUFFER_VERSION,
    GPUI_STATUS_DUPLICATE_KEY, GPUI_STATUS_INVALID_HANDLE, GPUI_STATUS_KEY_NOT_FOUND,
    GPUI_STATUS_NO_ROOT, GPUI_STATUS_OK, GPUI_STATUS_TRUNCATED_BUFFER, GPUI_STATUS_UNKNOWN_OPCODE,
    GPUI_STATUS_WRONG_NODE_KIND, JUSTIFY_SPACE_BETWEEN, OP_ADD_CHILD, OP_DIV, OP_SET_ALIGN,
    OP_SET_BG, OP_SET_BG_COLOR, OP_SET_BORDER, OP_SET_CENTER, OP_SET_CURSOR, OP_SET_FLEX,
    OP_SET_FLEX_ITEM, OP_SET_FOCUSABLE, OP_SET_FONT_FAMILY, OP_SET_FONT_WEIGHT, OP_SET_GAP,
    OP_SET_INSET, OP_SET_KEY, OP_SET_LINE_HEIGHT, OP_SET_MARGIN, OP_SET_MAX_SIZE, OP_SET_MIN_SIZE,
    OP_SET_ON_CLICK, OP_SET_OPACITY, OP_SET_OVERFLOW, OP_SET_PADDING, OP_SET_PADDING_SIDES,
    OP_SET_POSITION, OP_SET_ROOT, OP_SET_ROUNDED, OP_SET_SHADOW, OP_SET_SIZE, OP_SET_TAB_INDEX,
    OP_SET_TAB_STOP, OP_SET_TEXT_ALIGN, OP_SET_TEXT_COLOR, OP_SET_TEXT_SIZE, OP_SET_WHITESPACE,
    OP_TEXT, OVERFLOW_HIDDEN, OVERFLOW_SCROLL, POSITION_ABSOLUTE, TEXT_ALIGN_CENTER,
    TEXT_ALIGN_LEFT, WHITESPACE_NORMAL, WHITESPACE_NOWRAP,
};
use gpui_sys::node::{DivProps, UiNode};
use gpui_sys::reader::Float32;
use gpui_sys::views::{
    gpui_abi_probe, gpui_build_tree, gpui_debug_dump_text, gpui_update_text, Views,
};

/// A command buffer under construction.
struct Buf(Vec<u8>);

impl Buf {
    fn new() -> Self {
        let mut b = Buf(Vec::new());
        b.0.extend_from_slice(b"GPUI");
        b.u32(BUFFER_VERSION as u32);
        b
    }

    fn u8(&mut self, v: u8) -> &mut Self {
        self.0.push(v);
        self
    }

    fn u32(&mut self, v: u32) -> &mut Self {
        self.0.extend_from_slice(&v.to_le_bytes());
        self
    }

    fn i32(&mut self, v: i32) -> &mut Self {
        self.u32(v as u32)
    }

    fn f32(&mut self, v: f32) -> &mut Self {
        self.u32(v.to_bits())
    }

    fn op(&mut self, opcode: i32) -> &mut Self {
        self.u8(opcode as u8)
    }

    fn str(&mut self, s: &str) -> &mut Self {
        let bytes = s.as_bytes();
        self.u32(bytes.len() as u32);
        self.0.extend_from_slice(bytes);
        self
    }

    fn div(&mut self) -> &mut Self {
        self.op(OP_DIV)
    }

    fn text(&mut self, content: &str, r: u8, g: u8, b: u8, size: f32) -> &mut Self {
        self.op(OP_TEXT).str(content).u8(r).u8(g).u8(b).f32(size)
    }

    fn set_root(&mut self) -> &mut Self {
        self.op(OP_SET_ROOT)
    }

    fn add_child(&mut self) -> &mut Self {
        self.op(OP_ADD_CHILD)
    }

    fn build(&self, views: &mut Views, view: i32) -> i32 {
        gpui_build_tree(views, view, Some(&self.0), self.0.len() as i32)
    }

    /// The status of a build into views of its own.
    fn status(&self) -> i32 {
        self.build(&mut Views::new(), 0)
    }
}

fn value(f: Float32) -> f32 {
    f32::from_bits(f.bits)
}

fn milli(v: i32) -> f32 {
    v as f32 / 1000.0
}

/// The root of a view, which is a div.
fn root(views: &Views, view: usize) -> (&DivProps<String>, &Vec<UiNode>) {
    match views.get(view) {
        Some(UiNode::Div { props, children }) => (props, children),
        _ => panic!("view {view} has no div for its root"),
    }
}

fn as_div(node: &UiNode) -> (&DivProps<String>, &Vec<UiNode>) {
    match node {
        UiNode::Div { props, children } => (props, children),
        UiNode::Text { .. } => panic!("not a div"),
    }
}

/// The props of the root that a buffer describes.
fn built(b: &Buf) -> DivProps<String> {
    let mut views = Views::new();
    assert_eq!(b.build(&mut views, 0), GPUI_STATUS_OK);
    match gpui_sys::decode::decode_tree(&b.0) {
        Ok(UiNode::Div { props, .. }) => props,
        _ => panic!("the root is not a div"),
    }
}

// Full trees.

#[test]
fn builds_and_commits_a_full_tree() {
    let mut b = Buf::new();
    b.div()
        .op(OP_SET_BG)
        .u8(1)
        .u8(2)
        .u8(3)
        .op(OP_SET_FLEX)
        .u8(1)
        .op(OP_SET_CENTER)
        .op(OP_SET_GAP)
        .f32(7.0)
        .op(OP_SET_ROUNDED)
        .f32(8.0)
        .op(OP_SET_PADDING)
        .f32(5.0)
        .op(OP_SET_BORDER)
        .f32(2.0)
        .u8(9)
        .u8(9)
        .u8(9)
        .op(OP_SET_SIZE)
        .f32(100.0)
        .f32(50.0)
        .op(OP_SET_KEY)
        .str("root");
    b.div().op(OP_SET_ON_CLICK).i32(9).op(OP_SET_KEY).str("btn");
    b.add_child();
    b.text("A\0あ", 4, 5, 6, 14.0);
    b.add_child();
    b.set_root();

    let mut views = Views::new();
    assert_eq!(b.build(&mut views, 0), GPUI_STATUS_OK);
    let (p, children) = root(&views, 0);
    assert_eq!(p.bg, Some((1, 2, 3)));
    assert!(p.flex && p.flex_col && p.center);
    assert_eq!(p.border_color, Some((9, 9, 9)));
    assert_eq!(p.on_click, None);
    assert_eq!(value(p.width), 100.0);
    assert_eq!(value(p.height), 50.0);
    assert_eq!(value(p.gap), 7.0);
    assert_eq!(value(p.rounded), 8.0);
    assert_eq!(value(p.padding), 5.0);
    assert_eq!(value(p.border_width), 2.0);
    assert_eq!(p.key.as_deref(), Some("root"));
    assert_eq!(children.len(), 2);
    let (button, _) = as_div(&children[0]);
    assert_eq!(button.on_click, Some(9));
    assert_eq!(button.key.as_deref(), Some("btn"));
    assert!(matches!(
        &children[1],
        UiNode::Text { content, color: (4, 5, 6), size }
            if content == "A\0あ" && value(*size) == 14.0
    ));
}

#[test]
fn commit_replaces_previous_tree() {
    let mut views = Views::new();
    let mut first = Buf::new();
    first.div().op(OP_SET_BG).u8(1).u8(2).u8(3).set_root();
    assert_eq!(first.build(&mut views, 0), GPUI_STATUS_OK);

    let mut second = Buf::new();
    second.div().op(OP_SET_BG).u8(4).u8(5).u8(6).set_root();
    assert_eq!(second.build(&mut views, 0), GPUI_STATUS_OK);
    assert_eq!(root(&views, 0).0.bg, Some((4, 5, 6)));
}

#[test]
fn commits_to_distinct_views() {
    let mut views = Views::new();
    let mut v0 = Buf::new();
    v0.div().op(OP_SET_BG).u8(1).u8(0).u8(0).set_root();
    assert_eq!(v0.build(&mut views, 0), GPUI_STATUS_OK);

    let mut v1 = Buf::new();
    v1.div().op(OP_SET_BG).u8(0).u8(1).u8(0).set_root();
    assert_eq!(v1.build(&mut views, 1), GPUI_STATUS_OK);

    assert_eq!(root(&views, 0).0.bg, Some((1, 0, 0)));
    assert_eq!(root(&views, 1).0.bg, Some((0, 1, 0)));
}

#[test]
fn commit_to_a_far_view_leaves_those_between_empty() {
    let mut views = Views::new();
    let mut b = Buf::new();
    b.div().set_root();
    assert_eq!(b.build(&mut views, 3), GPUI_STATUS_OK);
    for view in 0..3 {
        assert!(views.get(view).is_none());
    }
    assert!(views.get(3).is_some());
    assert!(views.get(4).is_none());
}

// The header and the framing.

#[test]
fn rejects_bad_magic_and_version() {
    let mut bad_magic = Buf::new();
    bad_magic.0[0] = b'X';
    bad_magic.div().set_root();
    assert_eq!(bad_magic.status(), GPUI_STATUS_BAD_BUFFER_VERSION);

    let mut bad_version = Buf::new();
    bad_version.0[4] = 0xFF;
    bad_version.div().set_root();
    assert_eq!(bad_version.status(), GPUI_STATUS_BAD_BUFFER_VERSION);
}

#[test]
fn rejects_null_pointer_and_negative_length() {
    let mut views = Views::new();
    assert_eq!(gpui_build_tree(&mut views, 0, None, 8), GPUI_STATUS_TRUNCATED_BUFFER);
    let b = Buf::new();
    assert_eq!(gpui_build_tree(&mut views, 0, Some(&b.0), -1), GPUI_STATUS_TRUNCATED_BUFFER);
}

#[test]
fn reads_no_further_than_the_announced_length() {
    let mut views = Views::new();
    let mut b = Buf::new();
    b.div().set_root();
    let len = b.0.len() as i32;
    b.u8(0xFE);
    assert_eq!(gpui_build_tree(&mut views, 0, Some(&b.0), len), GPUI_STATUS_OK);
    assert_eq!(b.build(&mut views, 0), GPUI_STATUS_UNKNOWN_OPCODE);
}

#[test]
fn rejects_truncated_operand() {
    let mut b = Buf::new();
    b.div().op(OP_SET_BG).u8(1).u8(2);
    assert_eq!(b.status(), GPUI_STATUS_TRUNCATED_BUFFER);

    let mut t = Buf::new();
    t.op(OP_TEXT).u32(999).u8(b'a').set_root();
    assert_eq!(t.status(), GPUI_STATUS_TRUNCATED_BUFFER);

    let mut p = Buf::new();
    p.div().op(OP_SET_PADDING);
    assert_eq!(p.status(), GPUI_STATUS_TRUNCATED_BUFFER);

    let mut br = Buf::new();
    br.div().op(OP_SET_BORDER).f32(1.0).u8(1).u8(2);
    assert_eq!(br.status(), GPUI_STATUS_TRUNCATED_BUFFER);
}

#[test]
fn rejects_huge_string_length_without_panic() {
    let mut t = Buf::new();
    t.op(OP_TEXT).u32(u32::MAX).u8(b'a').set_root();
    assert_eq!(t.status(), GPUI_STATUS_TRUNCATED_BUFFER);

    let mut k = Buf::new();
    k.div().op(OP_SET_KEY).u32(0x7FFF_FFFF);
    assert_eq!(k.status(), GPUI_STATUS_TRUNCATED_BUFFER);
}

#[test]
fn invalid_utf8_text_is_lossy_not_fatal() {
    let mut views = Views::new();
    let mut b = Buf::new();
    b.op(OP_TEXT).u32(2).u8(0xFF).u8(0xFE).u8(1).u8(2).u8(3).f32(10.0).set_root();
    assert_eq!(b.build(&mut views, 0), GPUI_STATUS_OK);
    assert!(matches!(
        views.get(0),
        Some(UiNode::Text { content, color: (1, 2, 3), size })
            if content == "\u{FFFD}\u{FFFD}" && value(*size) == 10.0
    ));
}

#[test]
fn rejects_unknown_opcode() {
    let mut b = Buf::new();
    b.div().u8(0xFE).set_root();
    assert_eq!(b.status(), GPUI_STATUS_UNKNOWN_OPCODE);
}

#[test]
fn rejects_negative_view() {
    let b = Buf::new();
    assert_eq!(b.build(&mut Views::new(), -1), GPUI_STATUS_INVALID_HANDLE);
}

// The stack of handles.

#[test]
fn setter_on_empty_stack_fails() {
    let mut b = Buf::new();
    b.op(OP_SET_CENTER).set_root();
    assert_eq!(b.status(), GPUI_STATUS_INVALID_HANDLE);
}

#[test]
fn setter_on_text_top_fails() {
    let mut b = Buf::new();
    b.text("x", 0, 0, 0, 12.0).op(OP_SET_CENTER);
    assert_eq!(b.status(), GPUI_STATUS_WRONG_NODE_KIND);
}

#[test]
fn padding_and_border_apply_to_div() {
    let mut b = Buf::new();
    b.div()
        .op(OP_SET_PADDING)
        .f32(12.0)
        .op(OP_SET_BORDER)
        .f32(3.0)
        .u8(10)
        .u8(20)
        .u8(30)
        .set_root();
    let p = built(&b);
    assert_eq!(value(p.padding), 12.0);
    assert_eq!(value(p.border_width), 3.0);
    assert_eq!(p.border_color, Some((10, 20, 30)));
}

#[test]
fn padding_and_border_on_text_top_fail() {
    let mut p = Buf::new();
    p.text("x", 0, 0, 0, 12.0).op(OP_SET_PADDING).f32(4.0);
    assert_eq!(p.status(), GPUI_STATUS_WRONG_NODE_KIND);

    let mut br = Buf::new();
    br.text("x", 0, 0, 0, 12.0).op(OP_SET_BORDER).f32(1.0).u8(0).u8(0).u8(0);
    assert_eq!(br.status(), GPUI_STATUS_WRONG_NODE_KIND);
}

#[test]
fn add_child_underflow_fails() {
    let mut one = Buf::new();
    one.div().add_child();
    assert_eq!(one.status(), GPUI_STATUS_INVALID_HANDLE);

    let mut zero = Buf::new();
    zero.add_child();
    assert_eq!(zero.status(), GPUI_STATUS_INVALID_HANDLE);
}

#[test]
fn add_child_to_text_parent_fails() {
    let mut b = Buf::new();
    b.text("p", 0, 0, 0, 12.0).div().add_child();
    assert_eq!(b.status(), GPUI_STATUS_WRONG_NODE_KIND);
}

#[test]
fn set_root_on_empty_stack_fails() {
    let mut b = Buf::new();
    b.set_root();
    assert_eq!(b.status(), GPUI_STATUS_INVALID_HANDLE);
}

#[test]
fn build_without_root_fails() {
    let mut b = Buf::new();
    b.div();
    assert_eq!(b.status(), GPUI_STATUS_NO_ROOT);
}

#[test]
fn nested_attachment_commits() {
    let mut views = Views::new();
    let mut b = Buf::new();
    b.div();
    b.div();
    b.div();
    b.add_child();
    b.add_child();
    b.set_root();
    assert_eq!(b.build(&mut views, 0), GPUI_STATUS_OK);
    let (_, children) = root(&views, 0);
    assert_eq!(children.len(), 1);
    let (_, inner) = as_div(&children[0]);
    assert!(matches!(inner.as_slice(), [UiNode::Div { .. }]));
}

// Nodes are moved into their parents.

#[test]
fn add_child_moves_not_copies() {
    let mut views = Views::new();
    let mut b = Buf::new();
    b.div();
    b.div().op(OP_SET_BG).u8(1).u8(0).u8(0);
    b.add_child();
    b.div().op(OP_SET_BG).u8(0).u8(1).u8(0);
    b.add_child();
    b.set_root();
    assert_eq!(b.build(&mut views, 0), GPUI_STATUS_OK);
    let (_, children) = root(&views, 0);
    assert_eq!(children.len(), 2);
    let (a, under_a) = as_div(&children[0]);
    let (c, under_c) = as_div(&children[1]);
    assert_eq!(a.bg, Some((1, 0, 0)));
    assert_eq!(c.bg, Some((0, 1, 0)));
    assert!(under_a.is_empty() && under_c.is_empty());
}

#[test]
fn subtree_moves_intact() {
    let mut views = Views::new();
    let mut b = Buf::new();
    b.div();
    b.div();
    b.div().op(OP_SET_BG).u8(7).u8(7).u8(7);
    b.add_child();
    b.add_child();
    b.set_root();
    assert_eq!(b.build(&mut views, 0), GPUI_STATUS_OK);
    let (_, children) = root(&views, 0);
    assert_eq!(children.len(), 1);
    let (_, inner) = as_div(&children[0]);
    assert_eq!(inner.len(), 1);
    let (leaf, under_leaf) = as_div(&inner[0]);
    assert_eq!(leaf.bg, Some((7, 7, 7)));
    assert!(under_leaf.is_empty());
}

#[test]
fn unattached_nodes_are_dropped_from_commit() {
    let mut views = Views::new();
    let mut b = Buf::new();
    b.div().op(OP_SET_BG).u8(9).u8(9).u8(9);
    b.div().op(OP_SET_BG).u8(1).u8(2).u8(3);
    b.set_root();
    assert_eq!(b.build(&mut views, 0), GPUI_STATUS_OK);
    let (p, children) = root(&views, 0);
    assert_eq!(p.bg, Some((1, 2, 3)));
    assert!(children.is_empty());
}

#[test]
fn last_set_root_wins() {
    let mut views = Views::new();
    let mut b = Buf::new();
    b.div().op(OP_SET_BG).u8(1).u8(0).u8(0);
    b.set_root();
    b.div().op(OP_SET_BG).u8(0).u8(1).u8(0);
    b.set_root();
    assert_eq!(b.build(&mut views, 0), GPUI_STATUS_OK);
    assert_eq!(root(&views, 0).0.bg, Some((0, 1, 0)));
}

// Keys.

#[test]
fn commit_rejects_duplicate_keys_in_tree() {
    let mut views = Views::new();
    let mut b = Buf::new();
    b.div();
    b.div().op(OP_SET_KEY).str("same");
    b.add_child();
    b.div().op(OP_SET_KEY).str("same");
    b.add_child();
    b.set_root();
    assert_eq!(b.build(&mut views, 0), GPUI_STATUS_DUPLICATE_KEY);
    assert!(views.get(0).is_none());
}

#[test]
fn duplicate_keys_are_found_across_levels() {
    let mut b = Buf::new();
    b.div().op(OP_SET_KEY).str("k");
    b.div();
    b.div().op(OP_SET_KEY).str("k");
    b.add_child();
    b.add_child();
    b.set_root();
    assert_eq!(b.status(), GPUI_STATUS_DUPLICATE_KEY);
}

#[test]
fn keys_off_the_tree_do_not_count() {
    let mut b = Buf::new();
    b.div().op(OP_SET_KEY).str("k");
    b.div().op(OP_SET_KEY).str("k");
    b.set_root();
    assert_eq!(b.status(), GPUI_STATUS_OK);
}

#[test]
fn rejected_buffer_leaves_the_committed_tree() {
    let mut views = Views::new();
    let mut good = Buf::new();
    good.div().op(OP_SET_BG).u8(1).u8(2).u8(3).set_root();
    assert_eq!(good.build(&mut views, 0), GPUI_STATUS_OK);
    let mut bad = Buf::new();
    bad.div().set_root().u8(0);
    assert_eq!(bad.build(&mut views, 0), GPUI_STATUS_UNKNOWN_OPCODE);
    assert_eq!(root(&views, 0).0.bg, Some((1, 2, 3)));
}

#[test]
fn commit_allows_distinct_keys() {
    let mut b = Buf::new();
    b.div();
    b.div().op(OP_SET_KEY).str("a");
    b.add_child();
    b.div().op(OP_SET_KEY).str("b");
    b.add_child();
    b.set_root();
    assert_eq!(b.status(), GPUI_STATUS_OK);
}

#[test]
fn commit_allows_duplicate_click_ids() {
    let mut b = Buf::new();
    b.div();
    b.div().op(OP_SET_ON_CLICK).i32(7);
    b.add_child();
    b.div().op(OP_SET_ON_CLICK).i32(7);
    b.add_child();
    b.set_root();
    assert_eq!(b.status(), GPUI_STATUS_OK);
}

// Dumps.

#[test]
fn debug_dump_text_round_trips() {
    let mut views = Views::new();
    let mut b = Buf::new();
    b.div()
        .text("A\0あ", 255, 255, 255, 16.0)
        .add_child()
        .text("🎉", 255, 255, 255, 16.0)
        .add_child()
        .set_root();
    assert_eq!(b.build(&mut views, 0), GPUI_STATUS_OK);

    let mut expected = Vec::new();
    for s in ["A\0あ", "🎉"] {
        let bytes = s.as_bytes();
        expected.extend_from_slice(&(bytes.len() as u32).to_le_bytes());
        expected.extend_from_slice(bytes);
    }

    let mut buf = vec![0u8; 256];
    let len = buf.len() as i32;
    let n = gpui_debug_dump_text(&views, 0, Some(&mut buf), len);
    assert_eq!(n, expected.len() as i32);
    assert_eq!(&buf[..n as usize], &expected[..]);
}

#[test]
fn dump_fills_a_short_buffer_and_no_more() {
    let mut views = Views::new();
    let mut b = Buf::new();
    b.text("abcdef", 0, 0, 0, 1.0).set_root();
    assert_eq!(b.build(&mut views, 0), GPUI_STATUS_OK);
    let mut buf = [9u8; 8];
    assert_eq!(gpui_debug_dump_text(&views, 0, Some(&mut buf), 6), 6);
    assert_eq!(buf, [6, 0, 0, 0, b'a', b'b', 9, 9]);
}

#[test]
fn debug_dump_text_rejects_bad_args() {
    let views = Views::new();
    let mut buf = [0u8; 8];
    assert_eq!(
        gpui_debug_dump_text(&views, -1, Some(&mut buf), 8),
        GPUI_STATUS_INVALID_HANDLE
    );
    assert_eq!(gpui_debug_dump_text(&views, 0, None, 8), GPUI_STATUS_INVALID_HANDLE);
    assert_eq!(
        gpui_debug_dump_text(&views, 0, Some(&mut buf), -1),
        GPUI_STATUS_INVALID_HANDLE
    );
    assert_eq!(
        gpui_debug_dump_text(&views, 0, Some(&mut buf), 8),
        GPUI_STATUS_INVALID_HANDLE
    );
}

#[test]
fn abi_probe_echoes_boundary_values() {
    for v in [i32::MAX, i32::MIN, 0, -1, 42, -42] {
        assert_eq!(gpui_abi_probe(v), v);
    }
}

// Setters.

#[test]
fn set_bg_color_decodes_rgba() {
    let mut b = Buf::new();
    b.div().op(OP_SET_BG_COLOR).u8(1).u8(2).u8(3).u8(128).set_root();
    let p = built(&b);
    assert_eq!(p.bg_color, Some((1, 2, 3, 128)));
    assert_eq!(p.bg, None);
}

#[test]
fn set_bg_color_truncated_fails() {
    let mut b = Buf::new();
    b.div().op(OP_SET_BG_COLOR).u8(1).u8(2).u8(3);
    assert_eq!(b.status(), GPUI_STATUS_TRUNCATED_BUFFER);
}

fn sides(s: (i32, i32, i32, i32)) -> (f32, f32, f32, f32) {
    (s.0 as f32, s.1 as f32, s.2 as f32, s.3 as f32)
}

#[test]
fn set_margin_decodes_four_sides() {
    let mut b = Buf::new();
    b.div().op(OP_SET_MARGIN).i32(1).i32(2).i32(3).i32(4).set_root();
    assert_eq!(built(&b).margin.map(sides), Some((1.0, 2.0, 3.0, 4.0)));
}

#[test]
fn set_margin_truncated_fails() {
    let mut b = Buf::new();
    b.div().op(OP_SET_MARGIN).i32(1).i32(2).i32(3);
    assert_eq!(b.status(), GPUI_STATUS_TRUNCATED_BUFFER);
}

#[test]
fn set_padding_sides_decodes_four_sides() {
    let mut b = Buf::new();
    b.div().op(OP_SET_PADDING_SIDES).i32(5).i32(6).i32(7).i32(8).set_root();
    assert_eq!(built(&b).padding_sides.map(sides), Some((5.0, 6.0, 7.0, 8.0)));
}

#[test]
fn set_padding_sides_truncated_fails() {
    let mut b = Buf::new();
    b.div().op(OP_SET_PADDING_SIDES).i32(1).i32(2).i32(3);
    assert_eq!(b.status(), GPUI_STATUS_TRUNCATED_BUFFER);
}

#[test]
fn set_flex_item_scales_milliunits() {
    let mut b = Buf::new();
    b.div().op(OP_SET_FLEX_ITEM).i32(1500).i32(500).i32(100).set_root();
    let (grow, shrink, basis) = built(&b).flex_item.unwrap();
    assert_eq!((milli(grow), milli(shrink), basis as f32), (1.5, 0.5, 100.0));
}

#[test]
fn set_flex_item_truncated_fails() {
    let mut b = Buf::new();
    b.div().op(OP_SET_FLEX_ITEM).i32(1000).i32(1000);
    assert_eq!(b.status(), GPUI_STATUS_TRUNCATED_BUFFER);
}

#[test]
fn set_opacity_scales_milliunits() {
    let mut b = Buf::new();
    b.div().op(OP_SET_OPACITY).i32(500).set_root();
    let opacity = milli(built(&b).opacity.unwrap());
    assert!((opacity - 0.5).abs() < 1e-6);
}

#[test]
fn set_opacity_truncated_fails() {
    let mut b = Buf::new();
    b.div().op(OP_SET_OPACITY);
    assert_eq!(b.status(), GPUI_STATUS_TRUNCATED_BUFFER);
}

#[test]
fn set_shadow_decodes_geometry_and_color() {
    let mut b = Buf::new();
    b.div()
        .op(OP_SET_SHADOW)
        .i32(0)
        .i32(4)
        .i32(6)
        .i32(-1)
        .u8(0)
        .u8(0)
        .u8(0)
        .u8(64)
        .set_root();
    let s = built(&b).shadow.unwrap();
    assert_eq!(sides((s.x, s.y, s.blur, s.spread)), (0.0, 4.0, 6.0, -1.0));
    assert_eq!(s.color, (0, 0, 0, 64));
}

#[test]
fn set_shadow_truncated_fails() {
    let mut b = Buf::new();
    b.div().op(OP_SET_SHADOW).i32(0).i32(0).i32(0).i32(0).u8(0).u8(0);
    assert_eq!(b.status(), GPUI_STATUS_TRUNCATED_BUFFER);
}

#[test]
fn set_align_overflow_cursor_position_inset_decode() {
    let mut b = Buf::new();
    b.div()
        .op(OP_SET_ALIGN)
        .i32(ALIGN_CENTER)
        .i32(JUSTIFY_SPACE_BETWEEN)
        .op(OP_SET_OVERFLOW)
        .i32(OVERFLOW_HIDDEN)
        .i32(OVERFLOW_SCROLL)
        .op(OP_SET_CURSOR)
        .i32(CURSOR_POINTER)
        .op(OP_SET_POSITION)
        .i32(POSITION_ABSOLUTE)
        .op(OP_SET_INSET)
        .i32(10)
        .i32(-1)
        .i32(20)
        .i32(-1)
        .set_root();
    let p = built(&b);
    assert_eq!(p.align, Some((ALIGN_CENTER, JUSTIFY_SPACE_BETWEEN)));
    assert_eq!(p.overflow, Some((OVERFLOW_HIDDEN, OVERFLOW_SCROLL)));
    assert_eq!(p.cursor, Some(CURSOR_POINTER));
    assert_eq!(p.position, Some(POSITION_ABSOLUTE));
    assert_eq!(p.inset.map(sides), Some((10.0, -1.0, 20.0, -1.0)));
}

#[test]
fn set_min_max_size_decode_with_auto_sentinel() {
    let mut b = Buf::new();
    b.div()
        .op(OP_SET_MIN_SIZE)
        .i32(100)
        .i32(-1)
        .op(OP_SET_MAX_SIZE)
        .i32(-1)
        .i32(400)
        .set_root();
    let p = built(&b);
    assert_eq!(p.min_size.map(|(w, h)| (w as f32, h as f32)), Some((100.0, -1.0)));
    assert_eq!(p.max_size.map(|(w, h)| (w as f32, h as f32)), Some((-1.0, 400.0)));
}

#[test]
fn new_setters_on_text_top_fail() {
    let cases: Vec<Box<dyn Fn(&mut Buf)>> = vec![
        Box::new(|b| {
            b.op(OP_SET_BG_COLOR).u8(0).u8(0).u8(0).u8(0);
        }),
        Box::new(|b| {
            b.op(OP_SET_MARGIN).i32(0).i32(0).i32(0).i32(0);
        }),
        Box::new(|b| {
            b.op(OP_SET_OPACITY).i32(1000);
        }),
        Box::new(|b| {
            b.op(OP_SET_CURSOR).i32(CURSOR_POINTER);
        }),
        Box::new(|b| {
            b.op(OP_SET_TEXT_SIZE).i32(14);
        }),
        Box::new(|b| {
            b.op(OP_SET_FONT_FAMILY).str("Arial");
        }),
    ];
    for apply in cases {
        let mut b = Buf::new();
        b.text("x", 0, 0, 0, 12.0);
        apply(&mut b);
        assert_eq!(b.status(), GPUI_STATUS_WRONG_NODE_KIND);
    }
}

// Typography.

#[test]
fn set_text_size_decodes_px() {
    let mut b = Buf::new();
    b.div().op(OP_SET_TEXT_SIZE).i32(18).set_root();
    assert_eq!(built(&b).text_size.map(|s| s as f32), Some(18.0));
}

#[test]
fn set_text_size_truncated_fails() {
    let mut b = Buf::new();
    b.div().op(OP_SET_TEXT_SIZE);
    assert_eq!(b.status(), GPUI_STATUS_TRUNCATED_BUFFER);
}

#[test]
fn set_text_color_decodes_rgba() {
    let mut b = Buf::new();
    b.div().op(OP_SET_TEXT_COLOR).u8(10).u8(20).u8(30).u8(128).set_root();
    assert_eq!(built(&b).text_color, Some((10, 20, 30, 128)));
}

#[test]
fn set_text_color_truncated_fails() {
    let mut b = Buf::new();
    b.div().op(OP_SET_TEXT_COLOR).u8(1).u8(2).u8(3);
    assert_eq!(b.status(), GPUI_STATUS_TRUNCATED_BUFFER);
}

#[test]
fn set_font_weight_clamps_out_of_range() {
    let mut b = Buf::new();
    b.div()
        .op(OP_SET_FONT_WEIGHT)
        .i32(50)
        .op(OP_SET_FONT_WEIGHT)
        .i32(1000)
        .op(OP_SET_FONT_WEIGHT)
        .i32(700)
        .set_root();
    assert_eq!(built(&b).font_weight, Some(700));
    let mut lo = Buf::new();
    lo.div().op(OP_SET_FONT_WEIGHT).i32(50).set_root();
    assert_eq!(built(&lo).font_weight, Some(100));
    let mut hi = Buf::new();
    hi.div().op(OP_SET_FONT_WEIGHT).i32(1000).set_root();
    assert_eq!(built(&hi).font_weight, Some(900));
}

#[test]
fn set_font_weight_truncated_fails() {
    let mut b = Buf::new();
    b.div().op(OP_SET_FONT_WEIGHT);
    assert_eq!(b.status(), GPUI_STATUS_TRUNCATED_BUFFER);
}

#[test]
fn set_line_height_scales_milliunits_and_negative_unsets() {
    let mut b = Buf::new();
    b.div().op(OP_SET_LINE_HEIGHT).i32(1500).op(OP_SET_LINE_HEIGHT).i32(-1).set_root();
    assert_eq!(built(&b).line_height, None);
    let mut set = Buf::new();
    set.div().op(OP_SET_LINE_HEIGHT).i32(2250).set_root();
    assert_eq!(built(&set).line_height.map(milli), Some(2.25));
}

#[test]
fn set_line_height_truncated_fails() {
    let mut b = Buf::new();
    b.div().op(OP_SET_LINE_HEIGHT);
    assert_eq!(b.status(), GPUI_STATUS_TRUNCATED_BUFFER);
}

#[test]
fn set_text_align_and_whitespace_decode_ids() {
    let mut b = Buf::new();
    b.div()
        .op(OP_SET_TEXT_ALIGN)
        .i32(TEXT_ALIGN_CENTER)
        .op(OP_SET_WHITESPACE)
        .i32(WHITESPACE_NOWRAP)
        .set_root();
    let p = built(&b);
    assert_eq!(p.text_align, Some(TEXT_ALIGN_CENTER));
    assert_eq!(p.whitespace, Some(WHITESPACE_NOWRAP));
}

#[test]
fn set_text_align_truncated_fails() {
    let mut b = Buf::new();
    b.div().op(OP_SET_TEXT_ALIGN);
    assert_eq!(b.status(), GPUI_STATUS_TRUNCATED_BUFFER);
}

#[test]
fn set_font_family_decodes_string() {
    let mut b = Buf::new();
    b.div().op(OP_SET_FONT_FAMILY).str("Fira Code").set_root();
    assert_eq!(built(&b).font_family.as_deref(), Some("Fira Code"));
}

#[test]
fn set_font_family_truncated_fails() {
    let mut b = Buf::new();
    b.div().op(OP_SET_FONT_FAMILY).u32(16);
    assert_eq!(b.status(), GPUI_STATUS_TRUNCATED_BUFFER);
}

#[test]
fn typography_setters_on_text_top_fail() {
    let cases: Vec<Box<dyn Fn(&mut Buf)>> = vec![
        Box::new(|b| {
            b.op(OP_SET_TEXT_SIZE).i32(14);
        }),
        Box::new(|b| {
            b.op(OP_SET_TEXT_COLOR).u8(0).u8(0).u8(0).u8(0);
        }),
        Box::new(|b| {
            b.op(OP_SET_FONT_WEIGHT).i32(400);
        }),
        Box::new(|b| {
            b.op(OP_SET_LINE_HEIGHT).i32(1500);
        }),
        Box::new(|b| {
            b.op(OP_SET_TEXT_ALIGN).i32(TEXT_ALIGN_LEFT);
        }),
        Box::new(|b| {
            b.op(OP_SET_WHITESPACE).i32(WHITESPACE_NORMAL);
        }),
        Box::new(|b| {
            b.op(OP_SET_FONT_FAMILY).str("Arial");
        }),
    ];
    for apply in cases {
        let mut b = Buf::new();
        b.text("x", 0, 0, 0, 12.0);
        apply(&mut b);
        assert_eq!(b.status(), GPUI_STATUS_WRONG_NODE_KIND);
    }
}

// The focus.

#[test]
fn set_focusable_decodes_mode() {
    let mut b = Buf::new();
    b.div().op(OP_SET_FOCUSABLE).i32(1).op(OP_SET_FOCUSABLE).i32(0).set_root();
    assert_eq!(built(&b).focusable, Some(false));
    let mut on = Buf::new();
    on.div().op(OP_SET_FOCUSABLE).i32(1).set_root();
    assert_eq!(built(&on).focusable, Some(true));
}

#[test]
fn set_tab_index_decodes_value() {
    let mut b = Buf::new();
    b.div().op(OP_SET_TAB_INDEX).i32(3).set_root();
    assert_eq!(built(&b).tab_index, Some(3));
}

#[test]
fn set_tab_stop_decodes_mode() {
    let mut b = Buf::new();
    b.div().op(OP_SET_TAB_STOP).i32(0).set_root();
    assert_eq!(built(&b).tab_stop, Some(false));
    let mut on = Buf::new();
    on.div().op(OP_SET_TAB_STOP).i32(1).set_root();
    assert_eq!(built(&on).tab_stop, Some(true));
}

#[test]
fn focus_setters_truncated_fail() {
    for opcode in [OP_SET_FOCUSABLE, OP_SET_TAB_INDEX, OP_SET_TAB_STOP] {
        let mut b = Buf::new();
        b.div().op(opcode);
        assert_eq!(b.status(), GPUI_STATUS_TRUNCATED_BUFFER);
    }
}

#[test]
fn focus_setters_on_text_top_fail() {
    for opcode in [OP_SET_FOCUSABLE, OP_SET_TAB_INDEX, OP_SET_TAB_STOP] {
        let mut b = Buf::new();
        b.text("x", 0, 0, 0, 12.0).op(opcode).i32(1);
        assert_eq!(b.status(), GPUI_STATUS_WRONG_NODE_KIND);
    }
}

// Updates of keyed text.

/// Commits a root with a keyed `count` div and a keyed `static` div, each
/// around one text.
fn commit_count_tree(views: &mut Views, view: i32) {
    let mut b = Buf::new();
    b.div().op(OP_SET_KEY).str("root");
    b.div().op(OP_SET_KEY).str("count");
    b.text("Count: 0", 120, 200, 255, 44.0);
    b.add_child();
    b.add_child();
    b.div().op(OP_SET_KEY).str("static");
    b.text("keys: k j r", 130, 135, 148, 14.0);
    b.add_child();
    b.add_child();
    b.set_root();
    assert_eq!(b.build(views, view), GPUI_STATUS_OK);
}

/// The content of the first text child of the div that carries a key.
fn keyed_text(views: &Views, view: usize, key: &str) -> Option<String> {
    fn find<'a>(node: &'a UiNode, key: &str) -> Option<&'a str> {
        let UiNode::Div { props, children } = node else {
            return None;
        };
        if props.key.as_deref() == Some(key) {
            return match children.first() {
                Some(UiNode::Text { content, .. }) => Some(content.as_str()),
                _ => None,
            };
        }
        children.iter().find_map(|c| find(c, key))
    }
    views.get(view).and_then(|root| find(root, key)).map(str::to_string)
}

fn update(views: &mut Views, view: i32, key: &[u8], text: &[u8]) -> i32 {
    gpui_update_text(views, view, Some(key), key.len() as i32, Some(text), text.len() as i32)
}

#[test]
fn update_text_updates_keyed_node_in_place() {
    let mut views = Views::new();
    commit_count_tree(&mut views, 0);
    assert_eq!(keyed_text(&views, 0, "count").as_deref(), Some("Count: 0"));
    assert_eq!(update(&mut views, 0, b"count", b"Count: 42"), GPUI_STATUS_OK);
    assert_eq!(keyed_text(&views, 0, "count").as_deref(), Some("Count: 42"));
    assert_eq!(keyed_text(&views, 0, "static").as_deref(), Some("keys: k j r"));
}

#[test]
fn update_text_missing_key_returns_not_found() {
    let mut views = Views::new();
    commit_count_tree(&mut views, 0);
    assert_eq!(update(&mut views, 0, b"does-not-exist", b"x"), GPUI_STATUS_KEY_NOT_FOUND);
    assert_eq!(keyed_text(&views, 0, "count").as_deref(), Some("Count: 0"));
}

#[test]
fn update_text_no_committed_tree_returns_not_found() {
    let mut views = Views::new();
    assert_eq!(update(&mut views, 0, b"count", b"x"), GPUI_STATUS_KEY_NOT_FOUND);
}

#[test]
fn update_text_rejects_bad_handles() {
    let mut views = Views::new();
    commit_count_tree(&mut views, 0);
    assert_eq!(update(&mut views, -1, b"count", b"x"), GPUI_STATUS_INVALID_HANDLE);
    assert_eq!(
        gpui_update_text(&mut views, 0, None, 0, Some(b"x"), 1),
        GPUI_STATUS_TRUNCATED_BUFFER
    );
    assert_eq!(
        gpui_update_text(&mut views, 0, Some(b"count"), -1, Some(b"x"), 1),
        GPUI_STATUS_TRUNCATED_BUFFER
    );
    assert_eq!(
        gpui_update_text(&mut views, 0, Some(b"count"), 5, None, 0),
        GPUI_STATUS_TRUNCATED_BUFFER
    );
    assert_eq!(
        gpui_update_text(&mut views, 0, Some(b"count"), 5, Some(b"x"), -1),
        GPUI_STATUS_TRUNCATED_BUFFER
    );
}

#[test]
fn update_text_rejects_bytes_that_are_not_utf8() {
    let mut views = Views::new();
    commit_count_tree(&mut views, 0);
    assert_eq!(update(&mut views, 0, b"count", &[0xFF]), GPUI_STATUS_TRUNCATED_BUFFER);
    assert_eq!(update(&mut views, 0, &[0xC3], b"x"), GPUI_STATUS_TRUNCATED_BUFFER);
    assert_eq!(keyed_text(&views, 0, "count").as_deref(), Some("Count: 0"));
}

#[test]
fn update_text_takes_text_beyond_ascii() {
    let mut views = Views::new();
    commit_count_tree(&mut views, 0);
    assert_eq!(update(&mut views, 0, b"count", "数: 🎉".as_bytes()), GPUI_STATUS_OK);
    assert_eq!(keyed_text(&views, 0, "count").as_deref(), Some("数: 🎉"));
}

#[test]
fn update_text_keyed_div_without_text_child_returns_not_found() {
    let mut views = Views::new();
    let mut b = Buf::new();
    b.div().op(OP_SET_KEY).str("root");
    b.div().op(OP_SET_KEY).str("empty");
    b.div();
    b.add_child();
    b.add_child();
    b.set_root();
    assert_eq!(b.build(&mut views, 0), GPUI_STATUS_OK);
    assert_eq!(update(&mut views, 0, b"empty", b"x"), GPUI_STATUS_KEY_NOT_FOUND);
}

#[test]
fn update_text_takes_the_first_text_among_the_children() {
    let mut views = Views::new();
    let mut b = Buf::new();
    b.div().op(OP_SET_KEY).str("k");
    b.div();
    b.add_child();
    b.text("a", 0, 0, 0, 12.0);
    b.add_child();
    b.text("c", 1, 1, 1, 13.0);
    b.add_child();
    b.set_root();
    assert_eq!(b.build(&mut views, 0), GPUI_STATUS_OK);
    assert_eq!(update(&mut views, 0, b"k", b"b"), GPUI_STATUS_OK);
    let (_, children) = root(&views, 0);
    let (_, inner) = as_div(&children[0]);
    assert!(inner.is_empty());
    assert!(matches!(
        &children[1],
        UiNode::Text { content, color: (0, 0, 0), size } if content == "b" && value(*size) == 12.0
    ));
    assert!(matches!(
        &children[2],
        UiNode::Text { content, color: (1, 1, 1), size } if content == "c" && value(*size) == 13.0
    ));
}

#[test]
fn update_text_does_not_search_below_the_div_with_the_key() {
    let mut views = Views::new();
    let mut b = Buf::new();
    b.div().op(OP_SET_KEY).str("k");
    b.div();
    b.text("deep", 0, 0, 0, 12.0);
    b.add_child();
    b.add_child();
    b.set_root();
    assert_eq!(b.build(&mut views, 0), GPUI_STATUS_OK);
    assert_eq!(update(&mut views, 0, b"k", b"b"), GPUI_STATUS_KEY_NOT_FOUND);
}
