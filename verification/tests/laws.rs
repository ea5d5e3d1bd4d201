//! The laws of the library on concrete values.

use gpui_sys::abi::{
    BUFFER_VERSION, GPUI_STATUS_INVALID_HANDLE, GPUI_STATUS_KEY_NOT_FOUND, GPUI_STATUS_OK,
    GPUI_STATUS_TRUNCATED_BUFFER, GPUI_STATUS_UNKNOWN_OPCODE, GPUI_STATUS_WRONG_NODE_KIND,
    OP_ADD_CHILD, OP_DIV, OP_SET_FLEX, OP_SET_KEY, OP_SET_ROOT, OP_SET_TAB_STOP, OP_TEXT,
};
use gpui_sys::command::read_command;
use gpui_sys::decode::decode_tree;
use gpui_sys::node::{Command, Setter, Shadow, UiNode};
use gpui_sys::reader::{BufferReader, Float32};
use gpui_sys::text::{bytes_eq, str_eq};
use gpui_sys::tree::has_unique_keys;
use gpui_sys::views::{
    build_tree_from_buffer, gpui_debug_dump_text, gpui_update_text, Views,
};

fn header() -> Vec<u8> {
    let mut buf = b"GPUI".to_vec();
    buf.extend_from_slice(&BUFFER_VERSION.to_le_bytes());
    buf
}

fn ints(opcode: i32, operands: &[i32]) -> Vec<u8> {
    let mut buf = vec![opcode as u8];
    for v in operands {
        buf.extend_from_slice(&v.to_le_bytes());
    }
    buf
}

fn text(opcode: i32, s: &str) -> Vec<u8> {
    let mut buf = vec![opcode as u8];
    buf.extend_from_slice(&(s.len() as u32).to_le_bytes());
    buf.extend_from_slice(s.as_bytes());
    buf
}

fn with(mut buf: Vec<u8>, tail: &[u8]) -> Vec<u8> {
    buf.extend_from_slice(tail);
    buf
}

fn bits(v: f32) -> i32 {
    v.to_bits() as i32
}

fn float(v: f32) -> Float32 {
    Float32 { bits: v.to_bits() }
}

fn string(s: &str) -> String {
    s.to_string()
}

/// One command of each kind with its bytes. The setters are in the order of
/// their opcodes.
fn commands() -> Vec<(Vec<u8>, Command<String>)> {
    let rgb = [1u8, 2, 3];
    let rgba = [1u8, 2, 3, 4];
    let four = [-1, 2, i32::MIN, i32::MAX];
    let shadow = Shadow { x: -1, y: 2, blur: i32::MIN, spread: i32::MAX, color: (1, 2, 3, 4) };
    let sides = (-1, 2, i32::MIN, i32::MAX);
    let setters = vec![
        (ints(3, &[bits(1.5), bits(-2.0)]), Setter::Size(float(1.5), float(-2.0))),
        (with(ints(4, &[]), &rgb), Setter::Bg((1, 2, 3))),
        (with(ints(OP_SET_FLEX, &[]), &[7]), Setter::Flex(7)),
        (ints(6, &[]), Setter::Center),
        (ints(7, &[bits(3.0)]), Setter::Gap(float(3.0))),
        (ints(8, &[bits(4.0)]), Setter::Rounded(float(4.0))),
        (ints(9, &[-9]), Setter::OnClick(-9)),
        (text(OP_SET_KEY, "鍵"), Setter::Key(string("鍵"))),
        (ints(13, &[bits(5.0)]), Setter::Padding(float(5.0))),
        (with(ints(14, &[bits(6.0)]), &rgb), Setter::Border(float(6.0), (1, 2, 3))),
        (with(ints(15, &[]), &rgba), Setter::BgColor((1, 2, 3, 4))),
        (ints(16, &four), Setter::Margin(sides)),
        (ints(17, &[8, -8]), Setter::MinSize((8, -8))),
        (ints(18, &[9, -9]), Setter::MaxSize((9, -9))),
        (ints(19, &[1500, 500, -1]), Setter::FlexItem(1500, 500, -1)),
        (ints(20, &[2, 4]), Setter::Align((2, 4))),
        (ints(21, &[1, 2]), Setter::Overflow((1, 2))),
        (ints(22, &[500]), Setter::Opacity(500)),
        (with(ints(23, &four), &rgba), Setter::Shadow(shadow)),
        (ints(24, &[3]), Setter::Cursor(3)),
        (ints(25, &[1]), Setter::Position(1)),
        (ints(26, &four), Setter::Inset(sides)),
        (ints(27, &four), Setter::PaddingSides(sides)),
        (ints(28, &[18]), Setter::TextSize(18)),
        (with(ints(29, &[]), &rgba), Setter::TextColor((1, 2, 3, 4))),
        (ints(30, &[2000]), Setter::FontWeight(2000)),
        (ints(31, &[-1]), Setter::LineHeight(-1)),
        (ints(32, &[2]), Setter::TextAlign(2)),
        (ints(33, &[2]), Setter::Whitespace(2)),
        (text(34, "Fira Code"), Setter::FontFamily(string("Fira Code"))),
        (ints(35, &[1]), Setter::Focusable(1)),
        (ints(36, &[-3]), Setter::TabIndex(-3)),
        (ints(OP_SET_TAB_STOP, &[0]), Setter::TabStop(0)),
    ];
    let mut all: Vec<(Vec<u8>, Command<String>)> =
        setters.into_iter().map(|(bytes, s)| (bytes, Command::Apply(s))).collect();
    all.push((ints(OP_DIV, &[]), Command::Div));
    let mut content = with(text(OP_TEXT, "A\0あ"), &rgb);
    content.extend_from_slice(&bits(14.0).to_le_bytes());
    all.push((
        content,
        Command::Text { content: string("A\0あ"), color: (1, 2, 3), size: float(14.0) },
    ));
    all.push((ints(OP_ADD_CHILD, &[]), Command::AddChild));
    all.push((ints(OP_SET_ROOT, &[]), Command::SetRoot));
    all
}

#[test]
fn every_command_reads_back() {
    for (bytes, command) in commands() {
        let mut reader = BufferReader::new(&bytes);
        let read = read_command(&mut reader).unwrap().unwrap();
        assert_eq!(format!("{read:?}"), format!("{command:?}"));
        assert!(matches!(read_command(&mut reader), Ok(None)));
    }
}

#[test]
fn every_opcode_is_taken_once() {
    let mut opcodes: Vec<u8> = commands().iter().map(|(bytes, _)| bytes[0]).collect();
    opcodes.sort();
    let expected: Vec<u8> = (1..=OP_SET_TAB_STOP as u8).collect();
    assert_eq!(opcodes, expected);
}

#[test]
fn every_cut_inside_a_command_is_reported() {
    for (bytes, _) in commands() {
        for n in 1..bytes.len() {
            let mut buf = header();
            buf.push(OP_DIV as u8);
            buf.extend_from_slice(&bytes[..n]);
            assert!(matches!(decode_tree(&buf), Err(GPUI_STATUS_TRUNCATED_BUFFER)));
        }
    }
}

#[test]
fn every_other_opcode_is_unknown() {
    for op in (0..=255u8).filter(|op| *op == 0 || i32::from(*op) > OP_SET_TAB_STOP) {
        let buf = with(header(), &[OP_DIV as u8, op, OP_SET_ROOT as u8]);
        assert!(matches!(decode_tree(&buf), Err(GPUI_STATUS_UNKNOWN_OPCODE)));
    }
}

#[test]
fn every_setter_keeps_what_others_set() {
    let mut once = header();
    once.push(OP_DIV as u8);
    let mut twice = once.clone();
    for (bytes, command) in commands() {
        if matches!(command, Command::Apply(_)) {
            once.extend_from_slice(&bytes);
            twice.extend_from_slice(&bytes);
            twice.extend_from_slice(&bytes);
        }
    }
    once.push(OP_SET_ROOT as u8);
    twice.push(OP_SET_ROOT as u8);
    let a = decode_tree(&once).unwrap();
    let b = decode_tree(&twice).unwrap();
    assert_eq!(format!("{a:?}"), format!("{b:?}"));
    let UiNode::Div { props, .. } = a else { panic!("not a div") };
    assert_eq!(props.bg, Some((1, 2, 3)));
    assert_eq!(props.key.as_deref(), Some("鍵"));
    assert_eq!(props.tab_stop, Some(false));
    assert_eq!(props.font_weight, Some(900));
    assert_eq!(props.line_height, None);
    assert_eq!(props.tab_index, Some(-3));
}

/// A div with a key around a text, under a root, after another text.
fn labelled() -> Vec<u8> {
    let tail: Vec<u8> = [[9u8, 9, 9].as_slice(), &bits(1.0).to_le_bytes()].concat();
    let mut buf = header();
    buf.push(OP_DIV as u8);
    buf.extend_from_slice(&with(text(OP_TEXT, "before"), &tail));
    buf.push(OP_ADD_CHILD as u8);
    buf.push(OP_DIV as u8);
    buf.extend_from_slice(&text(OP_SET_KEY, "k"));
    buf.extend_from_slice(&with(text(OP_TEXT, "old"), &tail));
    buf.push(OP_ADD_CHILD as u8);
    buf.extend_from_slice(&with(text(OP_TEXT, "sibling"), &tail));
    buf.push(OP_ADD_CHILD as u8);
    buf.push(OP_ADD_CHILD as u8);
    buf.push(OP_SET_ROOT as u8);
    buf
}

fn dump(views: &Views) -> Vec<String> {
    let mut buf = vec![0u8; 256];
    let n = gpui_debug_dump_text(views, 0, Some(&mut buf), 256) as usize;
    let mut reader = BufferReader::new(&buf[..n]);
    let mut texts = Vec::new();
    while let Some(s) = reader.read_string() {
        texts.push(s);
    }
    texts
}

#[test]
fn an_update_touches_one_text_and_can_be_undone() {
    let mut views = Views::new();
    assert_eq!(build_tree_from_buffer(&mut views, 0, &labelled()), GPUI_STATUS_OK);
    let before = format!("{:?}", views.get(0));
    assert_eq!(dump(&views), ["before", "old", "sibling"]);
    assert_eq!(
        gpui_update_text(&mut views, 0, Some(b"k"), 1, Some(b"new"), 3),
        GPUI_STATUS_OK
    );
    assert_eq!(dump(&views), ["before", "new", "sibling"]);
    assert_eq!(
        gpui_update_text(&mut views, 0, Some(b"k"), 1, Some(b"old"), 3),
        GPUI_STATUS_OK
    );
    assert_eq!(format!("{:?}", views.get(0)), before);
}

fn count(node: &UiNode) -> usize {
    match node {
        UiNode::Div { children, .. } => 1 + children.iter().map(count).sum::<usize>(),
        UiNode::Text { .. } => 1,
    }
}

#[test]
fn a_tree_has_at_most_one_node_per_byte() {
    let buf = labelled();
    assert_eq!(count(&decode_tree(&buf).unwrap()), 5);
    let mut flat = header();
    flat.push(OP_DIV as u8);
    for _ in 0..100 {
        flat.push(OP_DIV as u8);
        flat.push(OP_ADD_CHILD as u8);
    }
    flat.push(OP_SET_ROOT as u8);
    let n = count(&decode_tree(&flat).unwrap());
    assert_eq!(n, 101);
    assert!(n <= flat.len() - 8);
}

#[test]
fn unique_keys_are_told_from_repeated_ones() {
    let buf = labelled();
    assert!(has_unique_keys(&decode_tree(&buf).unwrap()));
}

#[test]
fn bytes_and_strings_compare_by_content() {
    assert!(bytes_eq(b"", b""));
    assert!(bytes_eq(b"ab", b"ab"));
    assert!(!bytes_eq(b"ab", b"ac"));
    assert!(!bytes_eq(b"ab", b"a"));
    assert!(str_eq("あ", "あ"));
    assert!(!str_eq("あ", "い"));
}

#[test]
fn readers_stop_at_the_end() {
    let data = [1u8, 2, 3, 4, 5, 6];
    let mut reader = BufferReader::new(&data);
    assert_eq!(reader.read_u32(), Some(0x0403_0201));
    assert_eq!(reader.read_u32(), None);
    assert_eq!(reader.read_rgb(), None);
    assert_eq!(reader.read_u8(), Some(5));
    assert_eq!(reader.read_bytes(1), Some([6u8].as_slice()));
    assert_eq!(reader.read_bytes(0), Some([].as_slice()));
    assert_eq!(reader.read_u8(), None);
    assert_eq!(BufferReader::new(&[0xFF; 4]).read_i32(), Some(-1));
    assert_eq!(BufferReader::new(&[0, 0, 0x80, 0x3F]).read_f32(), Some(float(1.0)));
    assert_eq!(BufferReader::new(&[9, 8, 7, 6]).read_rgba(), Some((9, 8, 7, 6)));
    assert_eq!(BufferReader::new(&[1, 0, 0, 0, 2, 0, 0, 0]).read_pair(), Some((1, 2)));
    assert_eq!(BufferReader::new(&[0; 15]).read_sides(), None);
}

#[test]
fn the_first_bad_record_decides() {
    let bad_handle = with(header(), &[OP_ADD_CHILD as u8]);
    let mut bad_kind = with(header(), &text(OP_TEXT, "x"));
    bad_kind.extend_from_slice(&[0; 7]);
    bad_kind.push(6);
    let bad_opcode = with(header(), &[0]);
    let cases = [
        (bad_handle, GPUI_STATUS_INVALID_HANDLE),
        (bad_kind, GPUI_STATUS_WRONG_NODE_KIND),
        (bad_opcode, GPUI_STATUS_UNKNOWN_OPCODE),
    ];
    let tails: [&[u8]; 4] = [&[], &[0xFF], &[OP_DIV as u8, OP_SET_ROOT as u8], &[3, 1, 2]];
    for (buf, status) in cases {
        for tail in tails {
            assert!(matches!(decode_tree(&with(buf.clone(), tail)), Err(s) if s == status));
        }
    }
}

#[test]
fn setters_in_a_row_can_be_swapped() {
    let setters: Vec<Vec<u8>> = commands()
        .into_iter()
        .filter(|(_, command)| matches!(command, Command::Apply(_)))
        .map(|(bytes, _)| bytes)
        .collect();
    let decoded = |records: [&[u8]; 2]| {
        let mut buf = with(header(), &[OP_DIV as u8]);
        buf.extend_from_slice(&records.concat());
        buf.push(OP_SET_ROOT as u8);
        format!("{:?}", decode_tree(&buf))
    };
    for a in &setters {
        for b in &setters {
            assert_eq!(decoded([a, b]), decoded([b, a]));
        }
    }
    assert_eq!(decoded([&ints(22, &[1]), &ints(22, &[2])]), decoded([&[], &ints(22, &[2])]));
    assert_ne!(decoded([&ints(22, &[1]), &ints(22, &[2])]), decoded([&[], &ints(22, &[1])]));
}

/// The records of a tree whose divs carry keys only.
fn records(node: &UiNode, out: &mut Vec<u8>) {
    match node {
        UiNode::Div { props, children } => {
            out.push(OP_DIV as u8);
            if let Some(key) = &props.key {
                out.extend_from_slice(&text(OP_SET_KEY, key));
            }
            for child in children {
                records(child, out);
                out.push(OP_ADD_CHILD as u8);
            }
        }
        UiNode::Text { content, color, size } => {
            out.extend_from_slice(&text(OP_TEXT, content));
            out.extend_from_slice(&[color.0, color.1, color.2]);
            out.extend_from_slice(&size.bits.to_le_bytes());
        }
    }
}

#[test]
fn a_tree_comes_back_from_its_buffer() {
    let tree = decode_tree(&labelled()).unwrap();
    let mut buf = header();
    records(&tree, &mut buf);
    buf.push(OP_SET_ROOT as u8);
    assert_eq!(format!("{:?}", decode_tree(&buf).unwrap()), format!("{tree:?}"));
}

#[test]
fn an_update_is_a_rebuild_with_the_text_replaced() {
    let mut updated = Views::new();
    assert_eq!(build_tree_from_buffer(&mut updated, 2, &labelled()), GPUI_STATUS_OK);
    assert_eq!(
        gpui_update_text(&mut updated, 2, Some(b"k"), 1, Some("新しい".as_bytes()), 9),
        GPUI_STATUS_OK
    );
    let old = text(OP_TEXT, "old");
    let buf = labelled();
    let at = (0..buf.len()).find(|i| buf[*i..].starts_with(&old)).unwrap();
    let mut changed = buf[..at].to_vec();
    changed.extend_from_slice(&text(OP_TEXT, "新しい"));
    changed.extend_from_slice(&buf[at + old.len()..]);
    let mut rebuilt = Views::new();
    assert_eq!(build_tree_from_buffer(&mut rebuilt, 2, &changed), GPUI_STATUS_OK);
    for view in 0..4 {
        assert_eq!(format!("{:?}", updated.get(view)), format!("{:?}", rebuilt.get(view)));
    }
}

#[test]
fn calls_leave_the_other_views_alone() {
    let mut views = Views::new();
    assert_eq!(build_tree_from_buffer(&mut views, 0, &labelled()), GPUI_STATUS_OK);
    let first = format!("{:?}", views.get(0));
    assert_eq!(build_tree_from_buffer(&mut views, 1, &labelled()), GPUI_STATUS_OK);
    assert_eq!(
        gpui_update_text(&mut views, 1, Some(b"k"), 1, Some(b"new"), 3),
        GPUI_STATUS_OK
    );
    assert_eq!(
        gpui_update_text(&mut views, 5, Some(b"k"), 1, Some(b"new"), 3),
        GPUI_STATUS_KEY_NOT_FOUND
    );
    assert_eq!(format!("{:?}", views.get(0)), first);
    assert!(views.get(5).is_none());
}
