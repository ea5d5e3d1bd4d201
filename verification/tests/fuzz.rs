//! Seeded fuzzing of the decoder: whatever the bytes, it returns a status.

use gpui_sys::abi::{
    BUFFER_VERSION, GPUI_STATUS_BAD_BUFFER_VERSION, GPUI_STATUS_DUPLICATE_KEY,
    GPUI_STATUS_INTERNAL_PANIC, GPUI_STATUS_INVALID_HANDLE, GPUI_STATUS_NODE_ABSENT,
    GPUI_STATUS_NO_ROOT, GPUI_STATUS_OK, GPUI_STATUS_TRUNCATED_BUFFER, GPUI_STATUS_UNKNOWN_OPCODE,
    GPUI_STATUS_WRONG_NODE_KIND, OP_ADD_CHILD, OP_DIV, OP_SET_ALIGN, OP_SET_BG, OP_SET_BG_COLOR,
    OP_SET_BORDER, OP_SET_CENTER, OP_SET_CURSOR, OP_SET_FLEX, OP_SET_FLEX_ITEM,
    OP_SET_FONT_FAMILY, OP_SET_FONT_WEIGHT, OP_SET_GAP, OP_SET_INSET, OP_SET_KEY,
    OP_SET_LINE_HEIGHT, OP_SET_MARGIN, OP_SET_MAX_SIZE, OP_SET_MIN_SIZE, OP_SET_ON_CLICK,
    OP_SET_OPACITY, OP_SET_OVERFLOW, OP_SET_PADDING, OP_SET_PADDING_SIDES, OP_SET_POSITION,
    OP_SET_ROOT, OP_SET_ROUNDED, OP_SET_SHADOW, OP_SET_SIZE, OP_SET_TEXT_ALIGN, OP_SET_TEXT_COLOR,
    OP_SET_TEXT_SIZE, OP_SET_WHITESPACE, OP_TEXT,
};
use gpui_sys::views::{build_tree_from_buffer, Views};

const LEGAL_STATUSES: [i32; 10] = [
    GPUI_STATUS_OK,
    GPUI_STATUS_INVALID_HANDLE,
    GPUI_STATUS_WRONG_NODE_KIND,
    GPUI_STATUS_NODE_ABSENT,
    GPUI_STATUS_INTERNAL_PANIC,
    GPUI_STATUS_BAD_BUFFER_VERSION,
    GPUI_STATUS_TRUNCATED_BUFFER,
    GPUI_STATUS_UNKNOWN_OPCODE,
    GPUI_STATUS_NO_ROOT,
    GPUI_STATUS_DUPLICATE_KEY,
];

/// A xorshift generator; the seed makes every run the same.
struct Rng(u64);

impl Rng {
    fn new(seed: u64) -> Self {
        Rng(seed | 0x9E37_79B9_7F4A_7C15)
    }

    fn next_u64(&mut self) -> u64 {
        let mut x = self.0;
        x ^= x >> 12;
        x ^= x << 25;
        x ^= x >> 27;
        self.0 = x;
        x.wrapping_mul(0x2545_F491_4F6C_DD1D)
    }

    fn below(&mut self, n: u32) -> u32 {
        (self.next_u64() % n as u64) as u32
    }

    fn bytes(&mut self, n: usize) -> Vec<u8> {
        (0..n).map(|_| self.next_u64() as u8).collect()
    }
}

const OPCODES: [i32; 34] = [
    OP_DIV,
    OP_TEXT,
    OP_SET_SIZE,
    OP_SET_BG,
    OP_SET_FLEX,
    OP_SET_CENTER,
    OP_SET_GAP,
    OP_SET_ROUNDED,
    OP_SET_ON_CLICK,
    OP_SET_KEY,
    OP_SET_PADDING,
    OP_SET_BORDER,
    OP_SET_BG_COLOR,
    OP_SET_MARGIN,
    OP_SET_MIN_SIZE,
    OP_SET_MAX_SIZE,
    OP_SET_FLEX_ITEM,
    OP_SET_ALIGN,
    OP_SET_OVERFLOW,
    OP_SET_OPACITY,
    OP_SET_SHADOW,
    OP_SET_CURSOR,
    OP_SET_POSITION,
    OP_SET_INSET,
    OP_SET_PADDING_SIDES,
    OP_SET_TEXT_SIZE,
    OP_SET_TEXT_COLOR,
    OP_SET_FONT_WEIGHT,
    OP_SET_LINE_HEIGHT,
    OP_SET_TEXT_ALIGN,
    OP_SET_WHITESPACE,
    OP_SET_FONT_FAMILY,
    OP_ADD_CHILD,
    OP_SET_ROOT,
];

fn decode_never_panics(views: &mut Views, data: &[u8]) -> i32 {
    let status = build_tree_from_buffer(views, 9999, data);
    assert!(
        LEGAL_STATUSES.contains(&status),
        "status {status} for {}-byte buffer",
        data.len()
    );
    status
}

/// Appends random operands of the right size for an opcode.
fn emit_operands(rng: &mut Rng, buf: &mut Vec<u8>, opcode: i32) {
    let fixed: u32 = match opcode {
        OP_DIV | OP_SET_CENTER | OP_ADD_CHILD | OP_SET_ROOT => 0,
        OP_SET_FLEX => 1,
        OP_SET_BG => 3,
        OP_SET_GAP | OP_SET_ROUNDED | OP_SET_PADDING | OP_SET_ON_CLICK | OP_SET_OPACITY
        | OP_SET_CURSOR | OP_SET_POSITION | OP_SET_FONT_WEIGHT | OP_SET_LINE_HEIGHT
        | OP_SET_TEXT_ALIGN | OP_SET_WHITESPACE | OP_SET_TEXT_SIZE | OP_SET_BG_COLOR
        | OP_SET_TEXT_COLOR => 4,
        OP_SET_BORDER => 7,
        OP_SET_SIZE | OP_SET_MIN_SIZE | OP_SET_MAX_SIZE | OP_SET_ALIGN | OP_SET_OVERFLOW => 8,
        OP_SET_FLEX_ITEM => 12,
        OP_SET_MARGIN | OP_SET_INSET | OP_SET_PADDING_SIDES => 16,
        OP_SET_SHADOW => 20,
        OP_TEXT | OP_SET_KEY | OP_SET_FONT_FAMILY => {
            let len = rng.below(64);
            buf.extend_from_slice(&len.to_le_bytes());
            buf.extend_from_slice(&rng.bytes(len as usize));
            return;
        }
        _ => unreachable!("every opcode has a size"),
    };
    buf.extend_from_slice(&rng.bytes(fixed as usize));
}

/// A valid header, a random program, and sometimes a cut or flipped bytes.
fn plausible_buffer(rng: &mut Rng) -> Vec<u8> {
    let mut buf = Vec::with_capacity(256);
    buf.extend_from_slice(b"GPUI");
    buf.extend_from_slice(&(BUFFER_VERSION as u32).to_le_bytes());

    let ops = 1 + rng.below(40);
    for _ in 0..ops {
        let opcode = OPCODES[rng.below(OPCODES.len() as u32) as usize];
        buf.push(opcode as u8);
        emit_operands(rng, &mut buf, opcode);
    }

    match rng.below(4) {
        0 if buf.len() > 1 => buf.truncate(1 + rng.below((buf.len() - 1) as u32) as usize),
        1 => {
            let flips = 1 + rng.below(4);
            for _ in 0..flips {
                let idx = rng.below(buf.len() as u32) as usize;
                buf[idx] ^= 0xFF;
            }
        }
        _ => {}
    }
    buf
}

#[test]
fn fuzz_random_bytes_never_panic() {
    let mut views = Views::new();
    let mut rng = Rng::new(0x5EED_0001);
    for _ in 0..10_000 {
        let len = rng.below(512) as usize;
        let data = rng.bytes(len);
        decode_never_panics(&mut views, &data);
    }
}

#[test]
fn fuzz_plausible_buffers_never_panic() {
    let mut views = Views::new();
    let mut rng = Rng::new(0x5EED_0002);
    let mut ok_count = 0usize;
    for _ in 0..10_000 {
        let data = plausible_buffer(&mut rng);
        if decode_never_panics(&mut views, &data) == GPUI_STATUS_OK {
            ok_count += 1;
        }
    }
    assert!(ok_count > 0, "no buffer decoded");
}

#[test]
fn fuzz_edge_cases_never_panic() {
    let mut views = Views::new();
    decode_never_panics(&mut views, &[]);
    decode_never_panics(&mut views, b"GPUI");
    let mut header = b"GPUI".to_vec();
    header.extend_from_slice(&(BUFFER_VERSION as u32).to_le_bytes());
    decode_never_panics(&mut views, &header);

    for &opcode in &OPCODES {
        let mut buf = header.clone();
        buf.push(opcode as u8);
        decode_never_panics(&mut views, &buf);
    }

    for depth in [1usize, 8, 64, 512] {
        let mut buf = header.clone();
        for _ in 0..depth {
            buf.push(OP_DIV as u8);
        }
        for _ in 1..depth {
            buf.push(OP_ADD_CHILD as u8);
        }
        buf.push(OP_SET_ROOT as u8);
        assert_eq!(
            decode_never_panics(&mut views, &buf),
            GPUI_STATUS_OK,
            "nested chain of depth {depth} must decode"
        );
    }
}
