//! What holds of every buffer, every staging and every tree.

use vstd::prelude::*;
use vstd::utf8::*;

use crate::abi::{
    GPUI_STATUS_BAD_BUFFER_VERSION, GPUI_STATUS_DUPLICATE_KEY, GPUI_STATUS_INVALID_HANDLE,
    GPUI_STATUS_NO_ROOT, GPUI_STATUS_TRUNCATED_BUFFER, GPUI_STATUS_UNKNOWN_OPCODE,
    GPUI_STATUS_WRONG_NODE_KIND,
};
use crate::builder::Staging;
use crate::command::{Parsed, lemma_parse_advances, parse_at};
use crate::decode::{HEADER_LEN, decode, execute, finished};
use crate::encode::{lemma_text_stands, run, setter_op, text_bytes, text_fits};
use crate::node::{Command, DivProps, FONT_WEIGHT_MAX, FONT_WEIGHT_MIN, Setter, Tree};
use crate::reader::text_at;
use crate::tree::{keys, node_count, node_count_of, record, records, texts, texts_of};

verus! {

impl Staging {
    /// The handles on the stack are distinct and each stands for a node that is
    /// there. The root is there too and off the stack.
    pub open spec fn live(self) -> bool {
        &&& self.nodes.len() <= i32::MAX + 1
        &&& forall|i: int|
            0 <= i < self.stack.len() ==> self.in_range(#[trigger] self.stack[i])
                && self.nodes[self.stack[i] as int] is Some
        &&& forall|i: int, j: int|
            0 <= i < j < self.stack.len() ==> self.stack[i] != self.stack[j]
        &&& self.root matches Some(r) ==> {
            &&& r < self.nodes.len()
            &&& self.nodes[r as int] is Some
            &&& forall|i: int| 0 <= i < self.stack.len() ==> #[trigger] self.stack[i] != r
        }
    }
}

/// Staging starts live, and every command that succeeds keeps it live.
pub proof fn law_step_keeps_live(staging: Staging, command: Command<Seq<char>>)
    ensures
        Staging::empty().live(),
        staging.live() ==> (staging.step(command) matches Ok(next) ==> next.live()),
{
    if staging.live() {
        match command {
            Command::AddChild => {
                if let Ok(next) = staging.child_added() {
                    let n = staging.stack.len();
                    let parent = staging.stack[n - 2];
                    let child = staging.stack[n - 1];
                    assert forall|i: int| 0 <= i < next.stack.len() implies next.in_range(
                        #[trigger] next.stack[i],
                    ) && next.nodes[next.stack[i] as int] is Some by {
                        assert(next.stack[i] == staging.stack[i]);
                        assert(staging.stack[i] != child);
                    }
                    if let Some(r) = next.root {
                        assert(staging.stack[n - 1] != r);
                    }
                }
            },
            Command::SetRoot => {
                if let Ok(next) = staging.root_set() {
                    assert forall|i: int| 0 <= i < next.stack.len() implies #[trigger] next.stack[i]
                        != next.root->Some_0 by {
                        assert(next.stack[i] == staging.stack[i]);
                        assert(staging.stack[i] != staging.stack[staging.stack.len() - 1]);
                    }
                }
            },
            _ => {
                if let Ok(next) = staging.step(command) {
                    assert forall|i: int| 0 <= i < next.stack.len() implies next.in_range(
                        #[trigger] next.stack[i],
                    ) && next.nodes[next.stack[i] as int] is Some by {
                        if i < staging.stack.len() {
                            assert(next.stack[i] == staging.stack[i]);
                        }
                    }
                    if let Some(r) = next.root {
                        assert forall|i: int| 0 <= i < next.stack.len() implies #[trigger] next.stack[i]
                            != r by {
                            if i < staging.stack.len() {
                                assert(next.stack[i] == staging.stack[i]);
                            }
                        }
                    }
                    assert forall|i: int, j: int|
                        0 <= i < j < next.stack.len() implies next.stack[i] != next.stack[j] by {
                        assert(next.stack[i] == staging.stack[i]);
                        if j < staging.stack.len() {
                            assert(next.stack[j] == staging.stack[j]);
                        }
                    }
                }
            },
        }
    }
}

/// When a command fails on live staging: creating a node only when the handles
/// have run out, a setter when the stack is empty or a text is on top, adding a
/// child when fewer than two nodes are on the stack or the parent is a text,
/// setting the root when the stack is empty.
pub proof fn law_step_failures(staging: Staging, command: Command<Seq<char>>)
    requires
        staging.live(),
    ensures
        ({
            let n = staging.stack.len();
            let handle_error = Err::<Staging, i32>(GPUI_STATUS_INVALID_HANDLE);
            let kind_error = Err::<Staging, i32>(GPUI_STATUS_WRONG_NODE_KIND);
            let result = staging.step(command);
            match command {
                Command::Div | Command::Text { .. } => if staging.nodes.len() > i32::MAX {
                    result == handle_error
                } else {
                    result is Ok
                },
                Command::Apply(_) => if n == 0 {
                    result == handle_error
                } else if staging.nodes[staging.stack[n - 1] as int]->Some_0 is Text {
                    result == kind_error
                } else {
                    result is Ok
                },
                Command::AddChild => if n < 2 {
                    result == handle_error
                } else if staging.nodes[staging.stack[n - 2] as int]->Some_0 is Text {
                    result == kind_error
                } else {
                    result is Ok
                },
                Command::SetRoot => if n == 0 {
                    result == handle_error
                } else {
                    result is Ok
                },
            }
        }),
{
    let n = staging.stack.len();
    if n > 0 {
        let top = staging.stack[n - 1];
        assert(staging.in_range(top));
        if n > 1 {
            let below = staging.stack[n - 2];
            assert(staging.in_range(below));
            assert(below != top);
        }
    }
}

/// Executing commands on live staging fails with one of four statuses and
/// leaves live staging behind if it does not fail.
pub proof fn lemma_execute_live(data: Seq<u8>, pos: int, staging: Staging)
    requires
        staging.live(),
    ensures
        match execute(data, pos, staging) {
            Ok(end) => end.live(),
            Err(status) => {
                ||| status == GPUI_STATUS_INVALID_HANDLE
                ||| status == GPUI_STATUS_WRONG_NODE_KIND
                ||| status == GPUI_STATUS_TRUNCATED_BUFFER
                ||| status == GPUI_STATUS_UNKNOWN_OPCODE
            },
        },
    decreases data.len() - pos,
{
    match parse_at(data, pos) {
        Parsed::Cmd(command, end) => {
            lemma_parse_advances(data, pos);
            law_step_keeps_live(staging, command);
            law_step_failures(staging, command);
            if let Ok(next) = staging.step(command) {
                lemma_execute_live(data, end, next);
            }
        },
        _ => {},
    }
}

/// A buffer that is rejected is rejected with one of seven statuses. A node
/// that was moved away is never reached, so its absence is never reported.
pub proof fn law_decode_statuses(data: Seq<u8>)
    ensures
        decode(data) matches Err(status) ==> {
            ||| status == GPUI_STATUS_INVALID_HANDLE
            ||| status == GPUI_STATUS_WRONG_NODE_KIND
            ||| status == GPUI_STATUS_BAD_BUFFER_VERSION
            ||| status == GPUI_STATUS_TRUNCATED_BUFFER
            ||| status == GPUI_STATUS_UNKNOWN_OPCODE
            ||| status == GPUI_STATUS_NO_ROOT
            ||| status == GPUI_STATUS_DUPLICATE_KEY
        },
{
    law_step_keeps_live(Staging::empty(), Command::Div);
    lemma_execute_live(data, HEADER_LEN as int, Staging::empty());
}

/// The number of nodes under a handle.
pub open spec fn slot_count(slot: Option<Tree>) -> nat {
    match slot {
        Some(tree) => node_count(tree),
        None => 0,
    }
}

/// The number of nodes in staging.
pub open spec fn staged_count(nodes: Seq<Option<Tree>>) -> nat
    decreases nodes.len(),
{
    if nodes.len() == 0 {
        0
    } else {
        staged_count(nodes.drop_last()) + slot_count(nodes.last())
    }
}

proof fn lemma_staged_count_update(nodes: Seq<Option<Tree>>, i: int, slot: Option<Tree>)
    requires
        0 <= i < nodes.len(),
    ensures
        staged_count(nodes.update(i, slot)) == staged_count(nodes) - slot_count(nodes[i])
            + slot_count(slot),
        slot_count(nodes[i]) <= staged_count(nodes),
    decreases nodes.len(),
{
    let after = nodes.update(i, slot);
    if i == nodes.len() - 1 {
        assert(after.drop_last() =~= nodes.drop_last());
    } else {
        lemma_staged_count_update(nodes.drop_last(), i, slot);
        assert(after.drop_last() =~= nodes.drop_last().update(i, slot));
    }
}

pub proof fn lemma_node_count_push(list: Seq<Tree>, tree: Tree)
    ensures
        node_count_of(list.push(tree)) == node_count_of(list) + node_count(tree),
    decreases list.len(),
{
    reveal_with_fuel(node_count_of, 2);
    if list.len() == 0 {
        assert(list.push(tree).drop_first() =~= Seq::<Tree>::empty());
    } else {
        assert(list.push(tree).drop_first() =~= list.drop_first().push(tree));
        lemma_node_count_push(list.drop_first(), tree);
    }
}

/// Nodes are never copied and never lost: a command that creates a node adds
/// one to what is staged, and no other command changes how many there are.
pub proof fn law_step_conserves_nodes(staging: Staging, command: Command<Seq<char>>)
    ensures
        staging.step(command) matches Ok(next) ==> staged_count(next.nodes) == staged_count(
            staging.nodes,
        ) + match command {
            Command::Div | Command::Text { .. } => 1nat,
            _ => 0nat,
        },
{
    if let Ok(next) = staging.step(command) {
        match command {
            Command::Div | Command::Text { .. } => {
                assert(next.nodes.drop_last() =~= staging.nodes);
                assert(node_count_of(Seq::empty()) == 0);
            },
            Command::Apply(_) => {
                let top = staging.stack.last() as int;
                lemma_staged_count_update(staging.nodes, top, next.nodes[top]);
            },
            Command::AddChild => {
                let n = staging.stack.len();
                let parent = staging.stack[n - 2] as int;
                let child = staging.stack[n - 1] as int;
                let taken = staging.nodes.update(child, None);
                lemma_staged_count_update(staging.nodes, child, None);
                lemma_staged_count_update(taken, parent, next.nodes[parent]);
                if let Some(Tree::Div { children, .. }) = staging.nodes[parent] {
                    lemma_node_count_push(children, staging.nodes[child]->Some_0);
                }
            },
            Command::SetRoot => {},
        }
    }
}

/// Adding a child moves it: its slot is empty afterwards, it is the last child
/// of its parent, and every other slot is as it was.
pub proof fn law_add_child_moves(staging: Staging)
    ensures
        staging.child_added() matches Ok(next) ==> {
            let n = staging.stack.len() as int;
            let parent = staging.stack[n - 2] as int;
            let child = staging.stack[n - 1] as int;
            &&& next.nodes.len() == staging.nodes.len()
            &&& next.nodes[child] is None
            &&& next.nodes[parent]->Some_0->children == staging.nodes[parent]->Some_0->children.push(
                staging.nodes[child]->Some_0,
            )
            &&& forall|i: int|
                0 <= i < staging.nodes.len() && i != parent && i != child ==> next.nodes[i]
                    == staging.nodes[i]
        },
{
}

proof fn lemma_execute_count(data: Seq<u8>, pos: int, staging: Staging)
    requires
        pos <= data.len(),
    ensures
        execute(data, pos, staging) matches Ok(end) ==> staged_count(end.nodes) <= staged_count(
            staging.nodes,
        ) + (data.len() - pos),
    decreases data.len() - pos,
{
    match parse_at(data, pos) {
        Parsed::Cmd(command, end) => {
            lemma_parse_advances(data, pos);
            law_step_conserves_nodes(staging, command);
            if let Ok(next) = staging.step(command) {
                lemma_execute_count(data, end, next);
            }
        },
        _ => {},
    }
}

/// A decoded tree has at most one node per byte after the header.
pub proof fn law_decoded_size(data: Seq<u8>)
    ensures
        decode(data) matches Ok(tree) ==> node_count(tree) <= data.len() - HEADER_LEN,
{
    if let Ok(tree) = decode(data) {
        let start = Staging::empty();
        law_step_keeps_live(start, Command::Div);
        lemma_execute_live(data, HEADER_LEN as int, start);
        lemma_execute_count(data, HEADER_LEN as int, start);
        let end = execute(data, HEADER_LEN as int, start)->Ok_0;
        lemma_staged_count_update(end.nodes, end.root->Some_0 as int, None);
    }
}

/// No key occurs twice in a decoded tree.
pub proof fn law_decoded_keys_unique(data: Seq<u8>)
    ensures
        decode(data) matches Ok(tree) ==> keys(tree).no_duplicates(),
{
}

/// Font weights are between the lightest and the heaviest, and no line height
/// is negative.
pub open spec fn in_style_range(tree: Tree) -> bool
    decreases tree,
{
    match tree {
        Tree::Div { props, children } => {
            &&& props.font_weight matches Some(w) ==> FONT_WEIGHT_MIN <= w <= FONT_WEIGHT_MAX
            &&& props.line_height matches Some(v) ==> v >= 0
            &&& forall|i: int| 0 <= i < children.len() ==> in_style_range(#[trigger] children[i])
        },
        Tree::Text { .. } => true,
    }
}

spec fn slots_in_style_range(nodes: Seq<Option<Tree>>) -> bool {
    forall|i: int|
        0 <= i < nodes.len() ==> (#[trigger] nodes[i] matches Some(tree) ==> in_style_range(tree))
}

proof fn lemma_step_style_range(staging: Staging, command: Command<Seq<char>>)
    requires
        slots_in_style_range(staging.nodes),
    ensures
        staging.step(command) matches Ok(next) ==> slots_in_style_range(next.nodes),
{
    if let Ok(next) = staging.step(command) {
        assert forall|i: int| 0 <= i < next.nodes.len() implies (#[trigger] next.nodes[i] matches Some(
            tree,
        ) ==> in_style_range(tree)) by {
            if i < staging.nodes.len() {
                assert(staging.nodes[i] matches Some(tree) ==> in_style_range(tree));
            }
            if command is AddChild {
                let n = staging.stack.len();
                let parent = staging.stack[n - 2] as int;
                let child = staging.stack[n - 1] as int;
                assert(in_style_range(staging.nodes[child]->Some_0));
                if i == parent {
                    let children = staging.nodes[parent]->Some_0->children;
                    let grown = children.push(staging.nodes[child]->Some_0);
                    assert forall|j: int| 0 <= j < grown.len() implies in_style_range(
                        #[trigger] grown[j],
                    ) by {
                        if j < children.len() {
                            assert(in_style_range(children[j]));
                        }
                    }
                }
            }
        }
    }
}

proof fn lemma_execute_style_range(data: Seq<u8>, pos: int, staging: Staging)
    requires
        slots_in_style_range(staging.nodes),
    ensures
        execute(data, pos, staging) matches Ok(end) ==> slots_in_style_range(end.nodes),
    decreases data.len() - pos,
{
    match parse_at(data, pos) {
        Parsed::Cmd(command, end) => {
            lemma_parse_advances(data, pos);
            lemma_step_style_range(staging, command);
            if let Ok(next) = staging.step(command) {
                lemma_execute_style_range(data, end, next);
            }
        },
        _ => {},
    }
}

/// Whatever the bytes say, the font weights and line heights of a decoded tree
/// are in range.
pub proof fn law_decoded_styles_in_range(data: Seq<u8>)
    ensures
        decode(data) matches Ok(tree) ==> in_style_range(tree),
{
    if let Ok(tree) = decode(data) {
        let start = Staging::empty();
        law_step_keeps_live(start, Command::Div);
        lemma_execute_live(data, HEADER_LEN as int, start);
        lemma_execute_style_range(data, HEADER_LEN as int, start);
        let end = execute(data, HEADER_LEN as int, start)->Ok_0;
        assert(end.nodes[end.root->Some_0 as int] == Some(tree));
    }
}

/// Whether one of the commands carries this text.
pub open spec fn sent(commands: Seq<Command<Seq<char>>>, text: Seq<char>) -> bool {
    exists|j: int|
        0 <= j < commands.len() && (#[trigger] commands[j] matches Command::Text { content, .. }
            && content == text)
}

/// Every text under every handle satisfies `p`.
spec fn texts_satisfy(nodes: Seq<Option<Tree>>, p: spec_fn(Seq<char>) -> bool) -> bool {
    forall|i: int|
        0 <= i < nodes.len() ==> (#[trigger] nodes[i] matches Some(tree) ==> tree_satisfies(
            tree,
            p,
        ))
}

spec fn tree_satisfies(tree: Tree, p: spec_fn(Seq<char>) -> bool) -> bool {
    forall|k: int| 0 <= k < texts(tree).len() ==> p(#[trigger] texts(tree)[k])
}

pub proof fn lemma_texts_push(list: Seq<Tree>, tree: Tree)
    ensures
        texts_of(list.push(tree)) == texts_of(list) + texts(tree),
    decreases list.len(),
{
    reveal_with_fuel(texts_of, 2);
    if list.len() == 0 {
        assert(list.push(tree).drop_first() =~= Seq::<Tree>::empty());
    } else {
        assert(list.push(tree).drop_first() =~= list.drop_first().push(tree));
        lemma_texts_push(list.drop_first(), tree);
    }
    assert(texts_of(list.push(tree)) =~= texts_of(list) + texts(tree));
}

proof fn lemma_step_texts(
    staging: Staging,
    command: Command<Seq<char>>,
    p: spec_fn(Seq<char>) -> bool,
)
    requires
        texts_satisfy(staging.nodes, p),
        command matches Command::Text { content, .. } ==> p(content),
    ensures
        staging.step(command) matches Ok(next) ==> texts_satisfy(next.nodes, p),
{
    if let Ok(next) = staging.step(command) {
        assert forall|i: int| 0 <= i < next.nodes.len() implies (#[trigger] next.nodes[i] matches Some(
            tree,
        ) ==> tree_satisfies(tree, p)) by {
            if i < staging.nodes.len() {
                assert(staging.nodes[i] matches Some(tree) ==> tree_satisfies(tree, p));
                if let Some(Tree::Div { children, .. }) = staging.nodes[i] {
                    assert(tree_satisfies(staging.nodes[i]->Some_0, p));
                    assert(texts(staging.nodes[i]->Some_0) == texts_of(children));
                }
            }
            match command {
                Command::AddChild => {
                    let n = staging.stack.len();
                    let parent = staging.stack[n - 2] as int;
                    let child = staging.stack[n - 1] as int;
                    let moved = staging.nodes[child]->Some_0;
                    assert(tree_satisfies(moved, p));
                    if i == parent {
                        let children = staging.nodes[parent]->Some_0->children;
                        let all = texts(next.nodes[i]->Some_0);
                        lemma_texts_push(children, moved);
                        assert forall|k: int| 0 <= k < all.len() implies p(#[trigger] all[k]) by {
                            if k < texts_of(children).len() {
                                assert(p(texts(staging.nodes[parent]->Some_0)[k]));
                            } else {
                                assert(p(texts(moved)[k - texts_of(children).len()]));
                            }
                        }
                    }
                },
                _ => {},
            }
        }
    }
}

proof fn lemma_run_texts(
    commands: Seq<Command<Seq<char>>>,
    staging: Staging,
    p: spec_fn(Seq<char>) -> bool,
)
    requires
        texts_satisfy(staging.nodes, p),
        forall|j: int|
            0 <= j < commands.len() ==> (#[trigger] commands[j] matches Command::Text {
                content,
                ..
            } ==> p(content)),
    ensures
        run(commands, staging) matches Ok(end) ==> texts_satisfy(end.nodes, p),
    decreases commands.len(),
{
    if commands.len() > 0 {
        assert(commands[0] matches Command::Text { content, .. } ==> p(content));
        lemma_step_texts(staging, commands.first(), p);
        if let Ok(next) = staging.step(commands.first()) {
            let rest = commands.drop_first();
            assert forall|j: int| 0 <= j < rest.len() implies (#[trigger] rest[j] matches Command::Text {
                content,
                ..
            } ==> p(content)) by {
                assert(rest[j] == commands[j + 1]);
            }
            lemma_run_texts(rest, next, p);
        }
    }
}

/// Every text of the tree that commands build is one that a command carries,
/// character for character.
pub proof fn law_texts_are_sent(commands: Seq<Command<Seq<char>>>)
    ensures
        run(commands, Staging::empty()) matches Ok(staging) ==> (finished(staging) matches Ok(tree)
            ==> forall|k: int| 0 <= k < texts(tree).len() ==> sent(commands, #[trigger] texts(tree)[k])),
{
    let p = |text: Seq<char>| sent(commands, text);
    assert forall|j: int| 0 <= j < commands.len() implies (#[trigger] commands[j] matches Command::Text {
        content,
        ..
    } ==> p(content)) by {}
    lemma_run_texts(commands, Staging::empty(), p);
    lemma_run_live(commands, Staging::empty());
    if let Ok(staging) = run(commands, Staging::empty()) {
        if let Ok(tree) = finished(staging) {
            assert(staging.nodes[staging.root->Some_0 as int] == Some(tree));
            assert(tree_satisfies(tree, p));
            assert forall|k: int| 0 <= k < texts(tree).len() implies sent(
                commands,
                #[trigger] texts(tree)[k],
            ) by {
                assert(p(texts(tree)[k]));
            }
        }
    }
}

/// Running commands on live staging leaves live staging behind.
pub proof fn lemma_run_live(commands: Seq<Command<Seq<char>>>, staging: Staging)
    ensures
        Staging::empty().live(),
        staging.live() ==> (run(commands, staging) matches Ok(end) ==> end.live()),
    decreases commands.len(),
{
    law_step_keeps_live(staging, Command::Div);
    if commands.len() > 0 {
        law_step_keeps_live(staging, commands.first());
        if let Ok(next) = staging.step(commands.first()) {
            lemma_run_live(commands.drop_first(), next);
        }
    }
}

/// Of two setters with the same opcode, one after the other, the first leaves no
/// trace. A negative line height after another one unsets it.
pub proof fn law_last_setter_wins(
    props: DivProps<Seq<char>>,
    first: Setter<Seq<char>>,
    second: Setter<Seq<char>>,
)
    requires
        setter_op(first) == setter_op(second),
    ensures
        props.with(first).with(second) == props.with(second),
{
}

proof fn lemma_prefix(a: Seq<u8>, b: Seq<u8>)
    ensures
        (a + b).subrange(0, a.len() as int) == a,
        (a + b).skip(a.len() as int) == b,
{
    assert((a + b).subrange(0, a.len() as int) =~= a);
    assert((a + b).skip(a.len() as int) =~= b);
}

proof fn lemma_record(content: Seq<char>)
    requires
        text_fits(content),
    ensures
        record(content) == text_bytes(content),
{
    let len = encode_utf8(content).len();
    assert(len % 0x1_0000_0000 == len);
}

/// A dump reads back: its first record is the first text, and what follows is
/// the dump of the other texts.
pub proof fn law_dump_reads_back(contents: Seq<Seq<char>>)
    requires
        contents.len() > 0,
        text_fits(contents.first()),
    ensures
        text_at(records(contents), 0) matches Some((text, end)) && text == contents.first()
            && records(contents).skip(end) == records(contents.drop_first()),
{
    let first = text_bytes(contents.first());
    let rest = records(contents.drop_first());
    lemma_record(contents.first());
    lemma_prefix(first, rest);
    lemma_text_stands(first + rest, 0, contents.first());
}

} // verus!
