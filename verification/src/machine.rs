//! The stack machine and the decoder, step by step.

use vstd::prelude::*;

use crate::builder::Staging;
use crate::command::{Parsed, lemma_parse_advances, parse_at};
use crate::decode::{decode, execute, finished};
use crate::laws::{law_step_keeps_live, lemma_execute_live};
use crate::node::{Command, DivProps, Rgb, Setter, Tree};
use crate::paths::{distinct_keys, law_keys_distinct_by_place};
use crate::reader::Float32;

verus! {

/// Every slot but one is as it was.
pub open spec fn only_changes(before: Seq<Option<Tree>>, after: Seq<Option<Tree>>, at: int) -> bool {
    &&& after.len() == before.len()
    &&& forall|i: int| 0 <= i < before.len() && i != at ==> #[trigger] after[i] == before[i]
}

/// A node is staged under the next handle, which is pushed, and nothing else
/// changes.
pub open spec fn stages(before: Staging, after: Staging, node: Tree) -> bool {
    &&& after.nodes == before.nodes.push(Some(node))
    &&& after.stack.len() == before.stack.len() + 1
    &&& after.stack.last() == before.nodes.len()
    &&& after.stack.drop_last() == before.stack
    &&& after.root == before.root
}

/// Creating a node stages it unless handles have run out: a bare div without
/// children, or a text as it was sent.
pub proof fn law_creating(staging: Staging, content: Seq<char>, color: Rgb, size: Float32)
    ensures
        ({
            let div = staging.step(Command::Div);
            let text = staging.step(Command::Text { content, color, size });
            if staging.nodes.len() <= 2147483647 {
                &&& div matches Ok(next)
                &&& stages(
                    staging,
                    next,
                    Tree::Div { props: DivProps::initial(), children: Seq::empty() },
                )
                &&& text matches Ok(next)
                &&& stages(staging, next, Tree::Text { content, color, size })
            } else {
                div == Err::<Staging, i32>(-1i32) && text == Err::<Staging, i32>(-1i32)
            }
        }),
{
    let n = staging.nodes.len();
    if n <= 2147483647 {
        assert(staging.stack.push(n as i32).drop_last() =~= staging.stack);
    }
}

/// A setter changes the props of the div on top of the stack and nothing else.
/// It fails on an empty stack and on a text.
pub proof fn law_applying(staging: Staging, setter: Setter<Seq<char>>)
    requires
        staging.live(),
    ensures
        ({
            let result = staging.step(Command::Apply(setter));
            if staging.stack.len() == 0 {
                result == Err::<Staging, i32>(-1i32)
            } else {
                let top = staging.stack.last() as int;
                match staging.nodes[top] {
                    Some(Tree::Div { props, children }) => {
                        &&& result matches Ok(next)
                        &&& next.nodes[top] == Some(
                            Tree::Div { props: props.with(setter), children },
                        )
                        &&& only_changes(staging.nodes, next.nodes, top)
                        &&& next.stack == staging.stack
                        &&& next.root == staging.root
                    },
                    _ => result == Err::<Staging, i32>(-2i32),
                }
            }
        }),
{
    if staging.stack.len() > 0 {
        assert(staging.in_range(staging.stack[staging.stack.len() - 1]));
    }
}

/// Adding a child moves the node on top of the stack behind the children of the
/// div below it, which is then on top. It fails with fewer than two nodes on the
/// stack and on a parent that is a text.
pub proof fn law_attaching(staging: Staging)
    requires
        staging.live(),
    ensures
        ({
            let result = staging.step(Command::AddChild);
            let n = staging.stack.len() as int;
            if n < 2 {
                result == Err::<Staging, i32>(-1i32)
            } else {
                let parent = staging.stack[n - 2] as int;
                let child = staging.stack[n - 1] as int;
                match staging.nodes[parent] {
                    Some(Tree::Div { props, children }) => {
                        &&& result matches Ok(next)
                        &&& next.nodes[parent] matches Some(Tree::Div { props: kept, children: all })
                        &&& kept == props
                        &&& all.len() == children.len() + 1
                        &&& Some(all.last()) == staging.nodes[child]
                        &&& all.drop_last() == children
                        &&& next.nodes[child] is None
                        &&& next.nodes.len() == staging.nodes.len()
                        &&& forall|i: int|
                            0 <= i < staging.nodes.len() && i != parent && i != child
                                ==> #[trigger] next.nodes[i] == staging.nodes[i]
                        &&& next.stack == staging.stack.drop_last()
                        &&& next.root == staging.root
                    },
                    _ => result == Err::<Staging, i32>(-2i32),
                }
            }
        }),
{
    let n = staging.stack.len() as int;
    if n >= 2 {
        assert(staging.in_range(staging.stack[n - 1]));
        assert(staging.in_range(staging.stack[n - 2]));
        assert(staging.stack[n - 2] != staging.stack[n - 1]);
        if let Some(Tree::Div { children, .. }) = staging.nodes[staging.stack[n - 2] as int] {
            let moved = staging.nodes[staging.stack[n - 1] as int]->Some_0;
            assert(children.push(moved).drop_last() =~= children);
        }
    }
}

/// Setting the root takes the handle on top of the stack, whatever the root was
/// before. It fails on an empty stack.
pub proof fn law_rooting(staging: Staging)
    requires
        staging.live(),
    ensures
        ({
            let result = staging.step(Command::SetRoot);
            if staging.stack.len() == 0 {
                result == Err::<Staging, i32>(-1i32)
            } else {
                &&& result matches Ok(next)
                &&& next.root matches Some(r)
                &&& r == staging.stack.last()
                &&& next.nodes == staging.nodes
                &&& next.stack == staging.stack.drop_last()
            }
        }),
{
    if staging.stack.len() > 0 {
        assert(staging.in_range(staging.stack[staging.stack.len() - 1]));
    }
}

/// Records are executed one after the other, to the end of the data or to the
/// first that cannot be read or fails.
pub proof fn law_executing(data: Seq<u8>, pos: int, staging: Staging)
    ensures
        parse_at(data, pos) is End ==> execute(data, pos, staging) == Ok::<Staging, i32>(staging),
        parse_at(data, pos) matches Parsed::Fail(status) ==> execute(data, pos, staging) == Err::<
            Staging,
            i32,
        >(status),
        parse_at(data, pos) matches Parsed::Cmd(command, end) ==> match staging.step(command) {
            Ok(next) => execute(data, pos, staging) == execute(data, end, next),
            Err(status) => execute(data, pos, staging) == Err::<Staging, i32>(status),
        },
{
    lemma_parse_advances(data, pos);
}

/// What comes of staging: the tree under the root, unless there is no root or
/// two places of the tree carry the same key.
pub proof fn law_finishing(staging: Staging)
    requires
        staging.live(),
    ensures
        match staging.root {
            None => finished(staging) == Err::<Tree, i32>(-8i32),
            Some(r) => {
                let tree = staging.nodes[r as int]->Some_0;
                if distinct_keys(tree) {
                    finished(staging) == Ok::<Tree, i32>(tree)
                } else {
                    finished(staging) == Err::<Tree, i32>(-9i32)
                }
            },
        },
{
    if let Some(r) = staging.root {
        law_keys_distinct_by_place(staging.nodes[r as int]->Some_0);
    }
}

/// A buffer starts with the four letters and the number one; otherwise it is
/// rejected for its version. Then its records are executed on nothing.
pub proof fn law_decoding(data: Seq<u8>)
    ensures
        ({
            let framed = data.len() >= 8 && data[0] == 0x47 && data[1] == 0x50 && data[2] == 0x55
                && data[3] == 0x49 && data[4] == 1 && data[5] == 0 && data[6] == 0 && data[7] == 0;
            let nothing = Staging { nodes: Seq::empty(), stack: Seq::empty(), root: None };
            if !framed {
                decode(data) == Err::<Tree, i32>(-5i32)
            } else {
                match execute(data, 8, nothing) {
                    Ok(staging) => staging.live() && decode(data) == finished(staging),
                    Err(status) => decode(data) == Err::<Tree, i32>(status),
                }
            }
        }),
{
    let letters = seq![0x47u8, 0x50u8, 0x55u8, 0x49u8];
    if data.len() >= 8 {
        if data[0] == 0x47 && data[1] == 0x50 && data[2] == 0x55 && data[3] == 0x49 {
            assert(data.take(4) =~= letters);
        } else if data.take(4) == letters {
            assert(data.take(4)[0] == data[0] && data.take(4)[1] == data[1] && data.take(4)[2]
                == data[2] && data.take(4)[3] == data[3]);
        }
    }
    law_step_keeps_live(Staging::empty(), Command::Div);
    lemma_execute_live(data, 8, Staging::empty());
}

} // verus!
