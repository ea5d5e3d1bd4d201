//! Which command each text of a tree comes from, and that replacing a text in
//! place is building the tree with that command changed.

use vstd::prelude::*;
use vstd::utf8::*;

use crate::abi::GPUI_STATUS_OK;
use crate::builder::Staging;
use crate::decode::decode;
use crate::encode::{command_bytes, run};
use crate::labels::{law_relabel_keeps_rest, law_relabel_needs_label, law_relabel_reads_back};
use crate::laws::lemma_run_live;
use crate::node::{Command, Tree};
use crate::stream::{
    header, law_streams_concat, lemma_decode_body, lemma_execute_stream, lemma_executed_is_stream,
    lemma_stream_one, stream,
};
use crate::tree::{first_text, label, lemma_first_text, relabeled, relabeled_of, retexted};
use crate::views::{built_from, committed, updated_from};

verus! {

/// Where the texts of a tree come from: the shape of the tree, with the index of
/// a command in place of each text.
pub enum Source {
    Div(Seq<Source>),
    Text(int),
}

/// The sources of the nodes in staging after the command with this index.
pub open spec fn sources_after(
    staging: Staging,
    sources: Seq<Option<Source>>,
    command: Command<Seq<char>>,
    index: int,
) -> Seq<Option<Source>> {
    match command {
        Command::Div => sources.push(Some(Source::Div(Seq::empty()))),
        Command::Text { .. } => sources.push(Some(Source::Text(index))),
        Command::AddChild => {
            let n = staging.stack.len();
            let parent = staging.stack[n - 2] as int;
            let child = staging.stack[n - 1] as int;
            let grew = sources[parent]->Some_0->Div_0.push(sources[child]->Some_0);
            sources.update(child, None).update(parent, Some(Source::Div(grew)))
        },
        Command::Apply(_) | Command::SetRoot => sources,
    }
}

/// The sources of the nodes in staging after a list of commands, the first of
/// which has this index.
pub open spec fn traced(
    commands: Seq<Command<Seq<char>>>,
    index: int,
    staging: Staging,
    sources: Seq<Option<Source>>,
) -> Seq<Option<Source>>
    decreases commands.len(),
{
    if commands.len() == 0 {
        sources
    } else {
        match staging.step(commands.first()) {
            Ok(next) => traced(
                commands.drop_first(),
                index + 1,
                next,
                sources_after(staging, sources, commands.first(), index),
            ),
            Err(_) => sources,
        }
    }
}

/// The command that the text under a key comes from.
pub open spec fn text_source(tree: Tree, source: Source, key: Seq<char>) -> Option<int>
    decreases tree,
{
    match (tree, source) {
        (Tree::Div { props, children }, Source::Div(list)) => if props.key == Some(key) {
            match first_text(children) {
                Some(i) => Some(list[i]->Text_0),
                None => None,
            }
        } else {
            text_source_of(children, list, key)
        },
        _ => None,
    }
}

/// The command that the text under a key in a list of trees comes from.
pub open spec fn text_source_of(trees: Seq<Tree>, list: Seq<Source>, key: Seq<char>) -> Option<int>
    decreases trees,
{
    if trees.len() == 0 {
        None
    } else {
        match text_source(trees.first(), list.first(), key) {
            Some(i) => Some(i),
            None => text_source_of(trees.drop_first(), list.drop_first(), key),
        }
    }
}

/// The index of the command that carries the text under a key in the tree that
/// the commands build.
pub open spec fn text_record(commands: Seq<Command<Seq<char>>>, key: Seq<char>) -> Option<int> {
    match run(commands, Staging::empty()) {
        Ok(staging) => match staging.rooted() {
            Ok(tree) => {
                let sources = traced(commands, 0, Staging::empty(), Seq::empty());
                text_source(tree, sources[staging.root->Some_0 as int]->Some_0, key)
            },
            Err(_) => None,
        },
        Err(_) => None,
    }
}

/// The command with another text; its color and size are kept.
pub open spec fn recarried(command: Command<Seq<char>>, text: Seq<char>) -> Command<Seq<char>> {
    match command {
        Command::Text { color, size, .. } => Command::Text { content: text, color, size },
        _ => command,
    }
}

/// Whether a source has the shape of a tree.
spec fn fits(tree: Tree, source: Source) -> bool
    decreases tree,
{
    match (tree, source) {
        (Tree::Div { children, .. }, Source::Div(list)) => fits_of(children, list),
        (Tree::Text { .. }, Source::Text(_)) => true,
        _ => false,
    }
}

spec fn fits_of(trees: Seq<Tree>, list: Seq<Source>) -> bool
    decreases trees,
{
    if trees.len() == 0 {
        list.len() == 0
    } else {
        &&& list.len() == trees.len()
        &&& fits(trees.first(), list.first())
        &&& fits_of(trees.drop_first(), list.drop_first())
    }
}

/// The tree with another content in every text that comes from command `j`.
spec fn reworded(tree: Tree, source: Source, j: int, text: Seq<char>) -> Tree
    decreases tree,
{
    match (tree, source) {
        (Tree::Div { props, children }, Source::Div(list)) => Tree::Div {
            props,
            children: reworded_of(children, list, j, text),
        },
        (Tree::Text { .. }, Source::Text(n)) if n == j => retexted(tree, text),
        _ => tree,
    }
}

spec fn reworded_of(trees: Seq<Tree>, list: Seq<Source>, j: int, text: Seq<char>) -> Seq<Tree>
    decreases trees,
{
    if trees.len() == 0 {
        Seq::empty()
    } else {
        seq![reworded(trees.first(), list.first(), j, text)] + reworded_of(
            trees.drop_first(),
            list.drop_first(),
            j,
            text,
        )
    }
}

/// How often command `j` is a source.
spec fn occurs(source: Source, j: int) -> nat
    decreases source,
{
    match source {
        Source::Div(list) => occurs_of(list, j),
        Source::Text(n) => if n == j {
            1
        } else {
            0
        },
    }
}

spec fn occurs_of(list: Seq<Source>, j: int) -> nat
    decreases list,
{
    if list.len() == 0 {
        0
    } else {
        occurs(list.first(), j) + occurs_of(list.drop_first(), j)
    }
}

spec fn slot_occurs(slot: Option<Source>, j: int) -> nat {
    match slot {
        Some(source) => occurs(source, j),
        None => 0,
    }
}

/// How often command `j` is a source of a node in staging.
spec fn total(sources: Seq<Option<Source>>, j: int) -> nat
    decreases sources.len(),
{
    if sources.len() == 0 {
        0
    } else {
        total(sources.drop_last(), j) + slot_occurs(sources.last(), j)
    }
}

/// Whether the sources have the shapes of the nodes in staging.
spec fn slots_fit(nodes: Seq<Option<Tree>>, sources: Seq<Option<Source>>) -> bool {
    &&& nodes.len() == sources.len()
    &&& forall|i: int|
        0 <= i < nodes.len() ==> match (#[trigger] nodes[i], sources[i]) {
            (Some(tree), Some(source)) => fits(tree, source),
            (None, None) => true,
            _ => false,
        }
}

spec fn reworded_slot(slot: Option<Tree>, source: Option<Source>, j: int, text: Seq<char>) -> Option<
    Tree,
> {
    match (slot, source) {
        (Some(tree), Some(s)) => Some(reworded(tree, s, j, text)),
        _ => slot,
    }
}

/// `b` is `a` with another content in every text that comes from command `j`.
spec fn parallel(
    a: Staging,
    b: Staging,
    sources: Seq<Option<Source>>,
    j: int,
    text: Seq<char>,
) -> bool {
    &&& slots_fit(a.nodes, sources)
    &&& b.stack == a.stack
    &&& b.root == a.root
    &&& b.nodes.len() == a.nodes.len()
    &&& forall|i: int|
        0 <= i < a.nodes.len() ==> #[trigger] b.nodes[i] == reworded_slot(
            a.nodes[i],
            sources[i],
            j,
            text,
        )
}

proof fn lemma_fits_push(trees: Seq<Tree>, list: Seq<Source>, tree: Tree, source: Source)
    requires
        fits_of(trees, list),
        fits(tree, source),
    ensures
        fits_of(trees.push(tree), list.push(source)),
    decreases trees.len(),
{
    reveal_with_fuel(fits_of, 2);
    if trees.len() == 0 {
        assert(trees.push(tree).drop_first() =~= Seq::empty());
        assert(list.push(source).drop_first() =~= Seq::empty());
    } else {
        lemma_fits_push(trees.drop_first(), list.drop_first(), tree, source);
        assert(trees.push(tree).drop_first() =~= trees.drop_first().push(tree));
        assert(list.push(source).drop_first() =~= list.drop_first().push(source));
    }
}

proof fn lemma_reworded_push(
    trees: Seq<Tree>,
    list: Seq<Source>,
    tree: Tree,
    source: Source,
    j: int,
    text: Seq<char>,
)
    requires
        fits_of(trees, list),
    ensures
        reworded_of(trees.push(tree), list.push(source), j, text) == reworded_of(
            trees,
            list,
            j,
            text,
        ).push(reworded(tree, source, j, text)),
    decreases trees.len(),
{
    reveal_with_fuel(reworded_of, 2);
    if trees.len() == 0 {
        assert(trees.push(tree).drop_first() =~= Seq::empty());
        assert(list.push(source).drop_first() =~= Seq::empty());
    } else {
        lemma_reworded_push(trees.drop_first(), list.drop_first(), tree, source, j, text);
        assert(trees.push(tree).drop_first() =~= trees.drop_first().push(tree));
        assert(list.push(source).drop_first() =~= list.drop_first().push(source));
    }
    assert(reworded_of(trees.push(tree), list.push(source), j, text) =~= reworded_of(
        trees,
        list,
        j,
        text,
    ).push(reworded(tree, source, j, text)));
}

proof fn lemma_occurs_push(list: Seq<Source>, source: Source, j: int)
    ensures
        occurs_of(list.push(source), j) == occurs_of(list, j) + occurs(source, j),
    decreases list.len(),
{
    reveal_with_fuel(occurs_of, 2);
    if list.len() == 0 {
        assert(list.push(source).drop_first() =~= Seq::empty());
    } else {
        lemma_occurs_push(list.drop_first(), source, j);
        assert(list.push(source).drop_first() =~= list.drop_first().push(source));
    }
}

proof fn lemma_total_update(sources: Seq<Option<Source>>, i: int, slot: Option<Source>, j: int)
    requires
        0 <= i < sources.len(),
    ensures
        total(sources.update(i, slot), j) == total(sources, j) - slot_occurs(sources[i], j)
            + slot_occurs(slot, j),
        slot_occurs(sources[i], j) <= total(sources, j),
    decreases sources.len(),
{
    let after = sources.update(i, slot);
    if i == sources.len() - 1 {
        assert(after.drop_last() =~= sources.drop_last());
    } else {
        lemma_total_update(sources.drop_last(), i, slot, j);
        assert(after.drop_last() =~= sources.drop_last().update(i, slot));
    }
}

/// One step keeps the sources in shape, and adds one occurrence of `j` exactly
/// when it is the text command with that index.
proof fn lemma_step_sources(
    staging: Staging,
    sources: Seq<Option<Source>>,
    command: Command<Seq<char>>,
    index: int,
    j: int,
)
    requires
        slots_fit(staging.nodes, sources),
        staging.step(command) is Ok,
    ensures
        slots_fit(
            staging.step(command)->Ok_0.nodes,
            sources_after(staging, sources, command, index),
        ),
        total(sources_after(staging, sources, command, index), j) == total(sources, j)
            + if command is Text && index == j {
            1nat
        } else {
            0nat
        },
{
    let next = staging.step(command)->Ok_0;
    let after = sources_after(staging, sources, command, index);
    match command {
        Command::Div | Command::Text { .. } => {
            assert(after.drop_last() =~= sources);
            assert(occurs_of(Seq::empty(), j) == 0);
            assert forall|i: int| 0 <= i < next.nodes.len() implies match (
                #[trigger] next.nodes[i],
                after[i],
            ) {
                (Some(tree), Some(source)) => fits(tree, source),
                (None, None) => true,
                _ => false,
            } by {
                if i < staging.nodes.len() {
                    assert(next.nodes[i] == staging.nodes[i]);
                }
            }
        },
        Command::Apply(_) => {
            let top = staging.stack.last() as int;
            assert(staging.nodes[top] is Some);
        },
        Command::AddChild => {
            let n = staging.stack.len();
            let parent = staging.stack[n - 2] as int;
            let child = staging.stack[n - 1] as int;
            let children = staging.nodes[parent]->Some_0->children;
            let moved = staging.nodes[child]->Some_0;
            let list = sources[parent]->Some_0->Div_0;
            let source = sources[child]->Some_0;
            assert(fits(staging.nodes[parent]->Some_0, sources[parent]->Some_0));
            assert(fits(moved, source));
            lemma_fits_push(children, list, moved, source);
            lemma_occurs_push(list, source, j);
            lemma_total_update(sources, child, None, j);
            lemma_total_update(
                sources.update(child, None),
                parent,
                Some(Source::Div(list.push(source))),
                j,
            );
        },
        Command::SetRoot => {},
    }
}

/// The same step on two stagings that differ only in texts from command `j`.
proof fn lemma_step_parallel(
    a: Staging,
    b: Staging,
    sources: Seq<Option<Source>>,
    command: Command<Seq<char>>,
    index: int,
    j: int,
    text: Seq<char>,
)
    requires
        parallel(a, b, sources, j, text),
        a.step(command) is Ok,
    ensures
        ({
            let other = if index == j {
                recarried(command, text)
            } else {
                command
            };
            &&& b.step(other) is Ok
            &&& parallel(
                a.step(command)->Ok_0,
                b.step(other)->Ok_0,
                sources_after(a, sources, command, index),
                j,
                text,
            )
        }),
{
    let other = if index == j {
        recarried(command, text)
    } else {
        command
    };
    let next = a.step(command)->Ok_0;
    let after = sources_after(a, sources, command, index);
    lemma_step_sources(a, sources, command, index, j);
    match command {
        Command::Div | Command::Text { .. } => {
            let two = b.step(other)->Ok_0;
            let at = a.nodes.len() as int;
            assert(reworded_of(Seq::empty(), Seq::empty(), j, text) =~= Seq::<Tree>::empty());
            assert(two.nodes[at] == reworded_slot(next.nodes[at], after[at], j, text));
            assert forall|i: int| 0 <= i < next.nodes.len() implies #[trigger] two.nodes[i]
                == reworded_slot(next.nodes[i], after[i], j, text) by {
                if i < at {
                    assert(two.nodes[i] == b.nodes[i]);
                }
            }
        },
        Command::Apply(_) => {
            let top = a.stack.last() as int;
            assert(b.nodes[top] == reworded_slot(a.nodes[top], sources[top], j, text));
            assert(fits(a.nodes[top]->Some_0, sources[top]->Some_0));
        },
        Command::AddChild => {
            let n = a.stack.len();
            let parent = a.stack[n - 2] as int;
            let child = a.stack[n - 1] as int;
            let children = a.nodes[parent]->Some_0->children;
            let moved = a.nodes[child]->Some_0;
            let list = sources[parent]->Some_0->Div_0;
            let source = sources[child]->Some_0;
            assert(fits(a.nodes[parent]->Some_0, sources[parent]->Some_0));
            assert(fits(moved, source));
            assert(b.nodes[parent] == reworded_slot(a.nodes[parent], sources[parent], j, text));
            assert(b.nodes[child] == reworded_slot(a.nodes[child], sources[child], j, text));
            lemma_reworded_push(children, list, moved, source, j, text);
        },
        Command::SetRoot => {
            let top = a.stack.last() as int;
            assert(b.nodes[top] == reworded_slot(a.nodes[top], sources[top], j, text));
            assert(a.nodes[top] is Some ==> sources[top] is Some);
        },
    }
}

/// The commands with another text in command `j`, if it is among them.
spec fn changed(
    commands: Seq<Command<Seq<char>>>,
    index: int,
    j: int,
    text: Seq<char>,
) -> Seq<Command<Seq<char>>> {
    if index <= j < index + commands.len() {
        commands.update(j - index, recarried(commands[j - index], text))
    } else {
        commands
    }
}

proof fn lemma_run_parallel(
    commands: Seq<Command<Seq<char>>>,
    index: int,
    a: Staging,
    b: Staging,
    sources: Seq<Option<Source>>,
    j: int,
    text: Seq<char>,
)
    requires
        parallel(a, b, sources, j, text),
    ensures
        run(commands, a) matches Ok(end) ==> {
            let other = run(changed(commands, index, j, text), b);
            &&& other is Ok
            &&& parallel(end, other->Ok_0, traced(commands, index, a, sources), j, text)
            &&& total(traced(commands, index, a, sources), j) == total(sources, j) + if index <= j
                < index + commands.len() && commands[j - index] is Text {
                1nat
            } else {
                0nat
            }
        },
    decreases commands.len(),
{
    if commands.len() > 0 {
        let command = commands.first();
        let rest = commands.drop_first();
        let all = changed(commands, index, j, text);
        assert(all.drop_first() =~= changed(rest, index + 1, j, text));
        if let Ok(next) = a.step(command) {
            lemma_step_sources(a, sources, command, index, j);
            lemma_step_parallel(a, b, sources, command, index, j, text);
            let after = sources_after(a, sources, command, index);
            lemma_run_parallel(rest, index + 1, next, b.step(all.first())->Ok_0, after, j, text);
        }
    }
}

proof fn lemma_reworded_nothing(tree: Tree, source: Source, j: int, text: Seq<char>)
    requires
        fits(tree, source),
        occurs(source, j) == 0,
    ensures
        reworded(tree, source, j, text) == tree,
    decreases tree,
{
    if let (Tree::Div { children, .. }, Source::Div(list)) = (tree, source) {
        lemma_reworded_nothing_of(children, list, j, text);
    }
}

proof fn lemma_reworded_nothing_of(trees: Seq<Tree>, list: Seq<Source>, j: int, text: Seq<char>)
    requires
        fits_of(trees, list),
        occurs_of(list, j) == 0,
    ensures
        reworded_of(trees, list, j, text) == trees,
    decreases trees,
{
    if trees.len() > 0 {
        lemma_reworded_nothing(trees.first(), list.first(), j, text);
        lemma_reworded_nothing_of(trees.drop_first(), list.drop_first(), j, text);
        assert(seq![trees.first()] + trees.drop_first() =~= trees);
    }
}

/// Changing the one text of a list that comes from command `j`.
proof fn lemma_reworded_one(trees: Seq<Tree>, list: Seq<Source>, i: int, j: int, text: Seq<char>)
    requires
        fits_of(trees, list),
        0 <= i < trees.len(),
        trees[i] is Text,
        list[i]->Text_0 == j,
        occurs_of(list, j) <= 1,
    ensures
        reworded_of(trees, list, j, text) == trees.update(i, retexted(trees[i], text)),
        occurs_of(list, j) == 1,
    decreases trees.len(),
{
    let rest = trees.drop_first();
    let tail = list.drop_first();
    if i == 0 {
        assert(fits(trees.first(), list.first()));
        assert(list.first() == Source::Text(j));
        assert(occurs(list.first(), j) == 1);
        assert(reworded(trees.first(), list.first(), j, text) == retexted(trees[0], text));
        lemma_reworded_nothing_of(rest, tail, j, text);
        assert(seq![retexted(trees[0], text)] + rest =~= trees.update(
            0,
            retexted(trees[0], text),
        ));
    } else {
        lemma_reworded_one(rest, tail, i - 1, j, text);
        lemma_reworded_nothing(trees.first(), list.first(), j, text);
        assert(seq![trees.first()] + rest.update(i - 1, retexted(trees[i], text))
            =~= trees.update(i, retexted(trees[i], text)));
    }
}

/// Replacing the text under a key is changing the text from its command, where
/// no other text comes from that command.
proof fn lemma_relabeled_is_reworded(
    tree: Tree,
    source: Source,
    key: Seq<char>,
    j: int,
    text: Seq<char>,
)
    requires
        fits(tree, source),
        occurs(source, j) <= 1,
    ensures
        text_source(tree, source, key) is Some <==> relabeled(tree, key, text) is Some,
        text_source(tree, source, key) == Some(j) ==> {
            &&& occurs(source, j) == 1
            &&& relabeled(tree, key, text) == Some(reworded(tree, source, j, text))
        },
    decreases tree,
{
    if let (Tree::Div { props, children }, Source::Div(list)) = (tree, source) {
        if props.key == Some(key) {
            lemma_first_text(children);
            if text_source(tree, source, key) == Some(j) {
                lemma_reworded_one(children, list, first_text(children)->Some_0, j, text);
            }
        } else {
            lemma_relabeled_is_reworded_of(children, list, key, j, text);
        }
    }
}

proof fn lemma_relabeled_is_reworded_of(
    trees: Seq<Tree>,
    list: Seq<Source>,
    key: Seq<char>,
    j: int,
    text: Seq<char>,
)
    requires
        fits_of(trees, list),
        occurs_of(list, j) <= 1,
    ensures
        text_source_of(trees, list, key) is Some <==> relabeled_of(trees, key, text) is Some,
        text_source_of(trees, list, key) == Some(j) ==> {
            &&& occurs_of(list, j) == 1
            &&& relabeled_of(trees, key, text) == Some(reworded_of(trees, list, j, text))
        },
    decreases trees,
{
    if trees.len() > 0 {
        let (first, rest) = (trees.first(), trees.drop_first());
        let (head, tail) = (list.first(), list.drop_first());
        lemma_relabeled_is_reworded(first, head, key, j, text);
        lemma_relabeled_is_reworded_of(rest, tail, key, j, text);
        if text_source_of(trees, list, key) == Some(j) {
            if text_source(first, head, key) is Some {
                lemma_reworded_nothing_of(rest, tail, j, text);
            } else {
                lemma_reworded_nothing(first, head, j, text);
            }
        }
    }
}

/// Replacing the text under a key in the tree that commands build gives the
/// tree that they build with that text in the command it came from.
pub proof fn law_update_is_rerun(commands: Seq<Command<Seq<char>>>, key: Seq<char>, text: Seq<char>)
    requires
        text_record(commands, key) is Some,
    ensures
        ({
            let j = text_record(commands, key)->Some_0;
            let again = commands.update(j, recarried(commands[j], text));
            let before = run(commands, Staging::empty())->Ok_0.rooted()->Ok_0;
            &&& 0 <= j < commands.len()
            &&& commands[j] is Text
            &&& run(again, Staging::empty()) matches Ok(staging)
            &&& staging.rooted() matches Ok(after)
            &&& relabeled(before, key, text) == Some(after)
        }),
{
    let start = Staging::empty();
    let none = Seq::<Option<Source>>::empty();
    let j = text_record(commands, key)->Some_0;
    lemma_run_live(commands, start);
    lemma_run_parallel(commands, 0, start, start, none, j, text);
    let end = run(commands, start)->Ok_0;
    let sources = traced(commands, 0, start, none);
    let r = end.root->Some_0 as int;
    assert(end.nodes[r] is Some);
    assert(sources[r] is Some);
    let (tree, source) = (end.nodes[r]->Some_0, sources[r]->Some_0);
    assert(fits(tree, source));
    lemma_total_update(sources, r, None, j);
    lemma_relabeled_is_reworded(tree, source, key, j, text);
    let again = run(changed(commands, 0, j, text), start)->Ok_0;
    assert(again.nodes[r] == reworded_slot(end.nodes[r], sources[r], j, text));
}

/// There is a text under a key in the tree that commands build exactly when one
/// of them carries it, and it is the text of that command.
pub proof fn law_text_has_record(commands: Seq<Command<Seq<char>>>, key: Seq<char>)
    requires
        run(commands, Staging::empty()) is Ok,
        run(commands, Staging::empty())->Ok_0.rooted() is Ok,
    ensures
        ({
            let tree = run(commands, Staging::empty())->Ok_0.rooted()->Ok_0;
            match text_record(commands, key) {
                Some(j) => {
                    &&& 0 <= j < commands.len()
                    &&& commands[j] matches Command::Text { content, .. }
                    &&& label(tree, key) == Some(content)
                },
                None => label(tree, key) is None,
            }
        }),
{
    let start = Staging::empty();
    let none = Seq::<Option<Source>>::empty();
    let end = run(commands, start)->Ok_0;
    let tree = end.rooted()->Ok_0;
    match text_record(commands, key) {
        Some(j) => {
            let text = commands[j]->content;
            law_update_is_rerun(commands, key, text);
            assert(commands.update(j, recarried(commands[j], text)) =~= commands);
            law_relabel_reads_back(tree, key, text, key);
        },
        None => {
            lemma_run_live(commands, start);
            lemma_run_parallel(commands, 0, start, start, none, -1, key);
            let sources = traced(commands, 0, start, none);
            let r = end.root->Some_0 as int;
            assert(end.nodes[r] is Some);
            lemma_total_update(sources, r, None, -1);
            lemma_relabeled_is_reworded(tree, sources[r]->Some_0, key, -1, key);
            law_relabel_needs_label(tree, key, key);
        },
    }
}

/// Updating the text under a key leaves what building the buffer with that text
/// in its record would have left: the same tree in the view, and every other
/// slot as it was.
pub proof fn law_update_is_rebuild(
    slots: Seq<Option<Tree>>,
    view: i32,
    before: Seq<u8>,
    record: Seq<u8>,
    after: Seq<u8>,
    carried: Command<Seq<char>>,
    key: Seq<u8>,
    text: Seq<u8>,
)
    requires
        view >= 0,
        stream(before) is Some,
        stream(record) == Some(seq![carried]),
        decode(header() + (before + (record + after))) is Ok,
        valid_utf8(key),
        valid_utf8(text),
        text.len() <= u32::MAX,
        text_record(stream(before + (record + after))->Some_0, decode_utf8(key)) == Some(
            stream(before)->Some_0.len() as int,
        ),
    ensures
        ({
            let old_buffer = header() + (before + (record + after));
            let new_record = command_bytes(recarried(carried, decode_utf8(text)));
            let new_buffer = header() + (before + (new_record + after));
            let first = built_from(slots, view, Some(old_buffer));
            let second = updated_from(first.1, view, Some(key), Some(text));
            &&& second.0 == GPUI_STATUS_OK
            &&& second == built_from(slots, view, Some(new_buffer))
        }),
{
    let start = Staging::empty();
    let (k, t) = (decode_utf8(key), decode_utf8(text));
    let body = before + (record + after);
    let new_command = recarried(carried, t);
    let new_record = command_bytes(new_command);
    let new_body = before + (new_record + after);
    let xs = stream(before)->Some_0;
    lemma_decode_body(body);
    lemma_decode_body(new_body);
    lemma_executed_is_stream(body, 0, start);
    law_streams_concat(before, record + after);
    law_streams_concat(record, after);
    let ys = stream(after)->Some_0;
    let commands = stream(body)->Some_0;
    let j = xs.len() as int;
    assert(commands =~= xs + (seq![carried] + ys));
    assert(commands[j] == carried);
    law_update_is_rerun(commands, k, t);
    decode_utf8_encode_utf8(text);
    lemma_stream_one(new_command);
    law_streams_concat(new_record, after);
    law_streams_concat(before, new_record + after);
    let again = commands.update(j, new_command);
    assert(stream(new_body)->Some_0 =~= again);
    lemma_execute_stream(body, start);
    lemma_execute_stream(new_body, start);
    let tree = decode(header() + body)->Ok_0;
    law_relabel_keeps_rest(tree, k, t);
    let replaced = relabeled(tree, k, t)->Some_0;
    assert(decode(header() + new_body) == Ok::<Tree, i32>(replaced));
    let first = committed(slots, view as int, tree);
    assert(first.update(view as int, Some(replaced)) =~= committed(
        slots,
        view as int,
        replaced,
    ));
}

} // verus!
