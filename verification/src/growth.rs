//! From a tree to the commands that build it, and back.

use vstd::prelude::*;

use crate::abi::{GPUI_STATUS_DUPLICATE_KEY, GPUI_STATUS_OK};
use crate::builder::Staging;
use crate::decode::decode;
use crate::encode::{buffer_bytes, command_fits, law_buffer_round_trip, run};
use crate::node::{Command, DivProps, Rgb, Setter, Tree};
use crate::reader::Float32;
use crate::tree::{keys, node_count, node_count_of};
use crate::views::{built, committed};

verus! {

/// How a tree is made: what is set on each div, in order, and its children.
pub enum Recipe {
    Div { setters: Seq<Setter<Seq<char>>>, children: Seq<Recipe> },
    Text { content: Seq<char>, color: Rgb, size: Float32 },
}

/// The props after a list of setters.
pub open spec fn dressed(
    props: DivProps<Seq<char>>,
    setters: Seq<Setter<Seq<char>>>,
) -> DivProps<Seq<char>>
    decreases setters.len(),
{
    if setters.len() == 0 {
        props
    } else {
        dressed(props.with(setters.first()), setters.drop_first())
    }
}

/// The tree that a recipe makes.
pub open spec fn grown(recipe: Recipe) -> Tree
    decreases recipe,
{
    match recipe {
        Recipe::Div { setters, children } => Tree::Div {
            props: dressed(DivProps::initial(), setters),
            children: grown_of(children),
        },
        Recipe::Text { content, color, size } => Tree::Text { content, color, size },
    }
}

/// The trees that a list of recipes makes.
pub open spec fn grown_of(list: Seq<Recipe>) -> Seq<Tree>
    decreases list,
{
    if list.len() == 0 {
        Seq::empty()
    } else {
        seq![grown(list.first())] + grown_of(list.drop_first())
    }
}

/// The commands that apply a list of setters.
pub open spec fn setter_commands(setters: Seq<Setter<Seq<char>>>) -> Seq<Command<Seq<char>>> {
    setters.map_values(|s: Setter<Seq<char>>| Command::Apply(s))
}

/// The commands of a recipe: a div, what is set on it, and each child followed
/// by its attachment.
pub open spec fn recipe_commands(recipe: Recipe) -> Seq<Command<Seq<char>>>
    decreases recipe,
{
    match recipe {
        Recipe::Div { setters, children } => seq![Command::Div] + (setter_commands(setters)
            + attachments(children)),
        Recipe::Text { content, color, size } => seq![Command::Text { content, color, size }],
    }
}

/// The commands that build and attach a list of children.
pub open spec fn attachments(list: Seq<Recipe>) -> Seq<Command<Seq<char>>>
    decreases list,
{
    if list.len() == 0 {
        Seq::empty()
    } else {
        recipe_commands(list.first()) + (seq![Command::AddChild] + attachments(
            list.drop_first(),
        ))
    }
}

/// The buffer of a recipe.
pub open spec fn recipe_buffer(recipe: Recipe) -> Seq<u8> {
    buffer_bytes(recipe_commands(recipe).push(Command::SetRoot))
}

/// Running one list of commands after another is running them as one list.
pub proof fn lemma_run_concat(
    a: Seq<Command<Seq<char>>>,
    b: Seq<Command<Seq<char>>>,
    staging: Staging,
)
    ensures
        run(a + b, staging) == match run(a, staging) {
            Ok(next) => run(b, next),
            Err(status) => Err(status),
        },
    decreases a.len(),
{
    if a.len() == 0 {
        assert(a + b =~= b);
    } else {
        assert((a + b).first() == a.first());
        assert((a + b).drop_first() =~= a.drop_first() + b);
        if let Ok(next) = staging.step(a.first()) {
            lemma_run_concat(a.drop_first(), b, next);
        }
    }
}

/// Running a single command is taking its step.
pub proof fn lemma_run_one(command: Command<Seq<char>>, staging: Staging)
    ensures
        run(seq![command], staging) == staging.step(command),
{
    reveal_with_fuel(run, 2);
    assert(seq![command].drop_first() =~= Seq::empty());
}

/// Slots whose nodes were moved away.
spec fn vacant(n: nat) -> Seq<Option<Tree>> {
    Seq::new(n, |i: int| None)
}

/// The div under the handle on top of the stack.
spec fn top_div(staging: Staging, at: int, props: DivProps<Seq<char>>, children: Seq<Tree>) -> bool {
    &&& staging.stack.len() > 0
    &&& staging.stack.last() == at
    &&& 0 <= at < staging.nodes.len()
    &&& staging.nodes[at] == Some(Tree::Div { props, children })
}

proof fn lemma_run_setters(
    setters: Seq<Setter<Seq<char>>>,
    staging: Staging,
    at: int,
    props: DivProps<Seq<char>>,
    children: Seq<Tree>,
)
    requires
        top_div(staging, at, props, children),
    ensures
        run(setter_commands(setters), staging) == Ok::<Staging, i32>(
            Staging {
                nodes: staging.nodes.update(
                    at,
                    Some(Tree::Div { props: dressed(props, setters), children }),
                ),
                ..staging
            },
        ),
    decreases setters.len(),
{
    let commands = setter_commands(setters);
    if setters.len() == 0 {
        assert(staging.nodes.update(at, staging.nodes[at]) =~= staging.nodes);
    } else {
        let next = staging.applied(setters.first())->Ok_0;
        assert(commands.first() == Command::Apply(setters.first()));
        assert(commands.drop_first() =~= setter_commands(setters.drop_first()));
        lemma_run_setters(
            setters.drop_first(),
            next,
            at,
            props.with(setters.first()),
            children,
        );
        let end = Some(Tree::Div { props: dressed(props, setters), children });
        assert(next.nodes.update(at, end) =~= staging.nodes.update(at, end));
    }
}

/// Running the commands of a recipe pushes the tree it makes. The slots of the
/// nodes below its root are vacant.
proof fn lemma_grow(recipe: Recipe, staging: Staging)
    requires
        staging.nodes.len() + node_count(grown(recipe)) <= i32::MAX + 1,
    ensures
        run(recipe_commands(recipe), staging) == Ok::<Staging, i32>(
            Staging {
                nodes: staging.nodes.push(Some(grown(recipe))) + vacant(
                    (node_count(grown(recipe)) - 1) as nat,
                ),
                stack: staging.stack.push(staging.nodes.len() as i32),
                ..staging
            },
        ),
    decreases recipe,
{
    let at = staging.nodes.len() as int;
    match recipe {
        Recipe::Text { content, color, size } => {
            let command = Command::Text { content, color, size };
            lemma_run_one(command, staging);
            assert(staging.nodes.push(Some(grown(recipe))) + vacant(0) =~= staging.nodes.push(
                Some(grown(recipe)),
            ));
        },
        Recipe::Div { setters, children } => {
            let initial = DivProps::<Seq<char>>::initial();
            let props = dressed(initial, setters);
            let rest = setter_commands(setters) + attachments(children);
            let one = staging.step(Command::Div)->Ok_0;
            let two = Staging {
                nodes: one.nodes.update(at, Some(Tree::Div { props, children: Seq::empty() })),
                ..one
            };
            lemma_run_one(Command::Div, staging);
            lemma_run_concat(seq![Command::Div], rest, staging);
            lemma_run_setters(setters, one, at, initial, Seq::empty());
            lemma_run_concat(setter_commands(setters), attachments(children), one);
            lemma_grow_children(children, two, at, props, Seq::empty());
            assert(Seq::<Tree>::empty() + grown_of(children) =~= grown_of(children));
            let n = node_count_of(grown_of(children));
            assert(two.nodes.update(at, Some(grown(recipe))) + vacant(n) =~= staging.nodes.push(
                Some(grown(recipe)),
            ) + vacant(n));
        },
    }
}

proof fn lemma_grow_children(
    list: Seq<Recipe>,
    staging: Staging,
    at: int,
    props: DivProps<Seq<char>>,
    children: Seq<Tree>,
)
    requires
        top_div(staging, at, props, children),
        staging.nodes.len() + node_count_of(grown_of(list)) <= i32::MAX + 1,
    ensures
        run(attachments(list), staging) == Ok::<Staging, i32>(
            Staging {
                nodes: staging.nodes.update(
                    at,
                    Some(Tree::Div { props, children: children + grown_of(list) }),
                ) + vacant(node_count_of(grown_of(list))),
                ..staging
            },
        ),
    decreases list,
{
    if list.len() == 0 {
        assert(children + grown_of(list) =~= children);
        assert(staging.nodes.update(at, staging.nodes[at]) + vacant(0) =~= staging.nodes);
    } else {
        let first = grown(list.first());
        let rest = list.drop_first();
        let n = node_count(first);
        let m = node_count_of(grown_of(rest));
        assert(grown_of(list).first() == first);
        assert(grown_of(list).drop_first() =~= grown_of(rest));
        lemma_grow(list.first(), staging);
        let child = staging.nodes.len() as int;
        let one = Staging {
            nodes: staging.nodes.push(Some(first)) + vacant((n - 1) as nat),
            stack: staging.stack.push(child as i32),
            ..staging
        };
        let grew = Some(Tree::Div { props, children: children.push(first) });
        let two = Staging { nodes: staging.nodes.update(at, grew) + vacant(n), ..staging };
        assert(one.child_added() == Ok::<Staging, i32>(two)) by {
            assert(one.stack[one.stack.len() - 2] == at);
            assert(one.stack.drop_last() =~= staging.stack);
            assert(one.nodes[at] == staging.nodes[at]);
            assert(one.nodes[child] == Some(first));
            assert(one.nodes.update(child, None).update(at, grew) =~= two.nodes);
        }
        let tail = seq![Command::AddChild] + attachments(rest);
        lemma_run_concat(recipe_commands(list.first()), tail, staging);
        lemma_run_one(Command::AddChild, one);
        lemma_run_concat(seq![Command::AddChild], attachments(rest), one);
        lemma_grow_children(rest, two, at, props, children.push(first));
        assert(children.push(first) + grown_of(rest) =~= children + grown_of(list));
        let end = Some(Tree::Div { props, children: children + grown_of(list) });
        assert(two.nodes.update(at, end) + vacant(m) =~= staging.nodes.update(at, end) + vacant(
            n + m,
        ));
    }
}

/// The buffer of a recipe decodes to the tree that the recipe makes: the same
/// nesting, the same order, the same props, provided that no key occurs twice
/// in it. A tree needs a handle for each of its nodes.
pub proof fn law_recipe_decodes(recipe: Recipe)
    requires
        node_count(grown(recipe)) <= i32::MAX + 1,
        forall|i: int|
            0 <= i < recipe_commands(recipe).len() ==> command_fits(
                #[trigger] recipe_commands(recipe)[i],
            ),
    ensures
        decode(recipe_buffer(recipe)) == if keys(grown(recipe)).no_duplicates() {
            Ok(grown(recipe))
        } else {
            Err(GPUI_STATUS_DUPLICATE_KEY)
        },
{
    let commands = recipe_commands(recipe);
    let all = commands.push(Command::SetRoot);
    let start = Staging::empty();
    assert(all =~= commands + seq![Command::SetRoot]);
    lemma_grow(recipe, start);
    let end = run(commands, start)->Ok_0;
    lemma_run_concat(commands, seq![Command::SetRoot], start);
    lemma_run_one(Command::SetRoot, end);
    assert(end.stack.last() == 0);
    assert(end.nodes[0] == Some(grown(recipe)));
    assert forall|i: int| 0 <= i < all.len() implies command_fits(#[trigger] all[i]) by {
        if i < commands.len() {
            assert(command_fits(commands[i]));
        }
    }
    law_buffer_round_trip(all);
}

/// Whether nothing is set on the divs of a tree but keys.
pub open spec fn keyed_only(tree: Tree) -> bool
    decreases tree,
{
    match tree {
        Tree::Div { props, children } => {
            &&& props == DivProps::initial().key_set(props.key)
            &&& forall|i: int| 0 <= i < children.len() ==> keyed_only(#[trigger] children[i])
        },
        Tree::Text { .. } => true,
    }
}

impl DivProps<Seq<char>> {
    /// The props with a key or without one.
    pub open spec fn key_set(self, key: Option<Seq<char>>) -> DivProps<Seq<char>> {
        DivProps { key, ..self }
    }
}

/// The recipe of a tree with nothing set on its divs but keys.
pub open spec fn keyed_recipe(tree: Tree) -> Recipe
    decreases tree,
{
    match tree {
        Tree::Div { props, children } => Recipe::Div {
            setters: match props.key {
                Some(key) => seq![Setter::Key(key)],
                None => Seq::empty(),
            },
            children: keyed_recipes(children),
        },
        Tree::Text { content, color, size } => Recipe::Text { content, color, size },
    }
}

/// The recipes of a list of such trees.
pub open spec fn keyed_recipes(list: Seq<Tree>) -> Seq<Recipe>
    decreases list,
{
    if list.len() == 0 {
        Seq::empty()
    } else {
        seq![keyed_recipe(list.first())] + keyed_recipes(list.drop_first())
    }
}

proof fn lemma_keyed_recipe(tree: Tree)
    requires
        keyed_only(tree),
    ensures
        grown(keyed_recipe(tree)) == tree,
    decreases tree,
{
    if let Tree::Div { props, children } = tree {
        lemma_keyed_recipes(children);
        let initial = DivProps::<Seq<char>>::initial();
        reveal_with_fuel(dressed, 2);
        if let Some(key) = props.key {
            let one = seq![Setter::Key(key)];
            assert(one.drop_first() =~= Seq::empty());
            assert(dressed(initial, one) == initial.with(Setter::Key(key)));
        }
    }
}

proof fn lemma_keyed_recipes(list: Seq<Tree>)
    requires
        forall|i: int| 0 <= i < list.len() ==> keyed_only(#[trigger] list[i]),
    ensures
        grown_of(keyed_recipes(list)) == list,
    decreases list,
{
    if list.len() > 0 {
        let rest = list.drop_first();
        assert(keyed_only(list[0]));
        assert forall|i: int| 0 <= i < rest.len() implies keyed_only(#[trigger] rest[i]) by {
            assert(keyed_only(list[i + 1]));
        }
        lemma_keyed_recipe(list.first());
        lemma_keyed_recipes(rest);
        let recipes = keyed_recipes(list);
        assert(recipes.drop_first() =~= keyed_recipes(rest));
        assert(seq![list.first()] + rest =~= list);
    }
}

/// A tree with distinct keys and nothing else set on its divs comes back from
/// its buffer as it is, and is committed to the view and nowhere else.
pub proof fn law_keyed_tree_decodes(slots: Seq<Option<Tree>>, view: int, tree: Tree)
    requires
        keyed_only(tree),
        keys(tree).no_duplicates(),
        node_count(tree) <= i32::MAX + 1,
        forall|i: int|
            0 <= i < recipe_commands(keyed_recipe(tree)).len() ==> command_fits(
                #[trigger] recipe_commands(keyed_recipe(tree))[i],
            ),
    ensures
        decode(recipe_buffer(keyed_recipe(tree))) == Ok::<Tree, i32>(tree),
        built(slots, view, recipe_buffer(keyed_recipe(tree))) == (
            GPUI_STATUS_OK,
            committed(slots, view, tree),
        ),
{
    lemma_keyed_recipe(tree);
    law_recipe_decodes(keyed_recipe(tree));
}

} // verus!
