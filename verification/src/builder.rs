//! The stack machine that executes commands on nodes in staging.

use vstd::prelude::*;

use crate::abi::{
    GPUI_STATUS_INVALID_HANDLE, GPUI_STATUS_NODE_ABSENT, GPUI_STATUS_NO_ROOT,
    GPUI_STATUS_WRONG_NODE_KIND,
};
use crate::node::{Command, DivProps, Setter, Tree, UiNode, lemma_div_tree, trees};

verus! {

/// What is in staging while a buffer is executed. A handle is an index into
/// `nodes`; a node that was moved into another one leaves `None` behind.
pub struct Staging {
    pub nodes: Seq<Option<Tree>>,
    pub stack: Seq<i32>,
    pub root: Option<usize>,
}

impl Staging {
    /// Nothing staged yet.
    pub open spec fn empty() -> Staging {
        Staging { nodes: Seq::empty(), stack: Seq::empty(), root: None }
    }

    /// Whether a handle is an index into the nodes.
    pub open spec fn in_range(self, handle: i32) -> bool {
        0 <= handle < self.nodes.len()
    }

    /// A new node under the next handle, which is pushed.
    pub open spec fn created(self, node: Tree) -> Result<Staging, i32> {
        if self.nodes.len() > i32::MAX {
            Err(GPUI_STATUS_INVALID_HANDLE)
        } else {
            Ok(
                Staging {
                    nodes: self.nodes.push(Some(node)),
                    stack: self.stack.push(self.nodes.len() as i32),
                    ..self
                },
            )
        }
    }

    /// A setter on the div on top of the stack.
    pub open spec fn applied(self, setter: Setter<Seq<char>>) -> Result<Staging, i32> {
        if self.stack.len() == 0 || !self.in_range(self.stack.last()) {
            Err(GPUI_STATUS_INVALID_HANDLE)
        } else {
            let top = self.stack.last() as int;
            match self.nodes[top] {
                None => Err(GPUI_STATUS_NODE_ABSENT),
                Some(Tree::Text { .. }) => Err(GPUI_STATUS_WRONG_NODE_KIND),
                Some(Tree::Div { props, children }) => Ok(
                    Staging {
                        nodes: self.nodes.update(
                            top,
                            Some(Tree::Div { props: props.with(setter), children }),
                        ),
                        ..self
                    },
                ),
            }
        }
    }

    /// The node on top of the stack moved to the end of the children of the
    /// node below it, which is then on top.
    pub open spec fn child_added(self) -> Result<Staging, i32> {
        if self.stack.len() < 2 {
            Err(GPUI_STATUS_INVALID_HANDLE)
        } else {
            let child = self.stack.last();
            let parent = self.stack[self.stack.len() - 2];
            if parent == child || !self.in_range(parent) || !self.in_range(child) {
                Err(GPUI_STATUS_INVALID_HANDLE)
            } else {
                match (self.nodes[parent as int], self.nodes[child as int]) {
                    (None, _) => Err(GPUI_STATUS_NODE_ABSENT),
                    (Some(Tree::Text { .. }), _) => Err(GPUI_STATUS_WRONG_NODE_KIND),
                    (Some(Tree::Div { .. }), None) => Err(GPUI_STATUS_NODE_ABSENT),
                    (Some(Tree::Div { props, children }), Some(node)) => Ok(
                        Staging {
                            nodes: self.nodes.update(child as int, None).update(
                                parent as int,
                                Some(Tree::Div { props, children: children.push(node) }),
                            ),
                            stack: self.stack.drop_last(),
                            ..self
                        },
                    ),
                }
            }
        }
    }

    /// The node on top of the stack popped and designated as the root.
    pub open spec fn root_set(self) -> Result<Staging, i32> {
        if self.stack.len() == 0 || !self.in_range(self.stack.last()) {
            Err(GPUI_STATUS_INVALID_HANDLE)
        } else if self.nodes[self.stack.last() as int] is None {
            Err(GPUI_STATUS_NODE_ABSENT)
        } else {
            Ok(
                Staging {
                    stack: self.stack.drop_last(),
                    root: Some(self.stack.last() as usize),
                    ..self
                },
            )
        }
    }

    /// The tree under the designated root.
    pub open spec fn rooted(self) -> Result<Tree, i32> {
        match self.root {
            None => Err(GPUI_STATUS_NO_ROOT),
            Some(index) => match self.nodes[index as int] {
                None => Err(GPUI_STATUS_NODE_ABSENT),
                Some(tree) => Ok(tree),
            },
        }
    }

    /// One command executed.
    pub open spec fn step(self, command: Command<Seq<char>>) -> Result<Staging, i32> {
        match command {
            Command::Div => self.created(
                Tree::Div { props: DivProps::initial(), children: Seq::empty() },
            ),
            Command::Text { content, color, size } => self.created(
                Tree::Text { content, color, size },
            ),
            Command::Apply(setter) => self.applied(setter),
            Command::AddChild => self.child_added(),
            Command::SetRoot => self.root_set(),
        }
    }
}

/// The trees of nodes in staging.
pub open spec fn staged(nodes: Seq<Option<UiNode>>) -> Seq<Option<Tree>> {
    nodes.map_values(
        |n: Option<UiNode>|
            match n {
                Some(node) => Some(node.tree()),
                None => None,
            },
    )
}

/// Appends a node and gives its handle, or a negative status when handles
/// have run out.
fn push_node(nodes: &mut Vec<Option<UiNode>>, node: UiNode) -> (id: i32)
    ensures
        old(nodes)@.len() <= i32::MAX ==> id == old(nodes)@.len() && final(nodes)@ == old(
            nodes,
        )@.push(Some(node)),
        old(nodes)@.len() > i32::MAX ==> id == GPUI_STATUS_INVALID_HANDLE && final(nodes)@ == old(
            nodes,
        )@,
{
    if nodes.len() > i32::MAX as usize {
        return GPUI_STATUS_INVALID_HANDLE;
    }
    let id = nodes.len() as i32;
    nodes.push(Some(node));
    id
}

/// Borrows the div under a handle.
fn div_mut(nodes: &mut Vec<Option<UiNode>>, handle: i32) -> (div: Result<&mut UiNode, i32>)
    ensures
        match div {
            Ok(node) => {
                &&& 0 <= handle < old(nodes)@.len()
                &&& old(nodes)@[handle as int] == Some(*node)
                &&& *node is Div
                &&& final(nodes)@ == old(nodes)@.update(handle as int, Some(*final(node)))
            },
            Err(status) => {
                &&& final(nodes)@ == old(nodes)@
                &&& if !(0 <= handle < old(nodes)@.len()) {
                    status == GPUI_STATUS_INVALID_HANDLE
                } else {
                    match old(nodes)@[handle as int] {
                        None => status == GPUI_STATUS_NODE_ABSENT,
                        Some(node) => node is Text && status == GPUI_STATUS_WRONG_NODE_KIND,
                    }
                }
            },
        },
{
    if handle < 0 {
        return Err(GPUI_STATUS_INVALID_HANDLE);
    }
    let index = handle as usize;
    if index >= nodes.len() {
        return Err(GPUI_STATUS_INVALID_HANDLE);
    }
    match &mut nodes[index] {
        None => Err(GPUI_STATUS_NODE_ABSENT),
        Some(node) => match node {
            UiNode::Div { .. } => Ok(node),
            UiNode::Text { .. } => Err(GPUI_STATUS_WRONG_NODE_KIND),
        },
    }
}

/// Applies a setter to the div on top of the stack.
fn with_top_div(stack: &Vec<i32>, nodes: &mut Vec<Option<UiNode>>, setter: Setter<String>) -> (r:
    Result<(), i32>)
    ensures
        ({
            let before = Staging { nodes: staged(old(nodes)@), stack: stack@, root: None };
            match before.applied(setter.chars()) {
                Ok(after) => r is Ok && staged(final(nodes)@) == after.nodes,
                Err(status) => r == Err::<(), i32>(status) && final(nodes)@ == old(nodes)@,
            }
        }),
{
    if stack.len() == 0 {
        return Err(GPUI_STATUS_INVALID_HANDLE);
    }
    let handle = stack[stack.len() - 1];
    match div_mut(nodes, handle) {
        Ok(node) => {
            if let UiNode::Div { props, children } = node {
                proof {
                    lemma_div_tree(*props, *children);
                }
                props.apply(setter);
                proof {
                    lemma_div_tree(*props, *children);
                }
            }
            assert(staged(nodes@) =~= staged(old(nodes)@).update(
                handle as int,
                staged(nodes@)[handle as int],
            ));
            Ok(())
        },
        Err(status) => Err(status),
    }
}

/// Nodes in staging, the stack of handles and the designated root.
pub struct Builder {
    nodes: Vec<Option<UiNode>>,
    stack: Vec<i32>,
    root: Option<usize>,
}

impl Builder {
    /// What is in staging.
    pub closed spec fn staging(self) -> Staging {
        Staging { nodes: staged(self.nodes@), stack: self.stack@, root: self.root }
    }

    /// Nothing staged yet.
    pub fn new() -> (builder: Self)
        ensures
            builder.staging() == Staging::empty(),
    {
        let builder = Builder { nodes: Vec::new(), stack: Vec::new(), root: None };
        assert(builder.staging().nodes =~= Staging::empty().nodes);
        builder
    }

    /// Stages a new node and pushes its handle.
    fn create(&mut self, node: UiNode) -> (r: Result<(), i32>)
        ensures
            match old(self).staging().created(node.tree()) {
                Ok(after) => r is Ok && final(self).staging() == after,
                Err(status) => r == Err::<(), i32>(status) && final(self).staging() == old(
                    self,
                ).staging(),
            },
    {
        let id = push_node(&mut self.nodes, node);
        if id < 0 {
            return Err(id);
        }
        self.stack.push(id);
        assert(staged(self.nodes@) =~= staged(old(self).nodes@).push(Some(node.tree())));
        Ok(())
    }

    /// Moves the node on top of the stack into the one below it.
    fn add_child(&mut self) -> (r: Result<(), i32>)
        ensures
            match old(self).staging().child_added() {
                Ok(after) => r is Ok && final(self).staging() == after,
                Err(status) => r == Err::<(), i32>(status) && final(self).staging() == old(
                    self,
                ).staging(),
            },
    {
        let depth = self.stack.len();
        if depth < 2 {
            return Err(GPUI_STATUS_INVALID_HANDLE);
        }
        let child = self.stack[depth - 1];
        let parent = self.stack[depth - 2];
        if parent < 0 || child < 0 || parent == child {
            return Err(GPUI_STATUS_INVALID_HANDLE);
        }
        let parent_index = parent as usize;
        let child_index = child as usize;
        if parent_index >= self.nodes.len() || child_index >= self.nodes.len() {
            return Err(GPUI_STATUS_INVALID_HANDLE);
        }
        match &self.nodes[parent_index] {
            None => {
                return Err(GPUI_STATUS_NODE_ABSENT);
            },
            Some(UiNode::Text { .. }) => {
                return Err(GPUI_STATUS_WRONG_NODE_KIND);
            },
            Some(UiNode::Div { .. }) => {},
        }
        let child_node = match self.nodes[child_index].take() {
            None => {
                assert(staged(self.nodes@) =~= staged(old(self).nodes@));
                return Err(GPUI_STATUS_NODE_ABSENT);
            },
            Some(node) => node,
        };
        self.stack.pop();
        if let Some(UiNode::Div { props, children }) = &mut self.nodes[parent_index] {
            proof {
                lemma_div_tree(*props, *children);
            }
            let ghost before = children@;
            children.push(child_node);
            proof {
                lemma_div_tree(*props, *children);
                assert(trees(children@) =~= trees(before).push(child_node.tree()));
            }
        }
        proof {
            let after = old(self).staging().child_added();
            assert(staged(self.nodes@) =~= after->Ok_0.nodes);
            assert(self.stack@ =~= after->Ok_0.stack);
        }
        Ok(())
    }

    /// Pops the root.
    fn set_root(&mut self) -> (r: Result<(), i32>)
        ensures
            match old(self).staging().root_set() {
                Ok(after) => r is Ok && final(self).staging() == after,
                Err(status) => r == Err::<(), i32>(status) && final(self).staging() == old(
                    self,
                ).staging(),
            },
    {
        if self.stack.len() == 0 {
            return Err(GPUI_STATUS_INVALID_HANDLE);
        }
        let handle = self.stack[self.stack.len() - 1];
        if handle < 0 || handle as usize >= self.nodes.len() {
            return Err(GPUI_STATUS_INVALID_HANDLE);
        }
        match &self.nodes[handle as usize] {
            None => Err(GPUI_STATUS_NODE_ABSENT),
            Some(_) => {
                self.stack.pop();
                self.root = Some(handle as usize);
                assert(self.stack@ =~= old(self).stack@.drop_last());
                Ok(())
            },
        }
    }

    /// Executes one command. One that fails leaves staging as it was.
    pub fn step(&mut self, command: Command<String>) -> (r: Result<(), i32>)
        ensures
            match old(self).staging().step(command.chars()) {
                Ok(after) => r is Ok && final(self).staging() == after,
                Err(status) => r == Err::<(), i32>(status) && final(self).staging() == old(
                    self,
                ).staging(),
            },
    {
        match command {
            Command::Div => {
                let node = UiNode::Div { props: DivProps::new(), children: Vec::new() };
                proof {
                    lemma_div_tree(node->props, node->children);
                    assert(trees(node->children@) =~= Seq::empty());
                }
                self.create(node)
            },
            Command::Text { content, color, size } => self.create(
                UiNode::Text { content, color, size },
            ),
            Command::Apply(setter) => with_top_div(&self.stack, &mut self.nodes, setter),
            Command::AddChild => self.add_child(),
            Command::SetRoot => self.set_root(),
        }
    }

    /// Takes the root out of staging and drops the rest.
    pub fn into_root(self) -> (root: Result<UiNode, i32>)
        requires
            self.staging().root matches Some(index) ==> index < self.staging().nodes.len(),
        ensures
            match self.staging().rooted() {
                Ok(tree) => root matches Ok(node) && node.tree() == tree,
                Err(status) => root == Err::<UiNode, i32>(status),
            },
    {
        let mut nodes = self.nodes;
        match self.root {
            None => Err(GPUI_STATUS_NO_ROOT),
            Some(index) => {
                match nodes[index].take() {
                    None => Err(GPUI_STATUS_NODE_ABSENT),
                    Some(node) => Ok(node),
                }
            },
        }
    }
}

} // verus!
