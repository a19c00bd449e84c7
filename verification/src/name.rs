//! Names of workspaces, and the nodes that stand for them in the package graph.

use crate::collections::{ViewClone, ViewEq};
use vstd::prelude::*;

verus! {

/// How the root workspace is written.
pub const ROOT_PKG_NAME: &'static str = "//";

/// Name of workspaces with a special marker for the workspace root
#[derive(Debug, Hash, Eq, PartialEq, Ord, PartialOrd)]
pub enum WorkspaceName {
    Root,
    Other(String),
}

/// What a [`WorkspaceName`] is, with the text of the name as a sequence of characters.
pub enum NameView {
    Root,
    Other(Seq<char>),
}

impl NameView {
    /// The text that stands for the name.
    pub open spec fn text(self) -> Seq<char> {
        match self {
            NameView::Root => ROOT_PKG_NAME@,
            NameView::Other(other) => other,
        }
    }

    /// The name that a text stands for: the root marker is the root, anything else is itself.
    pub open spec fn parse(text: Seq<char>) -> NameView {
        if text == ROOT_PKG_NAME@ {
            NameView::Root
        } else {
            NameView::Other(text)
        }
    }
}

impl View for WorkspaceName {
    type V = NameView;

    open spec fn view(&self) -> NameView {
        match self {
            WorkspaceName::Root => NameView::Root,
            WorkspaceName::Other(other) => NameView::Other(other@),
        }
    }
}

impl ViewEq for WorkspaceName {
    fn view_eq(&self, other: &Self) -> (same: bool) {
        match (self, other) {
            (WorkspaceName::Root, WorkspaceName::Root) => true,
            (WorkspaceName::Other(a), WorkspaceName::Other(b)) => a.view_eq(b),
            _ => false,
        }
    }
}

impl ViewClone for WorkspaceName {
    fn view_clone(&self) -> (copy: Self) {
        self.clone()
    }
}

impl Clone for WorkspaceName {
    fn clone(&self) -> (copy: Self)
        ensures
            copy == *self,
    {
        match self {
            WorkspaceName::Root => WorkspaceName::Root,
            WorkspaceName::Other(other) => WorkspaceName::Other(other.clone()),
        }
    }
}

impl WorkspaceName {
    /// The text that stands for the name, owned.
    pub fn to_string(&self) -> (text: String)
        ensures
            text@ == self@.text(),
    {
        self.as_ref().to_owned()
    }
}

impl AsRef<str> for WorkspaceName {
    fn as_ref(&self) -> (text: &str)
        ensures
            text@ == self@.text(),
    {
        match self {
            WorkspaceName::Root => ROOT_PKG_NAME,
            WorkspaceName::Other(workspace) => workspace.as_str(),
        }
    }
}

impl From<String> for WorkspaceName {
    fn from(value: String) -> (name: Self)
        ensures
            name@ == NameView::parse(value@),
    {
        if value == ROOT_PKG_NAME.to_owned() {
            WorkspaceName::Root
        } else {
            WorkspaceName::Other(value)
        }
    }
}

impl vstd::std_specs::convert::FromSpecImpl<String> for WorkspaceName {
    open spec fn obeys_from_spec() -> bool {
        true
    }

    open spec fn from_spec(value: String) -> Self {
        if value@ == ROOT_PKG_NAME@ {
            WorkspaceName::Root
        } else {
            WorkspaceName::Other(value)
        }
    }
}

impl<'a> From<&'a str> for WorkspaceName {
    fn from(value: &'a str) -> (name: Self)
        ensures
            name@ == NameView::parse(value@),
    {
        Self::from(value.to_owned())
    }
}

impl<'a> vstd::std_specs::convert::FromSpecImpl<&'a str> for WorkspaceName {
    open spec fn obeys_from_spec() -> bool {
        false
    }

    open spec fn from_spec(value: &'a str) -> Self {
        arbitrary()
    }
}

/// A node of the package graph: a workspace, or the root that every workspace hangs from.
#[derive(Debug, Hash, Eq, PartialEq, Ord, PartialOrd)]
pub enum WorkspaceNode {
    Root,
    Workspace(WorkspaceName),
}

/// What a [`WorkspaceNode`] is.
pub enum NodeView {
    Root,
    Workspace(NameView),
}

impl NodeView {
    /// The workspace that the node stands for.
    pub open spec fn workspace(self) -> NameView {
        match self {
            NodeView::Root => NameView::Root,
            NodeView::Workspace(name) => name,
        }
    }

    /// The text that stands for the node.
    pub open spec fn text(self) -> Seq<char> {
        match self {
            NodeView::Root => "___ROOT___"@,
            NodeView::Workspace(name) => name.text(),
        }
    }
}

impl View for WorkspaceNode {
    type V = NodeView;

    open spec fn view(&self) -> NodeView {
        match self {
            WorkspaceNode::Root => NodeView::Root,
            WorkspaceNode::Workspace(name) => NodeView::Workspace(name@),
        }
    }
}

impl ViewEq for WorkspaceNode {
    fn view_eq(&self, other: &Self) -> (same: bool) {
        match (self, other) {
            (WorkspaceNode::Root, WorkspaceNode::Root) => true,
            (WorkspaceNode::Workspace(a), WorkspaceNode::Workspace(b)) => a.view_eq(b),
            _ => false,
        }
    }
}

impl Clone for WorkspaceNode {
    fn clone(&self) -> (copy: Self)
        ensures
            copy == *self,
    {
        match self {
            WorkspaceNode::Root => WorkspaceNode::Root,
            WorkspaceNode::Workspace(name) => WorkspaceNode::Workspace(name.clone()),
        }
    }
}

impl WorkspaceNode {
    /// The workspace that the node stands for; the root node stands for the root workspace.
    pub fn as_workspace(&self) -> (name: &WorkspaceName)
        ensures
            name@ == self@.workspace(),
    {
        match self {
            WorkspaceNode::Workspace(name) => name,
            WorkspaceNode::Root => &WorkspaceName::Root,
        }
    }

    /// The text that stands for the node.
    pub fn to_string(&self) -> (text: String)
        ensures
            text@ == self@.text(),
    {
        match self {
            WorkspaceNode::Root => "___ROOT___".to_owned(),
            WorkspaceNode::Workspace(workspace) => workspace.to_string(),
        }
    }
}

/// Two names have the same view just where both are the root or both are others with the same text.
pub proof fn names_told_apart(a: WorkspaceName, b: WorkspaceName)
    ensures
        a@ == b@ <==> match (a, b) {
            (WorkspaceName::Root, WorkspaceName::Root) => true,
            (WorkspaceName::Other(a), WorkspaceName::Other(b)) => a@ == b@,
            _ => false,
        },
{
}

/// Two nodes have the same view just where both are the root node or both stand for workspaces whose
/// names have the same view.
pub proof fn nodes_told_apart(a: WorkspaceNode, b: WorkspaceNode)
    ensures
        a@ == b@ <==> match (a, b) {
            (WorkspaceNode::Root, WorkspaceNode::Root) => true,
            (WorkspaceNode::Workspace(a), WorkspaceNode::Workspace(b)) => a@ == b@,
            _ => false,
        },
{
}

/// Just the root marker is read as the root; any other text is read as itself. A name that was read
/// is written as the text that it was read from.
pub proof fn read_name_is_written(text: String, name: WorkspaceName, written: String)
    requires
        call_ensures(<WorkspaceName as From<String>>::from, (text,), name),
        call_ensures(WorkspaceName::to_string, (&name,), written),
    ensures
        name is Root <==> text@ == "//"@,
        name matches WorkspaceName::Other(other) ==> other@ == text@,
        written@ == text@,
{
}

/// A borrowed text is read as an owned one is.
pub proof fn borrowed_name_is_read(text: &str, name: WorkspaceName)
    requires
        call_ensures(<WorkspaceName as From<&str>>::from, (text,), name),
    ensures
        name is Root <==> text@ == "//"@,
        name matches WorkspaceName::Other(other) ==> other@ == text@,
{
}

/// A name is written as its text, and the root as the root marker.
pub proof fn name_is_written(name: WorkspaceName, text: String)
    requires
        call_ensures(WorkspaceName::to_string, (&name,), text),
    ensures
        text@ == match name {
            WorkspaceName::Root => "//"@,
            WorkspaceName::Other(other) => other@,
        },
{
}

/// The node of a workspace is written as the workspace is, and the root node in a way of its own. The
/// root node stands for the root workspace, and any other node for its workspace.
pub proof fn node_is_written(
    node: WorkspaceNode,
    text: String,
    name: &WorkspaceName,
    name_text: String,
)
    requires
        call_ensures(WorkspaceNode::to_string, (&node,), text),
        call_ensures(WorkspaceNode::as_workspace, (&node,), name),
        call_ensures(WorkspaceName::to_string, (name,), name_text),
    ensures
        match node {
            WorkspaceNode::Root => name is Root && text@ == "___ROOT___"@,
            WorkspaceNode::Workspace(other) => name@ == other@ && text@ == name_text@,
        },
{
}

} // verus!
