//! What travels between server and client: the patches that the server
//! sends and the events that the client reports.

use std::collections::HashMap;
use vstd::prelude::*;

use crate::gui::Item;
use crate::gui::Tree;

verus! {

/// The user clicked a button.
#[derive(Debug, PartialEq, Clone)]
pub struct OnClick {
    pub id: String,
    pub name: String,
}

/// The user changed the content of a text field.
#[derive(Debug, PartialEq, Clone)]
pub struct OnTextChanged {
    pub id: String,
    pub name: String,
    pub value: String,
}

/// The interactions that a widget itself reports.
#[derive(Debug, PartialEq, Clone)]
pub enum MsgFromClient {
    OnClick(OnClick),
    OnTextChanged(OnTextChanged),
}

/// The user pressed a key inside a widget.
#[derive(Debug, PartialEq, Clone)]
pub struct OnKeyDown {
    pub id: String,
    pub keycode: String,
}

/// The page's address changed.
#[derive(Debug, PartialEq, Clone)]
pub struct ParametersChanged {
    pub query: HashMap<String, String>,
    pub params: Vec<String>,
    pub headers: HashMap<String, String>,
}

/// One event of a session. `Disconnected` never comes from the client: the
/// server makes it up when the connection ends.
#[derive(Debug, PartialEq, Clone)]
pub enum ClientEvent {
    Disconnected,
    ParametersChanged(ParametersChanged),
    OnClick(OnClick),
    OnTextChanged(OnTextChanged),
    OnKeyDown(OnKeyDown),
}

/// Child indices that lead from the root of a tree to one of its nodes. The
/// empty path is the root.
pub type ItemPath = Vec<usize>;

/// Put `item` in place of the whole subtree at `path`.
#[derive(Debug, PartialEq, Clone)]
pub struct Replace {
    pub path: ItemPath,
    pub item: Item,
}

/// Put `item` behind the last child of the container at `path`.
#[derive(Debug, PartialEq, Clone)]
pub struct AddBack {
    pub path: ItemPath,
    pub item: Item,
}

/// Put `item` before the first child of the container at `path`.
#[derive(Debug, PartialEq, Clone)]
pub struct AddFront {
    pub path: ItemPath,
    pub item: Item,
}

/// Put `item` directly behind the child that stood at `inx` in the
/// container at `path` before the batch was applied.
#[derive(Debug, PartialEq, Clone)]
pub struct InsertAt {
    pub path: ItemPath,
    pub item: Item,
    pub inx: usize,
}

/// Remove the child that stood at `inx` in the container at `path` before
/// the batch was applied.
#[derive(Debug, PartialEq, Clone)]
pub struct RemoveInx {
    pub path: ItemPath,
    pub inx: usize,
}

/// One structural edit of the client's tree.
#[derive(Debug, PartialEq, Clone)]
pub enum ClientAction {
    Replace(Replace),
    AddBack(AddBack),
    AddFront(AddFront),
    InsertAt(InsertAt),
    RemoveInx(RemoveInx),
}

/// The mathematical model of a [`ClientAction`]: positions are integers and
/// items are trees.
pub enum Patch {
    Replace { path: Seq<int>, item: Tree },
    AddBack { path: Seq<int>, item: Tree },
    AddFront { path: Seq<int>, item: Tree },
    InsertAt { path: Seq<int>, inx: int, item: Tree },
    RemoveInx { path: Seq<int>, inx: int },
}

/// A path as a sequence of integers.
pub open spec fn path_model(path: Seq<usize>) -> Seq<int> {
    Seq::new(path.len(), |i: int| path[i] as int)
}

impl Patch {
    /// The path of the container or node that the patch addresses.
    pub open spec fn path(self) -> Seq<int> {
        match self {
            Patch::Replace { path, .. } => path,
            Patch::AddBack { path, .. } => path,
            Patch::AddFront { path, .. } => path,
            Patch::InsertAt { path, .. } => path,
            Patch::RemoveInx { path, .. } => path,
        }
    }

    /// The same patch, addressed by `path`.
    pub open spec fn at(self, path: Seq<int>) -> Patch {
        match self {
            Patch::Replace { item, .. } => Patch::Replace { path, item },
            Patch::AddBack { item, .. } => Patch::AddBack { path, item },
            Patch::AddFront { item, .. } => Patch::AddFront { path, item },
            Patch::InsertAt { inx, item, .. } => Patch::InsertAt { path, inx, item },
            Patch::RemoveInx { inx, .. } => Patch::RemoveInx { path, inx },
        }
    }

    /// The same patch seen from further up: `prefix` leads to the node that
    /// the patch's own path starts from.
    pub open spec fn below(self, prefix: Seq<int>) -> Patch {
        self.at(prefix + self.path())
    }
}

/// Every patch of `patches` seen from further up, in order.
pub open spec fn all_below(patches: Seq<Patch>, prefix: Seq<int>) -> Seq<Patch> {
    Seq::new(patches.len(), |i: int| patches[i].below(prefix))
}

impl ClientAction {
    /// The patch that this action stands for.
    pub open spec fn view(&self) -> Patch {
        match self {
            ClientAction::Replace(r) => Patch::Replace { path: path_model(r.path@), item: r.item@ },
            ClientAction::AddBack(a) => Patch::AddBack { path: path_model(a.path@), item: a.item@ },
            ClientAction::AddFront(a) => Patch::AddFront {
                path: path_model(a.path@),
                item: a.item@,
            },
            ClientAction::InsertAt(a) => Patch::InsertAt {
                path: path_model(a.path@),
                inx: a.inx as int,
                item: a.item@,
            },
            ClientAction::RemoveInx(r) => Patch::RemoveInx {
                path: path_model(r.path@),
                inx: r.inx as int,
            },
        }
    }
}

/// The models of a batch of actions, in order.
pub open spec fn patch_models(actions: Seq<ClientAction>) -> Seq<Patch> {
    Seq::new(actions.len(), |i: int| actions[i]@)
}

} // verus!
