//! The UI tree that the server holds for each client, and its mathematical
//! model.
//!
//! An [`Item`] is immutable once built: every render produces a fresh tree.
//! Contracts speak of a tree through its view, a [`Tree`], in which strings
//! are sequences of characters and child lists are sequences of trees. Two
//! items are equal exactly when their views are.

use vstd::prelude::*;
use vstd::std_specs::cmp::PartialEqSpecImpl;
use vstd::view::View as _;

verus! {

/// A container: an ordered list of children.
#[derive(Debug, PartialEq, Clone)]
pub struct View {
    pub body: Vec<Item>,
}

/// A push button.
#[derive(Debug, PartialEq, Clone)]
pub struct Button {
    pub id: String,
    pub name: String,
    pub title: String,
}

/// A line of text.
#[derive(Debug, PartialEq, Clone)]
pub struct Text {
    pub text: String,
}

/// A one-line text field.
#[derive(Debug, PartialEq, Clone)]
pub struct TextInput {
    pub id: String,
    pub name: String,
    pub placeholder: String,
    pub value: String,
}

/// A check box.
#[derive(Debug, PartialEq, Clone)]
pub struct Checkbox {
    pub id: String,
    pub name: String,
    pub checked: bool,
}

/// A node of the UI tree.
#[derive(Debug)]
pub enum Item {
    View(View),
    Text(Text),
    Button(Button),
    TextInput(TextInput),
    Checkbox(Checkbox),
}

/// The mathematical model of an [`Item`].
pub enum Tree {
    View { children: Seq<Tree> },
    Text { text: Seq<char> },
    Button { id: Seq<char>, name: Seq<char>, title: Seq<char> },
    TextInput { id: Seq<char>, name: Seq<char>, placeholder: Seq<char>, value: Seq<char> },
    Checkbox { id: Seq<char>, name: Seq<char>, checked: bool },
}

/// The models of a list of items, in order.
pub open spec fn trees(items: Seq<Item>) -> Seq<Tree> {
    Seq::new(items.len(), |i: int| items[i]@)
}

impl Item {
    /// The tree that this item stands for.
    pub open spec fn view(&self) -> Tree
        decreases self,
    {
        match self {
            Item::View(v) => Tree::View {
                children: Seq::new(
                    v.body.len() as nat,
                    |i: int|
                        if 0 <= i < v.body.len() {
                            v.body[i].view()
                        } else {
                            Tree::View { children: Seq::empty() }
                        },
                ),
            },
            Item::Text(t) => Tree::Text { text: t.text@ },
            Item::Button(b) => Tree::Button { id: b.id@, name: b.name@, title: b.title@ },
            Item::TextInput(t) => Tree::TextInput {
                id: t.id@,
                name: t.name@,
                placeholder: t.placeholder@,
                value: t.value@,
            },
            Item::Checkbox(c) => Tree::Checkbox { id: c.id@, name: c.name@, checked: c.checked },
        }
    }

    /// The view of a container is the container of its children's views.
    pub proof fn lemma_view_of_container(self)
        requires
            self is View,
        ensures
            self@ == (Tree::View { children: trees(self->View_0.body@) }),
    {
        let v = self->View_0;
        assert(self@->children =~= trees(v.body@));
    }

    /// Structural equality: `true` exactly when the two items have the same
    /// view.
    pub fn same_as(&self, other: &Item) -> (r: bool)
        ensures
            r == (self@ == other@),
        decreases self,
    {
        match (self, other) {
            (Item::View(a), Item::View(b)) => {
                proof {
                    self.lemma_view_of_container();
                    other.lemma_view_of_container();
                }
                if a.body.len() != b.body.len() {
                    assert(trees(a.body@).len() != trees(b.body@).len());
                    return false;
                }
                let mut i: usize = 0;
                while i < a.body.len()
                    invariant
                        i <= a.body.len(),
                        a.body.len() == b.body.len(),
                        self == Item::View(*a),
                        self@ == (Tree::View { children: trees(a.body@) }),
                        other@ == (Tree::View { children: trees(b.body@) }),
                        forall|k: int| 0 <= k < i ==> a.body@[k]@ == b.body@[k]@,
                    decreases a.body.len() - i,
                {
                    if !a.body[i].same_as(&b.body[i]) {
                        assert(trees(a.body@)[i as int] != trees(b.body@)[i as int]);
                        return false;
                    }
                    i += 1;
                }
                assert(trees(a.body@) =~= trees(b.body@));
                true
            },
            (Item::Text(a), Item::Text(b)) => a.text == b.text,
            (Item::Button(a), Item::Button(b)) => {
                a.id == b.id && a.name == b.name && a.title == b.title
            },
            (Item::TextInput(a), Item::TextInput(b)) => {
                a.id == b.id && a.name == b.name && a.placeholder == b.placeholder && a.value
                    == b.value
            },
            (Item::Checkbox(a), Item::Checkbox(b)) => {
                a.id == b.id && a.name == b.name && a.checked == b.checked
            },
            _ => false,
        }
    }

    /// A deep copy: a fresh item with the same view.
    pub fn duplicate(&self) -> (r: Item)
        ensures
            r@ == self@,
        decreases self,
    {
        match self {
            Item::View(v) => {
                proof {
                    self.lemma_view_of_container();
                }
                let mut body: Vec<Item> = Vec::new();
                let mut i: usize = 0;
                while i < v.body.len()
                    invariant
                        i <= v.body.len(),
                        body.len() == i,
                        self == Item::View(*v),
                        self@ == (Tree::View { children: trees(v.body@) }),
                        forall|k: int| 0 <= k < i ==> body@[k]@ == v.body@[k]@,
                    decreases v.body.len() - i,
                {
                    let child = v.body[i].duplicate();
                    body.push(child);
                    i += 1;
                }
                let r = Item::View(View { body });
                proof {
                    self.lemma_view_of_container();
                    r.lemma_view_of_container();
                    assert(trees(r->View_0.body@) =~= trees(v.body@));
                }
                r
            },
            Item::Text(t) => Item::Text(Text { text: t.text.clone() }),
            Item::Button(b) => Item::Button(
                Button { id: b.id.clone(), name: b.name.clone(), title: b.title.clone() },
            ),
            Item::TextInput(t) => Item::TextInput(
                TextInput {
                    id: t.id.clone(),
                    name: t.name.clone(),
                    placeholder: t.placeholder.clone(),
                    value: t.value.clone(),
                },
            ),
            Item::Checkbox(c) => Item::Checkbox(
                Checkbox { id: c.id.clone(), name: c.name.clone(), checked: c.checked },
            ),
        }
    }
}

impl PartialEq for Item {
    fn eq(&self, other: &Item) -> (r: bool) {
        self.same_as(other)
    }
}

impl PartialEqSpecImpl for Item {
    open spec fn obeys_eq_spec() -> bool {
        true
    }

    open spec fn eq_spec(&self, other: &Item) -> bool {
        self@ == other@
    }
}

impl Clone for Item {
    fn clone(&self) -> (r: Item)
        ensures
            r@ == self@,
    {
        self.duplicate()
    }
}

impl Default for View {
    /// The empty container.
    fn default() -> (r: View)
        ensures
            r.body@ == Seq::<Item>::empty(),
    {
        View { body: Vec::new() }
    }
}

} // verus!
