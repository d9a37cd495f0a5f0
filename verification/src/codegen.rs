//! A small model of JavaScript code, and its text.

use vstd::prelude::*;

use crate::text::decimal;
use crate::text::to_decimal;

verus! {

/// What can be written down as JavaScript.
pub trait ToJS {
    /// The text of the code.
    spec fn js(&self) -> Seq<char>;

    /// Writes the code down.
    fn to_js(&self) -> (code: String)
        ensures
            code@ == self.js(),
    ;
}

/// An arrow function.
pub struct Fn {
    pub asyn: bool,
    pub args: Vec<String>,
    pub body: Vec<CodeNode>,
}

/// A call.
pub struct Call {
    pub calle: Box<CodeNode>,
    pub args: Vec<CodeNode>,
}

/// The declaration of a constant.
pub struct ConstVar {
    pub name: String,
    pub value: Box<CodeNode>,
}

/// What a loop runs over.
pub enum ForCond {
    In { name: String, value: Box<CodeNode> },
    Of { name: String, value: Box<CodeNode> },
}

/// A loop.
pub struct For {
    pub cond: ForCond,
    pub body: Vec<CodeNode>,
}

/// The access to a property.
pub struct PropAccess {
    pub name: Box<CodeNode>,
    pub value: Box<CodeNode>,
}

/// An assignment.
pub struct Assign {
    pub name: Box<CodeNode>,
    pub value: Box<CodeNode>,
}

/// A piece of code.
pub enum CodeNode {
    Nothing,
    Fn(Fn),
    Call(Call),
    ConstVar(ConstVar),
    Num(i64),
    Str(String),
    Ident(String),
    PropAccess(PropAccess),
}

/// A style sheet.
pub enum CssCode {
    Nothing,
}

/// The first `k` of `names`, with a comma and a blank between any two.
pub open spec fn names_text(names: Seq<String>, k: int) -> Seq<char>
    decreases k,
{
    if k <= 0 || k > names.len() {
        Seq::empty()
    } else if k == 1 {
        names[0]@
    } else {
        names_text(names, k - 1) + ", "@ + names[k - 1]@
    }
}

/// The text of a piece of code.
pub open spec fn node_text(node: CodeNode) -> Seq<char>
    decreases node,
{
    match node {
        CodeNode::Nothing => Seq::empty(),
        CodeNode::Fn(f) => fn_text(f),
        CodeNode::Call(c) => call_text(c),
        CodeNode::ConstVar(c) => const_text(c),
        CodeNode::Num(n) => decimal(n as int),
        CodeNode::Str(s) => "\""@ + s@ + "\""@,
        CodeNode::Ident(i) => i@,
        CodeNode::PropAccess(p) => node_text(*p.name) + "."@ + node_text(*p.value),
    }
}

/// The text of the first `k` of `nodes` as statements, each on a line of
/// its own.
pub open spec fn body_text(nodes: Seq<CodeNode>, k: int) -> Seq<char>
    decreases nodes, k,
{
    if k <= 0 || k > nodes.len() {
        Seq::empty()
    } else {
        body_text(nodes, k - 1) + node_text(nodes[k - 1]) + "\n"@
    }
}

/// The text of the first `k` of `nodes` as arguments, with a comma and a
/// blank between any two.
pub open spec fn args_text(nodes: Seq<CodeNode>, k: int) -> Seq<char>
    decreases nodes, k,
{
    if k <= 0 || k > nodes.len() {
        Seq::empty()
    } else if k == 1 {
        node_text(nodes[0])
    } else {
        args_text(nodes, k - 1) + ", "@ + node_text(nodes[k - 1])
    }
}

/// The text of an arrow function.
pub open spec fn fn_text(f: Fn) -> Seq<char>
    decreases f,
{
    (if f.asyn {
        "async "@
    } else {
        Seq::empty()
    }) + "("@ + names_text(f.args@, f.args@.len() as int) + ") => {\n"@ + body_text(
        f.body@,
        f.body@.len() as int,
    ) + "}"@
}

/// The text of a call.
pub open spec fn call_text(c: Call) -> Seq<char>
    decreases c,
{
    node_text(*c.calle) + "("@ + args_text(c.args@, c.args@.len() as int) + ")"@
}

/// The text of the declaration of a constant.
pub open spec fn const_text(c: ConstVar) -> Seq<char>
    decreases c,
{
    "const "@ + c.name@ + " = "@ + node_text(*c.value)
}

/// The text of a loop.
pub open spec fn for_text(f: For) -> Seq<char> {
    "for (const "@ + (match f.cond {
        ForCond::In { name, value } => name@ + " in "@ + node_text(*value),
        ForCond::Of { name, value } => name@ + " of "@ + node_text(*value),
    }) + ") {\n"@ + body_text(f.body@, f.body@.len() as int) + "}"@
}

/// Writes down `names`, with a comma and a blank between any two.
fn write_names(names: &Vec<String>) -> (text: String)
    ensures
        text@ == names_text(names@, names.len() as int),
{
    let mut text = String::new();
    let mut i: usize = 0;
    while i < names.len()
        invariant
            i <= names.len(),
            text@ == names_text(names@, i as int),
        decreases names.len() - i,
    {
        if i > 0 {
            text.append(", ");
        }
        text.append(names[i].as_str());
        i += 1;
        assert(text@ =~= names_text(names@, i as int));
    }
    text
}

/// Writes down `nodes` as statements, each on a line of its own.
fn write_body(nodes: &Vec<CodeNode>) -> (text: String)
    ensures
        text@ == body_text(nodes@, nodes.len() as int),
    decreases nodes,
{
    let mut text = String::new();
    let mut i: usize = 0;
    while i < nodes.len()
        invariant
            i <= nodes.len(),
            text@ == body_text(nodes@, i as int),
        decreases nodes.len() - i,
    {
        let line = write_node(&nodes[i]);
        text.append(line.as_str());
        text.append("\n");
        i += 1;
        assert(text@ =~= body_text(nodes@, i as int));
    }
    text
}

/// Writes down `nodes` as arguments, with a comma and a blank between any
/// two.
fn write_args(nodes: &Vec<CodeNode>) -> (text: String)
    ensures
        text@ == args_text(nodes@, nodes.len() as int),
    decreases nodes,
{
    let mut text = String::new();
    let mut i: usize = 0;
    while i < nodes.len()
        invariant
            i <= nodes.len(),
            text@ == args_text(nodes@, i as int),
        decreases nodes.len() - i,
    {
        if i > 0 {
            text.append(", ");
        }
        let arg = write_node(&nodes[i]);
        text.append(arg.as_str());
        i += 1;
        assert(text@ =~= args_text(nodes@, i as int));
    }
    text
}

/// Writes down an arrow function.
fn write_fn(f: &Fn) -> (text: String)
    ensures
        text@ == fn_text(*f),
    decreases f,
{
    let mut buff = String::new();
    if f.asyn {
        buff.append("async ");
    }
    buff.append("(");
    let names = write_names(&f.args);
    buff.append(names.as_str());
    buff.append(") => {\n");
    let body = write_body(&f.body);
    buff.append(body.as_str());
    buff.append("}");
    assert(buff@ =~= fn_text(*f));
    buff
}

/// Writes down a call.
fn write_call(c: &Call) -> (text: String)
    ensures
        text@ == call_text(*c),
    decreases c,
{
    let mut buff = String::new();
    let calle = write_node(&c.calle);
    buff.append(calle.as_str());
    buff.append("(");
    let args = write_args(&c.args);
    buff.append(args.as_str());
    buff.append(")");
    assert(buff@ =~= call_text(*c));
    buff
}

/// Writes down the declaration of a constant.
fn write_const(c: &ConstVar) -> (text: String)
    ensures
        text@ == const_text(*c),
    decreases c,
{
    let mut buff = String::new();
    buff.append("const ");
    buff.append(c.name.as_str());
    buff.append(" = ");
    let value = write_node(&c.value);
    buff.append(value.as_str());
    assert(buff@ =~= const_text(*c));
    buff
}

/// Writes down a piece of code.
fn write_node(node: &CodeNode) -> (text: String)
    ensures
        text@ == node_text(*node),
    decreases node,
{
    match node {
        CodeNode::Nothing => String::new(),
        CodeNode::Fn(f) => write_fn(f),
        CodeNode::Call(c) => write_call(c),
        CodeNode::ConstVar(c) => write_const(c),
        CodeNode::Num(n) => to_decimal(*n),
        CodeNode::Str(s) => {
            let mut buff = String::new();
            buff.append("\"");
            buff.append(s.as_str());
            buff.append("\"");
            assert(buff@ =~= node_text(*node));
            buff
        },
        CodeNode::Ident(i) => i.clone(),
        CodeNode::PropAccess(p) => {
            let mut buff = write_node(&p.name);
            buff.append(".");
            let value = write_node(&p.value);
            buff.append(value.as_str());
            buff
        },
    }
}

impl ToJS for Fn {
    open spec fn js(&self) -> Seq<char> {
        fn_text(*self)
    }

    fn to_js(&self) -> (code: String) {
        write_fn(self)
    }
}

impl ToJS for Call {
    open spec fn js(&self) -> Seq<char> {
        call_text(*self)
    }

    fn to_js(&self) -> (code: String) {
        write_call(self)
    }
}

impl ToJS for ConstVar {
    open spec fn js(&self) -> Seq<char> {
        const_text(*self)
    }

    fn to_js(&self) -> (code: String) {
        write_const(self)
    }
}

impl ToJS for For {
    open spec fn js(&self) -> Seq<char> {
        for_text(*self)
    }

    fn to_js(&self) -> (code: String) {
        let mut buff = String::new();
        buff.append("for (const ");
        match &self.cond {
            ForCond::In { name, value } => {
                buff.append(name.as_str());
                buff.append(" in ");
                let over = write_node(value);
                buff.append(over.as_str());
            },
            ForCond::Of { name, value } => {
                buff.append(name.as_str());
                buff.append(" of ");
                let over = write_node(value);
                buff.append(over.as_str());
            },
        }
        buff.append(") {\n");
        let body = write_body(&self.body);
        buff.append(body.as_str());
        buff.append("}");
        assert(buff@ =~= for_text(*self));
        buff
    }
}

impl ToJS for CodeNode {
    open spec fn js(&self) -> Seq<char> {
        node_text(*self)
    }

    fn to_js(&self) -> (code: String) {
        write_node(self)
    }
}

impl CssCode {
    /// The text of the style sheet: nothing.
    pub fn to_string(&self) -> (text: String)
        ensures
            text@ == Seq::<char>::empty(),
    {
        match self {
            CssCode::Nothing => String::new(),
        }
    }
}

} // verus!
