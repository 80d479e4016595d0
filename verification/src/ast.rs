//! The abstract syntax tree of one compilation unit, and the text it is
//! written as.

pub mod emit;
pub mod semantics;
pub mod soundness;

use crate::text::{decimal, push_decimal};
use vstd::prelude::*;

verus! {

/// A compilation unit: one function.
#[derive(Debug)]
pub struct CompUnit {
    pub func_def: FuncDef,
}

/// A function definition without parameters.
#[derive(Debug)]
pub struct FuncDef {
    pub func_type: FuncType,
    pub id: Ident,
    pub block: Block,
}

/// The type of a function's result.
#[non_exhaustive]
#[derive(Debug)]
pub enum FuncType {
    Int,
}

/// A block: declarations and statements in order.
#[derive(Debug)]
pub struct Block {
    pub items: Vec<Stmt>,
}

/// A declaration or a statement.
#[non_exhaustive]
#[derive(Debug)]
pub enum Stmt {
    /// `const int <id> = <init>;`
    Const(ConstDecl),
    /// `int <id>;` or `int <id> = <init>;`
    Var(VarDecl),
    /// `<target> = <value>;`
    Assign(AssignStmt),
    /// `return <expr>;`
    Return(ReturnStmt),
}

/// The declaration of a constant.
#[derive(Debug)]
pub struct ConstDecl {
    pub id: Ident,
    pub init: Expr,
}

/// The declaration of a variable, with or without an initial value.
#[derive(Debug)]
pub struct VarDecl {
    pub id: Ident,
    pub init: Option<Expr>,
}

/// An assignment to a variable.
#[derive(Debug)]
pub struct AssignStmt {
    pub target: Ident,
    pub value: Expr,
}

/// A return statement.
#[derive(Debug)]
pub struct ReturnStmt {
    pub expr: Expr,
}

/// An identifier.
#[derive(Debug)]
pub struct Ident {
    pub value: String,
}

/// An expression.
#[non_exhaustive]
#[derive(Debug)]
pub enum Expr {
    Number(i32),
    Ident(Ident),
    Unary(UnaryOp, Box<Expr>),
    Binary(Box<Expr>, BinaryOp, Box<Expr>),
}

/// A unary operator.
#[non_exhaustive]
#[derive(Debug, Clone, Copy, PartialEq, Eq, Structural)]
pub enum UnaryOp {
    Plus,
    Minus,
    Not,
}

/// A binary operator.
#[non_exhaustive]
#[derive(Debug, Clone, Copy, PartialEq, Eq, Structural)]
pub enum BinaryOp {
    Add,
    Sub,
    Mul,
    Div,
    Mod,
    /// Logical or.
    Or,
    /// Logical and.
    And,
    Eq,
    NotEq,
    Lt,
    Gt,
    Le,
    Ge,
}

impl UnaryOp {
    /// The operator's sign.
    pub open spec fn text(self) -> Seq<char> {
        match self {
            UnaryOp::Plus => "+"@,
            UnaryOp::Minus => "-"@,
            UnaryOp::Not => "!"@,
        }
    }

    /// The operator's sign as a string slice.
    pub fn as_str(&self) -> (s: &'static str)
        ensures
            s@ == self.text(),
    {
        match self {
            UnaryOp::Plus => "+",
            UnaryOp::Minus => "-",
            UnaryOp::Not => "!",
        }
    }

    /// The operator's sign.
    pub fn to_string(&self) -> (s: String)
        ensures
            s@ == self.text(),
    {
        String::from_str(self.as_str())
    }
}

impl BinaryOp {
    /// The operator's sign.
    pub open spec fn text(self) -> Seq<char> {
        match self {
            BinaryOp::Add => "+"@,
            BinaryOp::Sub => "-"@,
            BinaryOp::Mul => "*"@,
            BinaryOp::Div => "/"@,
            BinaryOp::Mod => "%"@,
            BinaryOp::Or => "||"@,
            BinaryOp::And => "&&"@,
            BinaryOp::Eq => "=="@,
            BinaryOp::NotEq => "!="@,
            BinaryOp::Lt => "<"@,
            BinaryOp::Gt => ">"@,
            BinaryOp::Le => "<="@,
            BinaryOp::Ge => ">="@,
        }
    }

    /// The operator's sign as a string slice.
    pub fn as_str(&self) -> (s: &'static str)
        ensures
            s@ == self.text(),
    {
        match self {
            BinaryOp::Add => "+",
            BinaryOp::Sub => "-",
            BinaryOp::Mul => "*",
            BinaryOp::Div => "/",
            BinaryOp::Mod => "%",
            BinaryOp::Or => "||",
            BinaryOp::And => "&&",
            BinaryOp::Eq => "==",
            BinaryOp::NotEq => "!=",
            BinaryOp::Lt => "<",
            BinaryOp::Gt => ">",
            BinaryOp::Le => "<=",
            BinaryOp::Ge => ">=",
        }
    }

    /// The operator's sign.
    pub fn to_string(&self) -> (s: String)
        ensures
            s@ == self.text(),
    {
        String::from_str(self.as_str())
    }
}

impl From<String> for Ident {
    /// Wraps a name.
    fn from(value: String) -> (id: Ident) {
        Ident { value }
    }
}

impl vstd::std_specs::convert::FromSpecImpl<String> for Ident {
    open spec fn obeys_from_spec() -> bool {
        true
    }

    open spec fn from_spec(value: String) -> Ident {
        Ident { value }
    }
}

impl Ident {
    /// The identifier's name.
    pub open spec fn text(self) -> Seq<char> {
        self.value@
    }

    /// The identifier's name.
    pub fn to_string(&self) -> (s: String)
        ensures
            s@ == self.text(),
    {
        self.value.clone()
    }
}

impl Expr {
    /// The expression in source form: a unary operator stands directly
    /// before its operand, and every binary operation is parenthesised.
    pub open spec fn text(self) -> Seq<char>
        decreases self,
    {
        match self {
            Expr::Number(number) => decimal(number as int),
            Expr::Ident(id) => id.text(),
            Expr::Unary(op, expr) => op.text() + expr.text(),
            Expr::Binary(lhs, op, rhs) => "("@ + lhs.text() + " "@ + op.text() + " "@ + rhs.text()
                + ")"@,
        }
    }

    /// Appends the expression's source form to `out`.
    pub fn push_text(&self, out: &mut String)
        ensures
            final(out)@ == old(out)@ + self.text(),
        decreases self,
    {
        match self {
            Expr::Number(number) => {
                push_decimal(out, *number);
            },
            Expr::Ident(id) => {
                out.append(id.value.as_str());
            },
            Expr::Unary(op, expr) => {
                out.append(op.as_str());
                expr.push_text(out);
                assert(out@ =~= old(out)@ + self.text());
            },
            Expr::Binary(lhs, op, rhs) => {
                out.append("(");
                lhs.push_text(out);
                out.append(" ");
                out.append(op.as_str());
                out.append(" ");
                rhs.push_text(out);
                out.append(")");
                assert(out@ =~= old(out)@ + self.text());
            },
        }
    }

    /// The expression in source form.
    pub fn to_string(&self) -> (s: String)
        ensures
            s@ == self.text(),
    {
        let mut out = String::new();
        self.push_text(&mut out);
        assert(out@ =~= self.text());
        out
    }
}

impl ReturnStmt {
    /// `return <expr>;`
    pub open spec fn text(self) -> Seq<char> {
        "return "@ + self.expr.text() + ";"@
    }

    /// The statement in source form.
    pub fn to_string(&self) -> (s: String)
        ensures
            s@ == self.text(),
    {
        let mut out = String::from_str("return ");
        self.expr.push_text(&mut out);
        out.append(";");
        out
    }
}

impl ConstDecl {
    /// `const int <id> = <init>;`
    pub open spec fn text(self) -> Seq<char> {
        "const int "@ + self.id.text() + " = "@ + self.init.text() + ";"@
    }

    /// The declaration in source form.
    pub fn to_string(&self) -> (s: String)
        ensures
            s@ == self.text(),
    {
        let mut out = String::from_str("const int ");
        out.append(self.id.value.as_str());
        out.append(" = ");
        self.init.push_text(&mut out);
        out.append(";");
        out
    }
}

impl VarDecl {
    /// `int <id>;` or `int <id> = <init>;`
    pub open spec fn text(self) -> Seq<char> {
        match self.init {
            Some(init) => "int "@ + self.id.text() + " = "@ + init.text() + ";"@,
            None => "int "@ + self.id.text() + ";"@,
        }
    }

    /// The declaration in source form.
    pub fn to_string(&self) -> (s: String)
        ensures
            s@ == self.text(),
    {
        let mut out = String::from_str("int ");
        out.append(self.id.value.as_str());
        match &self.init {
            Some(init) => {
                out.append(" = ");
                init.push_text(&mut out);
            },
            None => {},
        }
        out.append(";");
        out
    }
}

impl AssignStmt {
    /// `<target> = <value>;`
    pub open spec fn text(self) -> Seq<char> {
        self.target.text() + " = "@ + self.value.text() + ";"@
    }

    /// The statement in source form.
    pub fn to_string(&self) -> (s: String)
        ensures
            s@ == self.text(),
    {
        let mut out = self.target.value.clone();
        out.append(" = ");
        self.value.push_text(&mut out);
        out.append(";");
        out
    }
}

impl Stmt {
    /// The declaration or statement in source form.
    pub open spec fn text(self) -> Seq<char> {
        match self {
            Stmt::Const(decl) => decl.text(),
            Stmt::Var(decl) => decl.text(),
            Stmt::Assign(assign) => assign.text(),
            Stmt::Return(ret) => ret.text(),
        }
    }

    /// The declaration or statement in source form.
    pub fn to_string(&self) -> (s: String)
        ensures
            s@ == self.text(),
    {
        match self {
            Stmt::Const(decl) => decl.to_string(),
            Stmt::Var(decl) => decl.to_string(),
            Stmt::Assign(assign) => assign.to_string(),
            Stmt::Return(ret) => ret.to_string(),
        }
    }
}

/// The source forms of the first `n` items, each followed by a space.
pub open spec fn items_text(items: Seq<Stmt>, n: nat) -> Seq<char>
    decreases n,
{
    if n == 0 {
        Seq::empty()
    } else {
        items_text(items, (n - 1) as nat) + items[n - 1].text() + " "@
    }
}

impl Block {
    /// An opening brace and a space, each item followed by a space, and a
    /// closing brace.
    pub open spec fn text(self) -> Seq<char> {
        "{ "@ + items_text(self.items@, self.items@.len()) + "}"@
    }

    /// The block in source form.
    pub fn to_string(&self) -> (s: String)
        ensures
            s@ == self.text(),
    {
        let mut out = String::from_str("{ ");
        let mut i: usize = 0;
        while i < self.items.len()
            invariant
                i <= self.items@.len(),
                out@ == "{ "@ + items_text(self.items@, i as nat),
            decreases self.items@.len() - i,
        {
            let item = self.items[i].to_string();
            out.append(item.as_str());
            out.append(" ");
            i = i + 1;
            assert(out@ =~= "{ "@ + items_text(self.items@, i as nat));
        }
        out.append("}");
        out
    }
}

impl FuncType {
    /// The type's keyword.
    pub open spec fn text(self) -> Seq<char> {
        match self {
            FuncType::Int => "int"@,
        }
    }

    /// The type's keyword.
    pub fn to_string(&self) -> (s: String)
        ensures
            s@ == self.text(),
    {
        match self {
            FuncType::Int => String::from_str("int"),
        }
    }
}

impl FuncDef {
    /// `<type> <id>() <block>`
    pub open spec fn text(self) -> Seq<char> {
        self.func_type.text() + " "@ + self.id.text() + "() "@ + self.block.text()
    }

    /// The definition in source form.
    pub fn to_string(&self) -> (s: String)
        ensures
            s@ == self.text(),
    {
        let mut out = self.func_type.to_string();
        out.append(" ");
        out.append(self.id.value.as_str());
        out.append("() ");
        let block = self.block.to_string();
        out.append(block.as_str());
        out
    }
}

impl CompUnit {
    /// The source form of the unit's function.
    pub open spec fn text(self) -> Seq<char> {
        self.func_def.text()
    }

    /// The unit in source form.
    pub fn to_string(&self) -> (s: String)
        ensures
            s@ == self.text(),
    {
        self.func_def.to_string()
    }
}

} // verus!
