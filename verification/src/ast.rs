//! The abstract syntax tree: a closed recursive node model, and the
//! code-generation capability that renders nodes into batch-style script
//! text, children before parents.
//!
//! Every renderer is stated by the spec-level model [`spec_render`]: a node
//! kind or a target dialect without an implemented renderer fails loudly
//! with [`CompileError::Unsupported`], never with silent wrong output.

use crate::compiler::{CompileError, Target};
use crate::lexer::{Literal, Symbol, TokenKind, TokenKindV};
use vstd::prelude::*;

verus! {

/// A program tree node. Composite nodes own their children by value: the
/// tree has no sharing and no cycles, and is read-only during rendering.
#[derive(Debug, Hash, Eq, PartialEq)]
pub enum Expr {
    Int(u64),
    Str(String),
    Variable(String),
    Unary(Box<UnaryExpr>),
    Binary(Box<BinaryExpr>),
    Literal(Literal),
    Return(Box<Expr>),
    VariableDecl(Box<VariableDecl>),
    ConstDecl(Box<ConstDecl>),
    If(Box<If>),
    FuncDef(Box<FuncDef>),
    FuncCall(Box<FuncCall>),
    While(Box<While>),
    Loop(Box<Loop>),
    For(Box<For>),
    Continue,
    Break,
    Block(Vec<Expr>),
}

/// An operator applied to one child expression.
#[derive(Debug, Hash, Eq, PartialEq)]
pub struct UnaryExpr {
    pub op: UnaryOpKind,
    pub child: Expr,
}

/// An operator applied to two child expressions.
#[derive(Debug, Hash, Eq, PartialEq)]
pub struct BinaryExpr {
    pub op: BinaryOpKind,
    pub left: Expr,
    pub right: Expr,
}

/// A function definition: name, parameter names and a body.
#[derive(Debug, Hash, Eq, PartialEq)]
pub struct FuncDef {
    pub name: String,
    pub params: Vec<String>,
    pub body: Expr,
}

/// A call of a named function with argument expressions.
#[derive(Debug, Hash, Eq, PartialEq)]
pub struct FuncCall {
    pub func_name: String,
    pub params: Vec<Expr>,
}

/// A conditional; both branches are always present.
#[derive(Debug, Hash, Eq, PartialEq)]
pub struct If {
    pub cond: Expr,
    pub then_: Expr,
    pub else_: Expr,
}

/// A for-each loop: bound item name, container expression and body.
#[derive(Debug, Hash, Eq, PartialEq)]
pub struct For {
    pub item: String,
    pub container: Expr,
    pub body: Expr,
}

/// A while loop (declared; no renderer yet).
#[derive(Debug, Hash, Eq, PartialEq)]
pub struct While {
    pub cond: Expr,
    pub body: Expr,
}

/// An unconditional bare loop around a body.
#[derive(Debug, Hash, Eq, PartialEq)]
pub struct Loop {
    pub body: Expr,
}

/// A variable declaration binding a name to an initializer expression.
#[derive(Debug, Hash, Eq, PartialEq)]
pub struct VariableDecl {
    pub name: String,
    pub value: Expr,
}

/// A constant declaration (declared; no renderer yet).
#[derive(Debug, Hash, Eq, PartialEq)]
pub struct ConstDecl {
    pub name: String,
    pub value: Expr,
}

/// The closed unary operator vocabulary.
#[derive(Debug, Hash, Eq, PartialEq, Structural, Clone, Copy)]
pub enum UnaryOpKind {
    Minus,
    LogicalNot,
    BitwiseNot,
}

/// The closed binary operator vocabulary.
#[derive(Debug, Hash, Eq, PartialEq, Structural, Clone, Copy)]
pub enum BinaryOpKind {
    Add,
    Sub,
    Mul,
    Div,
    Assign,
    Eq,
    Ne,
    Gt,
    Lt,
    GtEq,
    LtEq,
    Shr,
    Shl,
    Xor,
    LogicalAnd,
    LogicalOr,
    BinaryAnd,
    BinaryOr,
}

/// The batch-dialect spelling of a unary operator.
pub open spec fn spec_unop_text(op: UnaryOpKind) -> Seq<char> {
    match op {
        UnaryOpKind::Minus => "-"@,
        UnaryOpKind::LogicalNot => "NOT"@,
        UnaryOpKind::BitwiseNot => "~"@,
    }
}

/// The batch-dialect spelling of a binary operator.
pub open spec fn spec_binop_text(op: BinaryOpKind) -> Seq<char> {
    match op {
        BinaryOpKind::Add => "+"@,
        BinaryOpKind::Sub => "-"@,
        BinaryOpKind::Mul => "*"@,
        BinaryOpKind::Div => "/"@,
        BinaryOpKind::Assign => "EQU"@,
        BinaryOpKind::Eq => "=="@,
        BinaryOpKind::Ne => "NEQ"@,
        BinaryOpKind::Gt => "GTR"@,
        BinaryOpKind::Lt => "LSS"@,
        BinaryOpKind::GtEq => "GEQ"@,
        BinaryOpKind::LtEq => "LEQ"@,
        BinaryOpKind::Shr => ">>"@,
        BinaryOpKind::Shl => "<<"@,
        BinaryOpKind::Xor => "^"@,
        BinaryOpKind::LogicalAnd => "&&"@,
        BinaryOpKind::LogicalOr => "||"@,
        BinaryOpKind::BinaryAnd => "&"@,
        BinaryOpKind::BinaryOr => "|"@,
    }
}

/// The binary operator that a symbol token stands for, if any.
pub open spec fn spec_binop_of_symbol(s: Symbol) -> Option<BinaryOpKind> {
    match s {
        Symbol::Add => Some(BinaryOpKind::Add),
        Symbol::Sub => Some(BinaryOpKind::Sub),
        Symbol::Mul => Some(BinaryOpKind::Mul),
        Symbol::Div => Some(BinaryOpKind::Div),
        Symbol::Equal => Some(BinaryOpKind::Assign),
        Symbol::DoubleEqual => Some(BinaryOpKind::Eq),
        Symbol::Gt => Some(BinaryOpKind::Gt),
        Symbol::Lt => Some(BinaryOpKind::Lt),
        Symbol::GtEq => Some(BinaryOpKind::GtEq),
        Symbol::LtEq => Some(BinaryOpKind::LtEq),
        Symbol::Shr => Some(BinaryOpKind::Shr),
        Symbol::Shl => Some(BinaryOpKind::Shl),
        Symbol::Xor => Some(BinaryOpKind::Xor),
        Symbol::LogicalAnd => Some(BinaryOpKind::LogicalAnd),
        Symbol::LogicalOr => Some(BinaryOpKind::LogicalOr),
        Symbol::BinaryAnd => Some(BinaryOpKind::BinaryAnd),
        Symbol::BinaryOr => Some(BinaryOpKind::BinaryOr),
        _ => None,
    }
}

impl UnaryOpKind {
    /// Render the operator's batch spelling.
    pub fn compile(&self, t: &Target) -> (r: Result<String, CompileError>)
        ensures
            *t is Batch ==> (r matches Ok(s) && s@ == spec_unop_text(*self)),
            !(*t is Batch) ==> r == Err::<String, CompileError>(CompileError::Unsupported),
    {
        match t {
            Target::Batch => match self {
                UnaryOpKind::Minus => Ok("-".to_owned()),
                UnaryOpKind::LogicalNot => Ok("NOT".to_owned()),
                UnaryOpKind::BitwiseNot => Ok("~".to_owned()),
            },
            _ => Err(CompileError::Unsupported),
        }
    }
}

impl BinaryOpKind {
    /// Render the operator's batch spelling.
    pub fn compile(&self, t: &Target) -> (r: Result<String, CompileError>)
        ensures
            *t is Batch ==> (r matches Ok(s) && s@ == spec_binop_text(*self)),
            !(*t is Batch) ==> r == Err::<String, CompileError>(CompileError::Unsupported),
    {
        match t {
            Target::Batch => match self {
                BinaryOpKind::Add => Ok("+".to_owned()),
                BinaryOpKind::Sub => Ok("-".to_owned()),
                BinaryOpKind::Mul => Ok("*".to_owned()),
                BinaryOpKind::Div => Ok("/".to_owned()),
                BinaryOpKind::Assign => Ok("EQU".to_owned()),
                BinaryOpKind::Eq => Ok("==".to_owned()),
                BinaryOpKind::Ne => Ok("NEQ".to_owned()),
                BinaryOpKind::Gt => Ok("GTR".to_owned()),
                BinaryOpKind::Lt => Ok("LSS".to_owned()),
                BinaryOpKind::GtEq => Ok("GEQ".to_owned()),
                BinaryOpKind::LtEq => Ok("LEQ".to_owned()),
                BinaryOpKind::Shr => Ok(">>".to_owned()),
                BinaryOpKind::Shl => Ok("<<".to_owned()),
                BinaryOpKind::Xor => Ok("^".to_owned()),
                BinaryOpKind::LogicalAnd => Ok("&&".to_owned()),
                BinaryOpKind::LogicalOr => Ok("||".to_owned()),
                BinaryOpKind::BinaryAnd => Ok("&".to_owned()),
                BinaryOpKind::BinaryOr => Ok("|".to_owned()),
            },
            _ => Err(CompileError::Unsupported),
        }
    }

    /// The operator a symbol token stands for; a token that maps to no
    /// binary operator is a construction-time error.
    pub fn from_token(t: &TokenKind) -> (r: Result<BinaryOpKind, &'static str>)
        ensures
            t@ is Symbol && spec_binop_of_symbol(t@->Symbol_0) is Some ==> r == Ok::<
                BinaryOpKind,
                &'static str,
            >(spec_binop_of_symbol(t@->Symbol_0)->Some_0),
            t@ is Symbol && spec_binop_of_symbol(t@->Symbol_0) is None ==> (r matches Err(m)
                && m@ == "unexpected symbol type"@),
            !(t@ is Symbol) ==> (r matches Err(m) && m@ == "unexpected token type"@),
    {
        if let TokenKind::Symbol(sym) = t {
            match sym {
                Symbol::Add => Ok(BinaryOpKind::Add),
                Symbol::Sub => Ok(BinaryOpKind::Sub),
                Symbol::Mul => Ok(BinaryOpKind::Mul),
                Symbol::Div => Ok(BinaryOpKind::Div),
                Symbol::Equal => Ok(BinaryOpKind::Assign),
                Symbol::DoubleEqual => Ok(BinaryOpKind::Eq),
                Symbol::Gt => Ok(BinaryOpKind::Gt),
                Symbol::Lt => Ok(BinaryOpKind::Lt),
                Symbol::GtEq => Ok(BinaryOpKind::GtEq),
                Symbol::LtEq => Ok(BinaryOpKind::LtEq),
                Symbol::Shr => Ok(BinaryOpKind::Shr),
                Symbol::Shl => Ok(BinaryOpKind::Shl),
                Symbol::Xor => Ok(BinaryOpKind::Xor),
                Symbol::LogicalAnd => Ok(BinaryOpKind::LogicalAnd),
                Symbol::LogicalOr => Ok(BinaryOpKind::LogicalOr),
                Symbol::BinaryAnd => Ok(BinaryOpKind::BinaryAnd),
                Symbol::BinaryOr => Ok(BinaryOpKind::BinaryOr),
                _ => Err("unexpected symbol type"),
            }
        } else {
            Err("unexpected token type")
        }
    }
}

/// The decimal digit character for one digit value.
pub open spec fn dec_digit(d: int) -> char {
    (('0' as u8 + d) as u8) as char
}

/// The decimal text of an unsigned value, most significant digit first.
pub open spec fn spec_u64_dec(n: nat) -> Seq<char>
    decreases n,
{
    if n < 10 {
        seq![dec_digit(n as int)]
    } else {
        proof {
            assert(n / 10 < n) by (nonlinear_arith)
                requires n >= 10;
        }
        spec_u64_dec(n / 10).push(dec_digit((n % 10) as int))
    }
}

/// The one-character text of a decimal digit.
fn dec_digit_str(d: u64) -> (s: &'static str)
    requires
        d < 10,
    ensures
        s@ == seq![dec_digit(d as int)],
{
    proof {
        reveal_strlit("0");
        reveal_strlit("1");
        reveal_strlit("2");
        reveal_strlit("3");
        reveal_strlit("4");
        reveal_strlit("5");
        reveal_strlit("6");
        reveal_strlit("7");
        reveal_strlit("8");
        reveal_strlit("9");
    }
    if d == 0 {
        proof {
            assert(("0")@ =~= seq![dec_digit(0)]);
        }
        "0"
    } else if d == 1 {
        proof {
            assert(("1")@ =~= seq![dec_digit(1)]);
        }
        "1"
    } else if d == 2 {
        proof {
            assert(("2")@ =~= seq![dec_digit(2)]);
        }
        "2"
    } else if d == 3 {
        proof {
            assert(("3")@ =~= seq![dec_digit(3)]);
        }
        "3"
    } else if d == 4 {
        proof {
            assert(("4")@ =~= seq![dec_digit(4)]);
        }
        "4"
    } else if d == 5 {
        proof {
            assert(("5")@ =~= seq![dec_digit(5)]);
        }
        "5"
    } else if d == 6 {
        proof {
            assert(("6")@ =~= seq![dec_digit(6)]);
        }
        "6"
    } else if d == 7 {
        proof {
            assert(("7")@ =~= seq![dec_digit(7)]);
        }
        "7"
    } else if d == 8 {
        proof {
            assert(("8")@ =~= seq![dec_digit(8)]);
        }
        "8"
    } else {
        proof {
            assert(("9")@ =~= seq![dec_digit(9)]);
        }
        "9"
    }
}

/// Decimal rendering of an unsigned value.
fn u64_to_dec(n: u64) -> (s: String)
    ensures
        s@ == spec_u64_dec(n as nat),
    decreases n,
{
    if n < 10 {
        dec_digit_str(n).to_owned()
    } else {
        let mut s = u64_to_dec(n / 10);
        s.append(dec_digit_str(n % 10));
        proof {
            assert(s@ =~= spec_u64_dec((n / 10) as nat).push(dec_digit((n % 10) as int)));
        }
        s
    }
}

/// Unary expression text: operator spelling, then the child, no separator.
pub open spec fn spec_render_unary(u: UnaryExpr, t: Target) -> Option<Seq<char>>
    decreases u,
{
    if !(t is Batch) {
        None
    } else {
        match spec_render(u.child, t) {
            Some(c) => Some(spec_unop_text(u.op) + c),
            None => None,
        }
    }
}

/// Binary expression text: both operands quoted inside `%...%` placeholders
/// around the operator's spelling (the dialect's variable-expansion syntax,
/// not an arithmetic evaluation).
pub open spec fn spec_render_binary(b: BinaryExpr, t: Target) -> Option<Seq<char>>
    decreases b,
{
    if !(t is Batch) {
        None
    } else {
        match (spec_render(b.left, t), spec_render(b.right, t)) {
            (Some(l), Some(r)) => Some(
                "\"%"@ + l + "%\" "@ + spec_binop_text(b.op) + " \"%"@ + r + "%\""@,
            ),
            _ => None,
        }
    }
}

/// Conditional text: an `If (...) ELSE (...)` block, both branches present.
pub open spec fn spec_render_if(f: If, t: Target) -> Option<Seq<char>>
    decreases f,
{
    if !(t is Batch) {
        None
    } else {
        match (spec_render(f.cond, t), spec_render(f.then_, t), spec_render(f.else_, t)) {
            (Some(c), Some(th), Some(el)) => Some(
                "If "@ + c + " ( \n "@ + th + " ) \n ELSE ( "@ + el + " \n ) \n"@,
            ),
            _ => None,
        }
    }
}

/// For-each text: the dialect-native iteration construct.
pub open spec fn spec_render_for(f: For, t: Target) -> Option<Seq<char>>
    decreases f,
{
    if !(t is Batch) {
        None
    } else {
        match (spec_render(f.container, t), spec_render(f.body, t)) {
            (Some(c), Some(b)) => Some(
                "FOR %%"@ + f.item@ + " IN "@ + c + " DO (\n"@ + b + ")\n"@,
            ),
            _ => None,
        }
    }
}

/// Bare loop text: a label, the body, and an unconditional jump back.
pub open spec fn spec_render_loop(l: Loop, t: Target) -> Option<Seq<char>>
    decreases l,
{
    if !(t is Batch) {
        None
    } else {
        match spec_render(l.body, t) {
            Some(b) => Some(":LOOP\n"@ + b + "\ngoto :LOOP"@),
            None => None,
        }
    }
}

/// Variable declaration text: an assignment statement ending in a newline.
pub open spec fn spec_render_var_decl(v: VariableDecl, t: Target) -> Option<Seq<char>>
    decreases v,
{
    if !(t is Batch) {
        None
    } else {
        match spec_render(v.value, t) {
            Some(val) => Some("set "@ + v.name@ + "="@ + val + "\n"@),
            None => None,
        }
    }
}

/// Function call text: a batch `CALL` of the named label with each rendered
/// argument separated by a space, ending in a newline.
pub open spec fn spec_render_func_call(c: FuncCall, t: Target) -> Option<Seq<char>>
    decreases c,
{
    if !(t is Batch) {
        None
    } else {
        match spec_render_join(c.params@, t, " "@) {
            Some(a) => Some(
                "CALL :"@ + c.func_name@ + (if c.params@.len() == 0 {
                    a
                } else {
                    " "@ + a
                }) + "\n"@,
            ),
            None => None,
        }
    }
}

/// Node text, children before parent; `None` where the node kind or the
/// target has no renderer.
pub open spec fn spec_render(e: Expr, t: Target) -> Option<Seq<char>>
    decreases e,
{
    if !(t is Batch) {
        None
    } else {
        match e {
            Expr::Int(i) => Some(spec_u64_dec(i as nat)),
            Expr::Str(s) => Some(s@),
            Expr::Variable(v) => Some(v@),
            Expr::Unary(u) => spec_render_unary(*u, t),
            Expr::Binary(b) => spec_render_binary(*b, t),
            Expr::Literal(_) => None,
            Expr::Return(_) => None,
            Expr::VariableDecl(v) => spec_render_var_decl(*v, t),
            Expr::ConstDecl(_) => None,
            Expr::If(f) => spec_render_if(*f, t),
            Expr::FuncDef(_) => None,
            Expr::FuncCall(c) => spec_render_func_call(*c, t),
            Expr::While(_) => None,
            Expr::Loop(l) => spec_render_loop(*l, t),
            Expr::For(f) => spec_render_for(*f, t),
            Expr::Continue => None,
            Expr::Break => None,
            Expr::Block(b) => spec_render_join(b@, t, "\n"@),
        }
    }
}

/// The rendered children joined by a separator, in stored order; `None` as
/// soon as any child has no renderer.
pub open spec fn spec_render_join(es: Seq<Expr>, t: Target, sep: Seq<char>) -> Option<Seq<char>>
    decreases es,
{
    if es.len() == 0 {
        Some(Seq::empty())
    } else if es.len() == 1 {
        spec_render(es[0], t)
    } else {
        match (spec_render_join(es.drop_last(), t, sep), spec_render(es.last(), t)) {
            (Some(a), Some(b)) => Some(a + sep + b),
            _ => None,
        }
    }
}

/// A failed child makes every extension of the list fail.
proof fn lemma_render_join_none(es: Seq<Expr>, t: Target, sep: Seq<char>, j: int)
    requires
        0 < j <= es.len(),
        spec_render_join(es.take(j), t, sep) is None,
    ensures
        spec_render_join(es, t, sep) is None,
    decreases es.len() - j,
{
    if j == es.len() {
        assert(es.take(j) =~= es);
    } else {
        assert(es.take(j + 1).drop_last() =~= es.take(j));
        assert(spec_render_join(es.take(j + 1), t, sep) is None);
        lemma_render_join_none(es, t, sep, j + 1);
    }
}

/// Render each element and join with the separator, children in order.
fn compile_join(es: &Vec<Expr>, t: &Target, sep: &str) -> (r: Result<String, CompileError>)
    ensures
        spec_render_join(es@, *t, sep@) matches Some(text) ==> (r matches Ok(s) && s@
            == text),
        spec_render_join(es@, *t, sep@) is None ==> r == Err::<String, CompileError>(
            CompileError::Unsupported,
        ),
    decreases es@,
{
    let mut out = String::new();
    let n = es.len();
    proof {
        assert(es@.take(0) =~= Seq::<Expr>::empty());
    }
    let mut i: usize = 0;
    while i < n
        invariant
            n == es@.len(),
            i <= n,
            spec_render_join(es@.take(i as int), *t, sep@) == Some(out@),
        decreases n - i,
    {
        proof {
            assert(decreases_to!(es@ => es@[i as int]));
        }
        let piece = match es[i].compile(t) {
            Ok(p) => p,
            Err(e) => {
                proof {
                    assert(es@.take(i as int + 1).drop_last() =~= es@.take(i as int));
                    assert(es@.take(i as int + 1).last() == es@[i as int]);
                    assert(spec_render_join(es@.take(i as int + 1), *t, sep@) is None);
                    lemma_render_join_none(es@, *t, sep@, i as int + 1);
                }
                return Err(e);
            },
        };
        let ghost opre = out@;
        if i > 0 {
            out.append(sep);
        }
        out.append(piece.as_str());
        proof {
            assert(es@.take(i as int + 1).drop_last() =~= es@.take(i as int));
            assert(es@.take(i as int + 1).last() == es@[i as int]);
            if i == 0 {
                assert(out@ =~= piece@);
                assert(es@.take(1)[0] == es@[0]);
            } else {
                assert(out@ =~= opre + sep@ + piece@);
            }
        }
        i = i + 1;
    }
    proof {
        assert(es@.take(n as int) =~= es@);
    }
    Ok(out)
}

impl Expr {
    /// Render this node for the given target, children before parent.
    pub fn compile(&self, t: &Target) -> (r: Result<String, CompileError>)
        ensures
            spec_render(*self, *t) matches Some(text) ==> (r matches Ok(s) && s@ == text),
            spec_render(*self, *t) is None ==> r == Err::<String, CompileError>(
                CompileError::Unsupported,
            ),
        decreases self,
    {
        match self {
            Expr::Int(i) => match t {
                Target::Batch => Ok(u64_to_dec(*i)),
                _ => Err(CompileError::Unsupported),
            },
            Expr::Str(s) => match t {
                Target::Batch => Ok(s.clone()),
                _ => Err(CompileError::Unsupported),
            },
            Expr::Variable(v) => match t {
                Target::Batch => Ok(v.clone()),
                _ => Err(CompileError::Unsupported),
            },
            Expr::Unary(u) => u.compile(t),
            Expr::Binary(b) => b.compile(t),
            Expr::Literal(l) => l.compile(t),
            Expr::Return(_) => Err(CompileError::Unsupported),
            Expr::VariableDecl(v) => v.compile(t),
            Expr::ConstDecl(c) => c.compile(t),
            Expr::If(f) => f.compile(t),
            Expr::FuncDef(f) => f.compile(t),
            Expr::FuncCall(c) => c.compile(t),
            Expr::While(_) => Err(CompileError::Unsupported),
            Expr::Loop(l) => l.compile(t),
            Expr::For(f) => f.compile(t),
            Expr::Continue => Err(CompileError::Unsupported),
            Expr::Break => Err(CompileError::Unsupported),
            Expr::Block(b) => match t {
                Target::Batch => compile_join(b, t, "\n"),
                _ => Err(CompileError::Unsupported),
            },
        }
    }
}

impl Literal {
    /// A literal wrapper node has no renderer yet; rendering fails loudly.
    pub fn compile(&self, t: &Target) -> (r: Result<String, CompileError>)
        ensures
            r == Err::<String, CompileError>(CompileError::Unsupported),
    {
        Err(CompileError::Unsupported)
    }
}

impl UnaryExpr {
    /// Operator spelling, then the rendered child, with no separator.
    pub fn compile(&self, t: &Target) -> (r: Result<String, CompileError>)
        ensures
            spec_render_unary(*self, *t) matches Some(text) ==> (r matches Ok(s) && s@
                == text),
            spec_render_unary(*self, *t) is None ==> r == Err::<String, CompileError>(
                CompileError::Unsupported,
            ),
        decreases self,
    {
        let mut out = match self.op.compile(t) {
            Ok(o) => o,
            Err(e) => {
                return Err(e);
            },
        };
        let child = match self.child.compile(t) {
            Ok(c) => c,
            Err(e) => {
                return Err(e);
            },
        };
        out.append(child.as_str());
        proof {
            assert(out@ =~= spec_unop_text(self.op) + child@);
        }
        Ok(out)
    }
}

impl BinaryExpr {
    /// Both operands quoted inside `%...%` placeholders around the operator.
    pub fn compile(&self, t: &Target) -> (r: Result<String, CompileError>)
        ensures
            spec_render_binary(*self, *t) matches Some(text) ==> (r matches Ok(s) && s@
                == text),
            spec_render_binary(*self, *t) is None ==> r == Err::<String, CompileError>(
                CompileError::Unsupported,
            ),
        decreases self,
    {
        let op = match self.op.compile(t) {
            Ok(o) => o,
            Err(e) => {
                return Err(e);
            },
        };
        let left = match self.left.compile(t) {
            Ok(l) => l,
            Err(e) => {
                return Err(e);
            },
        };
        let right = match self.right.compile(t) {
            Ok(r2) => r2,
            Err(e) => {
                return Err(e);
            },
        };
        let mut out = "\"%".to_owned();
        out.append(left.as_str());
        out.append("%\" ");
        out.append(op.as_str());
        out.append(" \"%");
        out.append(right.as_str());
        out.append("%\"");
        proof {
            assert(out@ =~= "\"%"@ + left@ + "%\" "@ + spec_binop_text(self.op) + " \"%"@
                + right@ + "%\""@);
        }
        Ok(out)
    }
}

impl FuncDef {
    /// A function definition has no renderer yet; rendering fails loudly.
    pub fn compile(&self, t: &Target) -> (r: Result<String, CompileError>)
        ensures
            r == Err::<String, CompileError>(CompileError::Unsupported),
    {
        Err(CompileError::Unsupported)
    }
}

impl FuncCall {
    /// A batch `CALL` of the named label with the rendered arguments.
    pub fn compile(&self, t: &Target) -> (r: Result<String, CompileError>)
        ensures
            spec_render_func_call(*self, *t) matches Some(text) ==> (r matches Ok(s) && s@
                == text),
            spec_render_func_call(*self, *t) is None ==> r == Err::<String, CompileError>(
                CompileError::Unsupported,
            ),
        decreases self,
    {
        match t {
            Target::Batch => {},
            _ => {
                return Err(CompileError::Unsupported);
            },
        }
        let args = match compile_join(&self.params, t, " ") {
            Ok(a) => a,
            Err(e) => {
                return Err(e);
            },
        };
        let mut out = "CALL :".to_owned();
        out.append(self.func_name.as_str());
        if self.params.len() > 0 {
            out.append(" ");
        }
        out.append(args.as_str());
        out.append("\n");
        proof {
            if self.params@.len() == 0 {
                assert(out@ =~= "CALL :"@ + self.func_name@ + args@ + "\n"@);
            } else {
                assert(out@ =~= "CALL :"@ + self.func_name@ + (" "@ + args@) + "\n"@);
            }
        }
        Ok(out)
    }
}

impl If {
    /// An `If (...) ELSE (...)` block; both branches are always present.
    pub fn compile(&self, t: &Target) -> (r: Result<String, CompileError>)
        ensures
            spec_render_if(*self, *t) matches Some(text) ==> (r matches Ok(s) && s@
                == text),
            spec_render_if(*self, *t) is None ==> r == Err::<String, CompileError>(
                CompileError::Unsupported,
            ),
        decreases self,
    {
        match t {
            Target::Batch => {},
            _ => {
                return Err(CompileError::Unsupported);
            },
        }
        let cond = match self.cond.compile(t) {
            Ok(c) => c,
            Err(e) => {
                return Err(e);
            },
        };
        let thn = match self.then_.compile(t) {
            Ok(th) => th,
            Err(e) => {
                return Err(e);
            },
        };
        let els = match self.else_.compile(t) {
            Ok(el) => el,
            Err(e) => {
                return Err(e);
            },
        };
        let mut out = "If ".to_owned();
        out.append(cond.as_str());
        out.append(" ( \n ");
        out.append(thn.as_str());
        out.append(" ) \n ELSE ( ");
        out.append(els.as_str());
        out.append(" \n ) \n");
        proof {
            assert(out@ =~= "If "@ + cond@ + " ( \n "@ + thn@ + " ) \n ELSE ( "@ + els@
                + " \n ) \n"@);
        }
        Ok(out)
    }
}

impl For {
    /// The dialect-native iteration construct around the rendered body.
    pub fn compile(&self, t: &Target) -> (r: Result<String, CompileError>)
        ensures
            spec_render_for(*self, *t) matches Some(text) ==> (r matches Ok(s) && s@
                == text),
            spec_render_for(*self, *t) is None ==> r == Err::<String, CompileError>(
                CompileError::Unsupported,
            ),
        decreases self,
    {
        match t {
            Target::Batch => {},
            _ => {
                return Err(CompileError::Unsupported);
            },
        }
        let container = match self.container.compile(t) {
            Ok(c) => c,
            Err(e) => {
                return Err(e);
            },
        };
        let body = match self.body.compile(t) {
            Ok(b) => b,
            Err(e) => {
                return Err(e);
            },
        };
        let mut out = "FOR %%".to_owned();
        out.append(self.item.as_str());
        out.append(" IN ");
        out.append(container.as_str());
        out.append(" DO (\n");
        out.append(body.as_str());
        out.append(")\n");
        proof {
            assert(out@ =~= "FOR %%"@ + self.item@ + " IN "@ + container@ + " DO (\n"@
                + body@ + ")\n"@);
        }
        Ok(out)
    }
}

impl Loop {
    /// A label, the rendered body, and an unconditional jump back.
    pub fn compile(&self, t: &Target) -> (r: Result<String, CompileError>)
        ensures
            spec_render_loop(*self, *t) matches Some(text) ==> (r matches Ok(s) && s@
                == text),
            spec_render_loop(*self, *t) is None ==> r == Err::<String, CompileError>(
                CompileError::Unsupported,
            ),
        decreases self,
    {
        match t {
            Target::Batch => {},
            _ => {
                return Err(CompileError::Unsupported);
            },
        }
        let body = match self.body.compile(t) {
            Ok(b) => b,
            Err(e) => {
                return Err(e);
            },
        };
        let mut out = ":LOOP\n".to_owned();
        out.append(body.as_str());
        out.append("\ngoto :LOOP");
        proof {
            assert(out@ =~= ":LOOP\n"@ + body@ + "\ngoto :LOOP"@);
        }
        Ok(out)
    }
}

impl VariableDecl {
    /// An assignment statement binding the name to the rendered initializer.
    pub fn compile(&self, t: &Target) -> (r: Result<String, CompileError>)
        ensures
            spec_render_var_decl(*self, *t) matches Some(text) ==> (r matches Ok(s) && s@
                == text),
            spec_render_var_decl(*self, *t) is None ==> r == Err::<String, CompileError>(
                CompileError::Unsupported,
            ),
        decreases self,
    {
        match t {
            Target::Batch => {},
            _ => {
                return Err(CompileError::Unsupported);
            },
        }
        let value = match self.value.compile(t) {
            Ok(v) => v,
            Err(e) => {
                return Err(e);
            },
        };
        let mut out = "set ".to_owned();
        out.append(self.name.as_str());
        out.append("=");
        out.append(value.as_str());
        out.append("\n");
        proof {
            assert(out@ =~= "set "@ + self.name@ + "="@ + value@ + "\n"@);
        }
        Ok(out)
    }
}

impl ConstDecl {
    /// A constant declaration has no renderer yet; rendering fails loudly.
    pub fn compile(&self, t: &Target) -> (r: Result<String, CompileError>)
        ensures
            r == Err::<String, CompileError>(CompileError::Unsupported),
    {
        Err(CompileError::Unsupported)
    }
}

} // verus!
