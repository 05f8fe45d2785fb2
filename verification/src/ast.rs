//! The syntax tree of the language and its mathematical model.

use crate::text::{texts, Str};
use std::rc::Rc;
use vstd::prelude::*;

verus! {

#[derive(Debug, PartialEq)]
pub enum Literal {
    Nil,
    Bool(bool),
    Number(i64),
    Text(String),
}

#[derive(Clone, Copy, Debug, PartialEq, Eq, Structural)]
pub enum UnaryOp {
    Negate,
    Not,
}

#[derive(Clone, Copy, Debug, PartialEq, Eq, Structural)]
pub enum BinaryOp {
    Add,
    Subtract,
    Multiply,
    Divide,
    Remainder,
    Equal,
    NotEqual,
    Less,
    Greater,
    LessEqual,
    GreaterEqual,
    And,
    Or,
}

/// An argument of a call, by position or by name.
#[derive(Debug, PartialEq)]
pub struct CallArg {
    pub name: Option<String>,
    pub value: Expr,
}

#[allow(inconsistent_fields)]
#[derive(Debug, PartialEq)]
pub enum Expr {
    Literal(Literal),
    Name(String),
    List(Vec<Expr>),
    Dict(Vec<(Expr, Expr)>),
    Unary { op: UnaryOp, value: Box<Expr> },
    Binary { left: Box<Expr>, op: BinaryOp, right: Box<Expr> },
    Conditional { condition: Box<Expr>, then_branch: Box<Expr>, else_branch: Box<Expr> },
    Await(Box<Expr>),
    Propagate(Box<Expr>),
    Call { callee: Box<Expr>, args: Vec<CallArg> },
    Member { target: Box<Expr>, member: String },
    Index { target: Box<Expr>, index: Box<Expr> },
}

/// A parameter of a function, with the source text of its annotation and of its default.
#[derive(Debug, PartialEq)]
pub struct Param {
    pub name: String,
    pub annotation: Option<String>,
    pub default: Option<String>,
}

/// A sequence of statements.
#[derive(Debug, PartialEq)]
pub struct Program {
    pub statements: Vec<Stmt>,
}

#[allow(inconsistent_fields)]
#[derive(Debug, PartialEq)]
pub enum Stmt {
    Expression(Expr),
    Field { name: String, annotation: Option<String>, value: Expr, visibility: String },
    Assignment { name: String, value: Expr },
    Declaration { name: String, annotation: Option<String>, value: Expr, exported: bool },
    Say(Expr),
    Raise(Expr),
    TryCatch { body: Program, binding: String, catch_body: Program },
    Return(Option<Expr>),
    Break,
    Continue,
    If { condition: Expr, then_branch: Program, else_branch: Option<Program> },
    While { condition: Expr, body: Program },
    For { binding: String, iterable: Expr, body: Program },
    Function {
        name: String,
        type_params: Vec<String>,
        params: Vec<Param>,
        return_type: Option<String>,
        body: Rc<Program>,
        visibility: String,
        is_async: bool,
        exported: bool,
    },
    Class { name: String, base: Option<String>, body: Program },
    Module { name: String },
    Import { path: String, explicit: bool },
}

// ---------------------------------------------------------------------------
// The model
// ---------------------------------------------------------------------------

pub enum LiteralM {
    Nil,
    Bool(bool),
    Number(i64),
    Text(Str),
}

pub struct CallArgM {
    pub name: Option<Str>,
    pub value: ExprM,
}

#[allow(inconsistent_fields)]
pub enum ExprM {
    Literal(LiteralM),
    Name(Str),
    List(Seq<ExprM>),
    Dict(Seq<(ExprM, ExprM)>),
    Unary { op: UnaryOp, value: Box<ExprM> },
    Binary { left: Box<ExprM>, op: BinaryOp, right: Box<ExprM> },
    Conditional { condition: Box<ExprM>, then_branch: Box<ExprM>, else_branch: Box<ExprM> },
    Await(Box<ExprM>),
    Propagate(Box<ExprM>),
    Call { callee: Box<ExprM>, args: Seq<CallArgM> },
    Member { target: Box<ExprM>, member: Str },
    Index { target: Box<ExprM>, index: Box<ExprM> },
}

pub struct ParamM {
    pub name: Str,
    pub annotation: Option<Str>,
    pub default: Option<Str>,
}

pub enum StmtM {
    Expression(ExprM),
    Field { name: Str, annotation: Option<Str>, value: ExprM, visibility: Str },
    Assignment { name: Str, value: ExprM },
    Declaration { name: Str, annotation: Option<Str>, value: ExprM, exported: bool },
    Say(ExprM),
    Raise(ExprM),
    TryCatch { body: Seq<StmtM>, binding: Str, catch_body: Seq<StmtM> },
    Return(Option<ExprM>),
    Break,
    Continue,
    If { condition: ExprM, then_branch: Seq<StmtM>, else_branch: Option<Seq<StmtM>> },
    While { condition: ExprM, body: Seq<StmtM> },
    For { binding: Str, iterable: ExprM, body: Seq<StmtM> },
    Function {
        name: Str,
        type_params: Seq<Str>,
        params: Seq<ParamM>,
        return_type: Option<Str>,
        body: Seq<StmtM>,
        visibility: Str,
        is_async: bool,
        exported: bool,
    },
    Class { name: Str, base: Option<Str>, body: Seq<StmtM> },
    Module { name: Str },
    Import { path: Str, explicit: bool },
}

/// The view of an optional text.
pub open spec fn opt_text(s: Option<String>) -> Option<Str> {
    match s {
        Some(t) => Some(t@),
        None => None,
    }
}

impl View for Literal {
    type V = LiteralM;

    open spec fn view(&self) -> LiteralM {
        match *self {
            Literal::Nil => LiteralM::Nil,
            Literal::Bool(b) => LiteralM::Bool(b),
            Literal::Number(n) => LiteralM::Number(n),
            Literal::Text(s) => LiteralM::Text(s@),
        }
    }
}

impl Expr {
    pub open spec fn model(&self) -> ExprM
        decreases self,
    {
        match *self {
            Expr::Literal(l) => ExprM::Literal(l@),
            Expr::Name(n) => ExprM::Name(n@),
            Expr::List(items) => ExprM::List(
                Seq::new(
                    items@.len(),
                    |i: int|
                        if 0 <= i < items@.len() {
                            items@[i].model()
                        } else {
                            ExprM::Literal(LiteralM::Nil)
                        },
                ),
            ),
            Expr::Dict(items) => ExprM::Dict(
                Seq::new(
                    items@.len(),
                    |i: int|
                        if 0 <= i < items@.len() {
                            (items@[i].0.model(), items@[i].1.model())
                        } else {
                            (ExprM::Literal(LiteralM::Nil), ExprM::Literal(LiteralM::Nil))
                        },
                ),
            ),
            Expr::Unary { op, value } => ExprM::Unary { op, value: Box::new(value.model()) },
            Expr::Binary { left, op, right } => ExprM::Binary {
                left: Box::new(left.model()),
                op,
                right: Box::new(right.model()),
            },
            Expr::Conditional { condition, then_branch, else_branch } => ExprM::Conditional {
                condition: Box::new(condition.model()),
                then_branch: Box::new(then_branch.model()),
                else_branch: Box::new(else_branch.model()),
            },
            Expr::Await(value) => ExprM::Await(Box::new(value.model())),
            Expr::Propagate(value) => ExprM::Propagate(Box::new(value.model())),
            Expr::Call { callee, args } => ExprM::Call {
                callee: Box::new(callee.model()),
                args: Seq::new(
                    args@.len(),
                    |i: int|
                        if 0 <= i < args@.len() {
                            args@[i].model()
                        } else {
                            CallArgM { name: None, value: ExprM::Literal(LiteralM::Nil) }
                        },
                ),
            },
            Expr::Member { target, member } => ExprM::Member {
                target: Box::new(target.model()),
                member: member@,
            },
            Expr::Index { target, index } => ExprM::Index {
                target: Box::new(target.model()),
                index: Box::new(index.model()),
            },
        }
    }
}

impl CallArg {
    pub open spec fn model(&self) -> CallArgM
        decreases self,
    {
        CallArgM { name: opt_text(self.name), value: self.value.model() }
    }
}

impl View for Expr {
    type V = ExprM;

    open spec fn view(&self) -> ExprM {
        self.model()
    }
}

impl View for CallArg {
    type V = CallArgM;

    open spec fn view(&self) -> CallArgM {
        self.model()
    }
}

impl View for Param {
    type V = ParamM;

    open spec fn view(&self) -> ParamM {
        ParamM {
            name: self.name@,
            annotation: opt_text(self.annotation),
            default: opt_text(self.default),
        }
    }
}

/// The views of a vector, one by one.
pub open spec fn views<T: View>(v: Seq<T>) -> Seq<T::V> {
    Seq::new(v.len(), |i: int| v[i]@)
}

impl Program {
    pub open spec fn model(&self) -> Seq<StmtM>
        decreases self,
    {
        Seq::new(
            self.statements@.len(),
            |i: int|
                if 0 <= i < self.statements@.len() {
                    self.statements@[i].model()
                } else {
                    StmtM::Break
                },
        )
    }
}

impl View for Program {
    type V = Seq<StmtM>;

    open spec fn view(&self) -> Seq<StmtM> {
        self.model()
    }
}

impl Stmt {
    pub open spec fn model(&self) -> StmtM
        decreases self,
    {
        match *self {
            Stmt::Expression(value) => StmtM::Expression(value@),
            Stmt::Field { name, annotation, value, visibility } => StmtM::Field {
                name: name@,
                annotation: opt_text(annotation),
                value: value@,
                visibility: visibility@,
            },
            Stmt::Assignment { name, value } => StmtM::Assignment { name: name@, value: value@ },
            Stmt::Declaration { name, annotation, value, exported } => StmtM::Declaration {
                name: name@,
                annotation: opt_text(annotation),
                value: value@,
                exported,
            },
            Stmt::Say(value) => StmtM::Say(value@),
            Stmt::Raise(value) => StmtM::Raise(value@),
            Stmt::TryCatch { body, binding, catch_body } => StmtM::TryCatch {
                body: body.model(),
                binding: binding@,
                catch_body: catch_body.model(),
            },
            Stmt::Return(value) => StmtM::Return(
                match value {
                    Some(e) => Some(e@),
                    None => None,
                },
            ),
            Stmt::Break => StmtM::Break,
            Stmt::Continue => StmtM::Continue,
            Stmt::If { condition, then_branch, else_branch } => StmtM::If {
                condition: condition@,
                then_branch: then_branch.model(),
                else_branch: match else_branch {
                    Some(p) => Some(p.model()),
                    None => None,
                },
            },
            Stmt::While { condition, body } => StmtM::While {
                condition: condition@,
                body: body.model(),
            },
            Stmt::For { binding, iterable, body } => StmtM::For {
                binding: binding@,
                iterable: iterable@,
                body: body.model(),
            },
            Stmt::Function {
                name,
                type_params,
                params,
                return_type,
                body,
                visibility,
                is_async,
                exported,
            } => StmtM::Function {
                name: name@,
                type_params: texts(type_params@),
                params: views(params@),
                return_type: opt_text(return_type),
                body: (*body).model(),
                visibility: visibility@,
                is_async,
                exported,
            },
            Stmt::Class { name, base, body } => StmtM::Class {
                name: name@,
                base: opt_text(base),
                body: body.model(),
            },
            Stmt::Module { name } => StmtM::Module { name: name@ },
            Stmt::Import { path, explicit } => StmtM::Import { path: path@, explicit },
        }
    }
}

impl View for Stmt {
    type V = StmtM;

    open spec fn view(&self) -> StmtM {
        self.model()
    }
}

// ---------------------------------------------------------------------------
// Facts about the model
// ---------------------------------------------------------------------------

/// The statements of a program, one by one.
pub proof fn lemma_program(p: &Program)
    ensures
        p@ == views(p.statements@),
{
    assert(p@ =~= views(p.statements@));
}

pub proof fn lemma_expr_list(e: &Expr)
    ensures
        e matches Expr::List(items) ==> e@ == ExprM::List(views(items@)),
{
    if let Expr::List(items) = e {
        assert(e@->List_0 =~= views(items@));
    }
}

pub proof fn lemma_expr_call(e: &Expr)
    ensures
        e matches Expr::Call { callee, args } ==> e@ == (ExprM::Call {
            callee: Box::new(callee@),
            args: views(args@),
        }),
{
    if let Expr::Call { callee, args } = e {
        assert(e@->args =~= views(args@));
    }
}

pub open spec fn pair_views(v: Seq<(Expr, Expr)>) -> Seq<(ExprM, ExprM)> {
    Seq::new(v.len(), |i: int| (v[i].0@, v[i].1@))
}

pub proof fn lemma_expr_dict(e: &Expr)
    ensures
        e matches Expr::Dict(items) ==> e@ == ExprM::Dict(pair_views(items@)),
{
    if let Expr::Dict(items) = e {
        assert(e@->Dict_0 =~= pair_views(items@));
    }
}

// ---------------------------------------------------------------------------
// Copying
// ---------------------------------------------------------------------------

pub fn copy_opt(s: &Option<String>) -> (r: Option<String>)
    ensures
        opt_text(r) == opt_text(*s),
{
    match s {
        Some(t) => Some(t.clone()),
        None => None,
    }
}

impl Param {
    pub fn copy(&self) -> (r: Param)
        ensures
            r@ == self@,
    {
        Param {
            name: self.name.clone(),
            annotation: copy_opt(&self.annotation),
            default: copy_opt(&self.default),
        }
    }
}

pub fn copy_params(params: &Vec<Param>) -> (r: Vec<Param>)
    ensures
        views(r@) == views(params@),
{
    let mut out: Vec<Param> = Vec::new();
    let mut i: usize = 0;
    while i < params.len()
        invariant
            i <= params@.len(),
            out@.len() == i,
            forall|j: int| 0 <= j < i ==> (#[trigger] out@[j])@ == params@[j]@,
        decreases params.len() - i,
    {
        out.push(params[i].copy());
        i += 1;
    }
    assert(views(out@) =~= views(params@));
    out
}

pub fn copy_texts(v: &Vec<String>) -> (r: Vec<String>)
    ensures
        texts(r@) == texts(v@),
{
    let mut out: Vec<String> = Vec::new();
    let mut i: usize = 0;
    while i < v.len()
        invariant
            i <= v@.len(),
            out@.len() == i,
            forall|j: int| 0 <= j < i ==> (#[trigger] out@[j])@ == v@[j]@,
        decreases v.len() - i,
    {
        out.push(v[i].clone());
        i += 1;
    }
    assert(texts(out@) =~= texts(v@));
    out
}

impl Literal {
    pub fn copy(&self) -> (r: Literal)
        ensures
            r@ == self@,
    {
        match self {
            Literal::Nil => Literal::Nil,
            Literal::Bool(b) => Literal::Bool(*b),
            Literal::Number(n) => Literal::Number(*n),
            Literal::Text(s) => Literal::Text(s.clone()),
        }
    }
}

impl Expr {
    pub fn copy(&self) -> (r: Expr)
        ensures
            r@ == self@,
        decreases self,
    {
        match self {
            Expr::Literal(l) => Expr::Literal(l.copy()),
            Expr::Name(n) => Expr::Name(n.clone()),
            Expr::List(items) => {
                let mut out: Vec<Expr> = Vec::new();
                let mut i: usize = 0;
                while i < items.len()
                    invariant
                        i <= items@.len(),
                        self == Expr::List(*items),
                        out@.len() == i,
                        forall|j: int| 0 <= j < i ==> (#[trigger] out@[j])@ == items@[j]@,
                    decreases items.len() - i,
                {
                    assert(decreases_to!(self => self->List_0));
                    assert(decreases_to!(items@ => items@[i as int]));
                    let item = items[i].copy();
                    out.push(item);
                    i += 1;
                }
                let r = Expr::List(out);
                proof {
                    lemma_expr_list(self);
                    lemma_expr_list(&r);
                    assert(views(out@) =~= views(items@));
                }
                r
            },
            Expr::Dict(items) => {
                let mut out: Vec<(Expr, Expr)> = Vec::new();
                let mut i: usize = 0;
                while i < items.len()
                    invariant
                        i <= items@.len(),
                        self == Expr::Dict(*items),
                        out@.len() == i,
                        forall|j: int|
                            0 <= j < i ==> (#[trigger] out@[j]).0@ == items@[j].0@ && out@[j].1@
                                == items@[j].1@,
                    decreases items.len() - i,
                {
                    assert(decreases_to!(self => self->Dict_0));
                    assert(decreases_to!(items@ => items@[i as int]));
                    assert(decreases_to!(items@[i as int] => items@[i as int].0));
                    assert(decreases_to!(items@[i as int] => items@[i as int].1));
                    let key = items[i].0.copy();
                    let value = items[i].1.copy();
                    out.push((key, value));
                    i += 1;
                }
                let r = Expr::Dict(out);
                proof {
                    lemma_expr_dict(self);
                    lemma_expr_dict(&r);
                    assert(pair_views(out@) =~= pair_views(items@));
                }
                r
            },
            Expr::Unary { op, value } => Expr::Unary { op: *op, value: Box::new(value.copy()) },
            Expr::Binary { left, op, right } => Expr::Binary {
                left: Box::new(left.copy()),
                op: *op,
                right: Box::new(right.copy()),
            },
            Expr::Conditional { condition, then_branch, else_branch } => Expr::Conditional {
                condition: Box::new(condition.copy()),
                then_branch: Box::new(then_branch.copy()),
                else_branch: Box::new(else_branch.copy()),
            },
            Expr::Await(value) => Expr::Await(Box::new(value.copy())),
            Expr::Propagate(value) => Expr::Propagate(Box::new(value.copy())),
            Expr::Call { callee, args } => {
                let mut out: Vec<CallArg> = Vec::new();
                let mut i: usize = 0;
                while i < args.len()
                    invariant
                        i <= args@.len(),
                        self == (Expr::Call { callee: *callee, args: *args }),
                        out@.len() == i,
                        forall|j: int| 0 <= j < i ==> (#[trigger] out@[j])@ == args@[j]@,
                    decreases args.len() - i,
                {
                    assert(decreases_to!(self => self->args));
                    assert(decreases_to!(args@ => args@[i as int]));
                    assert(decreases_to!(args@[i as int] => args@[i as int].value));
                    let value = args[i].value.copy();
                    let arg = CallArg { name: copy_opt(&args[i].name), value };
                    assert(arg@ == args@[i as int]@);
                    out.push(arg);
                    i += 1;
                }
                let r = Expr::Call { callee: Box::new(callee.copy()), args: out };
                proof {
                    lemma_expr_call(self);
                    lemma_expr_call(&r);
                    assert(views(out@) =~= views(args@));
                }
                r
            },
            Expr::Member { target, member } => Expr::Member {
                target: Box::new(target.copy()),
                member: member.clone(),
            },
            Expr::Index { target, index } => Expr::Index {
                target: Box::new(target.copy()),
                index: Box::new(index.copy()),
            },
        }
    }
}

} // verus!
