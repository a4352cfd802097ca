//! The flat program representation that lowering produces and an
//! execution engine consumes. Plain data, with no behaviour of its own.
use vstd::prelude::*;

verus! {

broadcast use vstd::std_specs::vec::group_vec_axioms, vstd::seq::group_seq_axioms;

pub struct Block {
    pub stmts: Vec<Stmt>,
}

pub enum Stmt {
    Nop,
    Print { expr: Expr },
    Newline,
    Assign { varname: String, expr: Expr },
    Evaluate { expr: Expr },
    Do { expr: Expr },
    DoHere { expr: Expr },
    DoFileHere { expr: Expr },
    If { cond_expr: Expr, th_stmt: Option<Box<Stmt>>, el_stmt: Option<Box<Stmt>> },
    Invalid,
}

pub enum Expr {
    Var { varname: String },
    Const { val: Obj },
    Chain { init_expr: Box<Expr>, chops: Vec<Chop> },
}

pub enum Chop {
    Plus(Expr),
    Minus(Expr),
    Star(Expr),
    Slash(Expr),
    ToRight(Expr),
}

/// The values that constants denote.
pub enum Obj {
    Integer(i64),
    String(String),
    Block(Block),
}

pub enum ObjV {
    Integer(int),
    Str(Seq<char>),
    Block(Seq<StmtV>),
}

pub enum ExprV {
    Var(Seq<char>),
    Const(ObjV),
    Chain(Box<ExprV>, Seq<ChopV>),
}

pub enum ChopV {
    Plus(ExprV),
    Minus(ExprV),
    Star(ExprV),
    Slash(ExprV),
    ToRight(ExprV),
}

pub enum StmtV {
    Nop,
    Print(ExprV),
    Newline,
    Assign(Seq<char>, ExprV),
    Evaluate(ExprV),
    Do(ExprV),
    DoHere(ExprV),
    DoFileHere(ExprV),
    If(ExprV, Option<Box<StmtV>>, Option<Box<StmtV>>),
    Invalid,
}

/// Views of a sequence of statements, in order.
pub open spec fn view_stmts(stmts: Seq<Stmt>) -> Seq<StmtV>
    decreases stmts,
{
    if stmts.len() == 0 {
        Seq::empty()
    } else {
        view_stmts(stmts.subrange(0, stmts.len() - 1)).push(view_stmt(&stmts[stmts.len() - 1]))
    }
}

/// Views of a sequence of chops, in order.
pub open spec fn view_chops(chops: Seq<Chop>) -> Seq<ChopV>
    decreases chops,
{
    if chops.len() == 0 {
        Seq::empty()
    } else {
        view_chops(chops.subrange(0, chops.len() - 1)).push(view_chop(&chops[chops.len() - 1]))
    }
}

pub open spec fn view_stmt(s: &Stmt) -> StmtV
    decreases s,
{
    match s {
        Stmt::Nop => StmtV::Nop,
        Stmt::Print { expr } => StmtV::Print(view_expr(expr)),
        Stmt::Newline => StmtV::Newline,
        Stmt::Assign { varname, expr } => StmtV::Assign(varname@, view_expr(expr)),
        Stmt::Evaluate { expr } => StmtV::Evaluate(view_expr(expr)),
        Stmt::Do { expr } => StmtV::Do(view_expr(expr)),
        Stmt::DoHere { expr } => StmtV::DoHere(view_expr(expr)),
        Stmt::DoFileHere { expr } => StmtV::DoFileHere(view_expr(expr)),
        Stmt::If { cond_expr, th_stmt, el_stmt } => StmtV::If(
            view_expr(cond_expr),
            match th_stmt {
                Some(t) => Some(Box::new(view_stmt(t))),
                None => None,
            },
            match el_stmt {
                Some(e) => Some(Box::new(view_stmt(e))),
                None => None,
            },
        ),
        Stmt::Invalid => StmtV::Invalid,
    }
}

pub open spec fn view_expr(e: &Expr) -> ExprV
    decreases e,
{
    match e {
        Expr::Var { varname } => ExprV::Var(varname@),
        Expr::Const { val } => ExprV::Const(
            match val {
                Obj::Integer(n) => ObjV::Integer(*n as int),
                Obj::String(t) => ObjV::Str(t@),
                Obj::Block(b) => ObjV::Block(view_stmts(b.stmts@)),
            },
        ),
        Expr::Chain { init_expr, chops } => ExprV::Chain(
            Box::new(view_expr(init_expr)),
            view_chops(chops@),
        ),
    }
}

pub open spec fn view_chop(c: &Chop) -> ChopV
    decreases c,
{
    match c {
        Chop::Plus(e) => ChopV::Plus(view_expr(e)),
        Chop::Minus(e) => ChopV::Minus(view_expr(e)),
        Chop::Star(e) => ChopV::Star(view_expr(e)),
        Chop::Slash(e) => ChopV::Slash(view_expr(e)),
        Chop::ToRight(e) => ChopV::ToRight(view_expr(e)),
    }
}

impl View for Block {
    type V = Seq<StmtV>;

    open spec fn view(&self) -> Seq<StmtV> {
        view_stmts(self.stmts@)
    }
}

impl View for Stmt {
    type V = StmtV;

    open spec fn view(&self) -> StmtV {
        view_stmt(self)
    }
}

impl View for Expr {
    type V = ExprV;

    open spec fn view(&self) -> ExprV {
        view_expr(self)
    }
}

impl View for Chop {
    type V = ChopV;

    open spec fn view(&self) -> ChopV {
        view_chop(self)
    }
}

} // verus!
