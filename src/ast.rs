//! The located, error-tolerant syntax tree, its validity query and its
//! lowering to the program representation.
use vstd::prelude::*;
use crate::parser::{Loc, LocView, merge_view, chars_of};
use crate::program;
use crate::program::{StmtV, ExprV, ChopV, ObjV, view_stmts, view_chops};
use crate::text::{is_digit, ascii_digit};

verus! {

broadcast use vstd::std_specs::vec::group_vec_axioms, vstd::seq::group_seq_axioms;

/// A non-fatal anomaly that the grammar noticed at some span.
pub struct ParsingWarning {
    pub message: String,
    pub loc: Loc,
}

struct Comments {
    left_comments: Vec<String>,
    right_comments: Vec<String>,
    internal_comments: Vec<String>,
}

impl Comments {
    fn new() -> (r: Comments)
        ensures
            r.left_comments@.len() == 0,
            r.right_comments@.len() == 0,
            r.internal_comments@.len() == 0,
    {
        Comments {
            left_comments: Vec::new(),
            right_comments: Vec::new(),
            internal_comments: Vec::new(),
        }
    }
}

/// A syntactic construct with its span, its comments and its warnings.
pub struct Node<T> {
    content: T,
    loc: Loc,
    comments: Comments,
    warnings: Vec<ParsingWarning>,
}

pub struct Program {
    pub stmts: Vec<Node<Stmt>>,
}

pub enum Stmt {
    Nop,
    Print { expr: Node<Expr> },
    Newline,
    Assign { target: Node<TargetExpr>, expr: Node<Expr> },
    Evaluate { expr: Node<Expr> },
    Do { expr: Node<Expr> },
    DoHere { expr: Node<Expr> },
    DoFileHere { expr: Node<Expr> },
    If {
        cond_expr: Node<Expr>,
        th_stmt: Option<Box<Node<Stmt>>>,
        el_stmt: Option<Box<Node<Stmt>>>,
    },
    Invalid,
}

pub enum TargetExpr {
    VariableName(String),
    Invalid,
}

pub enum Expr {
    VariableName(String),
    IntegerLiteral(String),
    StringLiteral(String),
    BlockLiteral(Vec<Node<Stmt>>),
    Chain { init: Box<Node<Expr>>, chops: Vec<Node<Chop>> },
    Invalid,
}

pub enum Chop {
    Plus(Node<Expr>),
    Minus(Node<Expr>),
    Star(Node<Expr>),
    Slash(Node<Expr>),
    ToRight(Node<Expr>),
    Invalid,
}

impl Stmt {
    pub closed spec fn invalid(&self) -> bool
        decreases self,
    {
        match self {
            Stmt::Nop => false,
            Stmt::Print { expr } => expr.content.invalid(),
            Stmt::Newline => false,
            Stmt::Assign { target, expr } => target.content.invalid() || expr.content.invalid(),
            Stmt::Evaluate { expr } => expr.content.invalid(),
            Stmt::Do { expr } => expr.content.invalid(),
            Stmt::DoHere { expr } => expr.content.invalid(),
            Stmt::DoFileHere { expr } => expr.content.invalid(),
            Stmt::If { cond_expr, th_stmt, el_stmt } => cond_expr.content.invalid() || match th_stmt {
                Some(s) => s.content.invalid(),
                None => false,
            } || match el_stmt {
                Some(s) => s.content.invalid(),
                None => false,
            },
            Stmt::Invalid => true,
        }
    }
}

impl TargetExpr {
    pub closed spec fn invalid(&self) -> bool {
        self is Invalid
    }
}

impl Expr {
    pub closed spec fn invalid(&self) -> bool
        decreases self,
    {
        match self {
            Expr::BlockLiteral(stmts) => exists|i: int|
                0 <= i < stmts@.len() && (#[trigger] stmts@[i]).content.invalid(),
            Expr::Chain { init, chops } => init.content.invalid() || exists|i: int|
                0 <= i < chops@.len() && (#[trigger] chops@[i]).content.invalid(),
            Expr::Invalid => true,
            _ => false,
        }
    }
}

impl Chop {
    pub closed spec fn invalid(&self) -> bool
        decreases self,
    {
        match self {
            Chop::Plus(e) => e.content.invalid(),
            Chop::Minus(e) => e.content.invalid(),
            Chop::Star(e) => e.content.invalid(),
            Chop::Slash(e) => e.content.invalid(),
            Chop::ToRight(e) => e.content.invalid(),
            Chop::Invalid => true,
        }
    }
}

/// Whether `d` is a non-empty run of decimal digits.
pub open spec fn is_decimal(d: Seq<char>) -> bool {
    d.len() > 0 && forall|i: int| 0 <= i < d.len() ==> is_digit(#[trigger] d[i])
}

/// The number that the decimal digits `d` denote.
pub open spec fn decimal_value(d: Seq<char>) -> int
    decreases d.len(),
{
    if d.len() == 0 {
        0
    } else {
        decimal_value(d.drop_last()) * 10 + (d.last() as int - '0' as int)
    }
}

/// Whether an integer literal written `d` can be lowered.
pub open spec fn literal_fits(d: Seq<char>) -> bool {
    is_decimal(d) && decimal_value(d) <= i64::MAX
}

proof fn lemma_decimal_nonneg(d: Seq<char>, i: int)
    requires
        is_decimal(d),
        0 <= i <= d.len(),
    ensures
        0 <= decimal_value(d.subrange(0, i)),
    decreases i,
{
    if i > 0 {
        lemma_decimal_nonneg(d, i - 1);
        assert(d.subrange(0, i).drop_last() =~= d.subrange(0, i - 1));
        assert(is_digit(d[i - 1]));
    }
}

proof fn lemma_decimal_prefix(d: Seq<char>, i: int)
    requires
        is_decimal(d),
        0 <= i <= d.len(),
    ensures
        0 <= decimal_value(d.subrange(0, i)) <= decimal_value(d),
    decreases d.len() - i,
{
    lemma_decimal_nonneg(d, i);
    if i < d.len() {
        lemma_decimal_prefix(d, i + 1);
        assert(d.subrange(0, i + 1).drop_last() =~= d.subrange(0, i));
        assert(is_digit(d[i]));
    } else {
        assert(d.subrange(0, i) =~= d);
    }
}

/// The value of a decimal literal.
fn parse_decimal(d: &String) -> (r: i64)
    requires
        literal_fits(d@),
    ensures
        r == decimal_value(d@),
{
    let cs = chars_of(d.as_str());
    let mut v: i64 = 0;
    let mut i: usize = 0;
    proof {
        assert(cs@.subrange(0, 0) =~= Seq::<char>::empty());
    }
    while i < cs.len()
        invariant
            cs@ == d@,
            literal_fits(d@),
            i <= cs@.len(),
            v == decimal_value(cs@.subrange(0, i as int)),
        decreases cs.len() - i,
    {
        let c = cs[i];
        proof {
            lemma_decimal_prefix(cs@, i + 1);
            assert(cs@.subrange(0, i + 1).drop_last() =~= cs@.subrange(0, i as int));
            assert(is_digit(cs@[i as int]));
        }
        v = v * 10 + (c as u32 - '0' as u32) as i64;
        i = i + 1;
    }
    proof {
        assert(cs@.subrange(0, i as int) =~= d@);
    }
    v
}

impl<T> Node<T> {
    pub closed spec fn inner(&self) -> T {
        self.content
    }

    pub closed spec fn loc_view(&self) -> LocView {
        self.loc@
    }

    /// The comments (leading, trailing, internal) and the warnings.
    pub closed spec fn annotations(&self) -> (Seq<String>, Seq<String>, Seq<String>, Seq<ParsingWarning>) {
        (
            self.comments.left_comments@,
            self.comments.right_comments@,
            self.comments.internal_comments@,
            self.warnings@,
        )
    }

    pub fn from(content: T, loc: Loc) -> (r: Node<T>)
        ensures
            r.inner() == content,
            r.loc_view() == loc@,
            r.annotations().0.len() == 0,
            r.annotations().1.len() == 0,
            r.annotations().2.len() == 0,
            r.annotations().3.len() == 0,
    {
        Node { content, loc, comments: Comments::new(), warnings: Vec::new() }
    }

    pub fn unwrap(self) -> (r: T)
        ensures
            r == self.inner(),
    {
        self.content
    }

    pub fn loc(&self) -> (r: &Loc)
        ensures
            r@ == self.loc_view(),
    {
        &self.loc
    }

    /// Widens the node's span to also cover `loc`.
    pub fn add_loc(self, loc: Loc) -> (r: Node<T>)
        requires
            loc@.source == self.loc_view().source,
        ensures
            r.loc_view() == merge_view(self.loc_view(), loc@),
            r.inner() == self.inner(),
            r.annotations() == self.annotations(),
    {
        let merged = self.loc.merge(&loc);
        Node { content: self.content, loc: merged, comments: self.comments, warnings: self.warnings }
    }

    /// Replaces the content by `func` of it, keeping span, comments and warnings.
    pub fn map<U, F: FnOnce(T) -> U>(self, func: F) -> (r: Node<U>)
        requires
            func.requires((self.inner(),)),
        ensures
            func.ensures((self.inner(),), r.inner()),
            r.loc_view() == self.loc_view(),
            r.annotations() == self.annotations(),
    {
        Node {
            content: func(self.content),
            loc: self.loc,
            comments: self.comments,
            warnings: self.warnings,
        }
    }
}

/// What a sequence of statement nodes lowers to, in order.
pub closed spec fn lowered_stmts(stmts: Seq<Node<Stmt>>) -> Seq<StmtV>
    decreases stmts,
{
    if stmts.len() == 0 {
        Seq::empty()
    } else {
        lowered_stmts(stmts.subrange(0, stmts.len() - 1)).push(
            stmts[stmts.len() - 1].content.lowered(),
        )
    }
}

/// What a sequence of chop nodes lowers to, in order.
pub closed spec fn lowered_chops(chops: Seq<Node<Chop>>) -> Seq<ChopV>
    decreases chops,
{
    if chops.len() == 0 {
        Seq::empty()
    } else {
        lowered_chops(chops.subrange(0, chops.len() - 1)).push(
            chops[chops.len() - 1].content.lowered(),
        )
    }
}

impl Stmt {
    /// Whether every integer literal below this statement can be lowered.
    pub closed spec fn literals_fit(&self) -> bool
        decreases self,
    {
        match self {
            Stmt::Print { expr } => expr.content.literals_fit(),
            Stmt::Assign { expr, .. } => expr.content.literals_fit(),
            Stmt::Evaluate { expr } => expr.content.literals_fit(),
            Stmt::Do { expr } => expr.content.literals_fit(),
            Stmt::DoHere { expr } => expr.content.literals_fit(),
            Stmt::DoFileHere { expr } => expr.content.literals_fit(),
            Stmt::If { cond_expr, th_stmt, el_stmt } => cond_expr.content.literals_fit() && match th_stmt {
                Some(s) => s.content.literals_fit(),
                None => true,
            } && match el_stmt {
                Some(s) => s.content.literals_fit(),
                None => true,
            },
            _ => true,
        }
    }

    pub open spec fn lowerable(&self) -> bool {
        !self.invalid() && self.literals_fit()
    }

    /// The program statement that this statement lowers to.
    pub closed spec fn lowered(&self) -> StmtV
        decreases self,
    {
        match self {
            Stmt::Nop => StmtV::Nop,
            Stmt::Print { expr } => StmtV::Print(expr.content.lowered()),
            Stmt::Newline => StmtV::Newline,
            Stmt::Assign { target, expr } => StmtV::Assign(
                match target.content {
                    TargetExpr::VariableName(n) => n@,
                    TargetExpr::Invalid => Seq::empty(),
                },
                expr.content.lowered(),
            ),
            Stmt::Evaluate { expr } => StmtV::Evaluate(expr.content.lowered()),
            Stmt::Do { expr } => StmtV::Do(expr.content.lowered()),
            Stmt::DoHere { expr } => StmtV::DoHere(expr.content.lowered()),
            Stmt::DoFileHere { expr } => StmtV::DoFileHere(expr.content.lowered()),
            Stmt::If { cond_expr, th_stmt, el_stmt } => StmtV::If(
                cond_expr.content.lowered(),
                match th_stmt {
                    Some(s) => Some(Box::new(s.content.lowered())),
                    None => None,
                },
                match el_stmt {
                    Some(s) => Some(Box::new(s.content.lowered())),
                    None => None,
                },
            ),
            Stmt::Invalid => StmtV::Invalid,
        }
    }
}

impl Expr {
    /// Whether every integer literal in this expression can be lowered.
    pub closed spec fn literals_fit(&self) -> bool
        decreases self,
    {
        match self {
            Expr::IntegerLiteral(d) => literal_fits(d@),
            Expr::BlockLiteral(stmts) => forall|i: int|
                0 <= i < stmts@.len() ==> (#[trigger] stmts@[i]).content.literals_fit(),
            Expr::Chain { init, chops } => init.content.literals_fit() && forall|i: int|
                0 <= i < chops@.len() ==> (#[trigger] chops@[i]).content.literals_fit(),
            _ => true,
        }
    }

    pub open spec fn lowerable(&self) -> bool {
        !self.invalid() && self.literals_fit()
    }

    /// The program expression that this expression lowers to. An invalid
    /// expression is never lowered; the value given for it is arbitrary.
    pub closed spec fn lowered(&self) -> ExprV
        decreases self,
    {
        match self {
            Expr::VariableName(n) => ExprV::Var(n@),
            Expr::IntegerLiteral(d) => ExprV::Const(ObjV::Integer(decimal_value(d@))),
            Expr::StringLiteral(t) => ExprV::Const(ObjV::Str(t@)),
            Expr::BlockLiteral(stmts) => ExprV::Const(ObjV::Block(lowered_stmts(stmts@))),
            Expr::Chain { init, chops } => ExprV::Chain(
                Box::new(init.content.lowered()),
                lowered_chops(chops@),
            ),
            Expr::Invalid => ExprV::Var(Seq::empty()),
        }
    }
}

impl Chop {
    pub closed spec fn literals_fit(&self) -> bool
        decreases self,
    {
        match self {
            Chop::Plus(e) => e.content.literals_fit(),
            Chop::Minus(e) => e.content.literals_fit(),
            Chop::Star(e) => e.content.literals_fit(),
            Chop::Slash(e) => e.content.literals_fit(),
            Chop::ToRight(e) => e.content.literals_fit(),
            Chop::Invalid => true,
        }
    }

    pub open spec fn lowerable(&self) -> bool {
        !self.invalid() && self.literals_fit()
    }

    /// The program chop that this chop lowers to, with the same operation.
    pub closed spec fn lowered(&self) -> ChopV
        decreases self,
    {
        match self {
            Chop::Plus(e) => ChopV::Plus(e.content.lowered()),
            Chop::Minus(e) => ChopV::Minus(e.content.lowered()),
            Chop::Star(e) => ChopV::Star(e.content.lowered()),
            Chop::Slash(e) => ChopV::Slash(e.content.lowered()),
            Chop::ToRight(e) => ChopV::ToRight(e.content.lowered()),
            Chop::Invalid => ChopV::Plus(ExprV::Var(Seq::empty())),
        }
    }
}

impl Program {
    pub closed spec fn invalid(&self) -> bool {
        exists|i: int| 0 <= i < self.stmts@.len() && #[trigger] self.stmts@[i].content.invalid()
    }

    pub closed spec fn lowerable(&self) -> bool {
        forall|i: int| 0 <= i < self.stmts@.len() ==> #[trigger] self.stmts@[i].content.lowerable()
    }

    pub closed spec fn lowered(&self) -> Seq<StmtV> {
        lowered_stmts(self.stmts@)
    }
}

impl Program {
    /// Whether some statement of the program holds an unrecovered parse error.
    pub fn is_invalid(&self) -> (r: bool)
        ensures
            r == self.invalid(),
    {
        let mut i: usize = 0;
        while i < self.stmts.len()
            invariant
                i <= self.stmts@.len(),
                forall|k: int| 0 <= k < i ==> !(#[trigger] self.stmts@[k].content.invalid()),
            decreases self.stmts.len() - i,
        {
            if self.stmts[i].content.is_invalid() {
                return true;
            }
            i = i + 1;
        }
        false
    }

    /// Lowers the whole program to a block of program statements.
    pub fn to_machine_block(&self) -> (r: program::Block)
        requires
            self.lowerable(),
        ensures
            r@ == self.lowered(),
    {
        program::Block { stmts: lower_stmts(&self.stmts) }
    }
}

/// Lowers each statement node, in order.
fn lower_stmts(stmts: &Vec<Node<Stmt>>) -> (r: Vec<program::Stmt>)
    requires
        forall|i: int| 0 <= i < stmts@.len() ==> #[trigger] stmts@[i].content.lowerable(),
    ensures
        view_stmts(r@) == lowered_stmts(stmts@),
    decreases stmts,
{
    let mut out: Vec<program::Stmt> = Vec::new();
    let mut i: usize = 0;
    proof {
        assert(stmts@.subrange(0, 0) =~= Seq::<Node<Stmt>>::empty());
    }
    while i < stmts.len()
        invariant
            i <= stmts@.len(),
            out@.len() == i,
            forall|k: int| 0 <= k < stmts@.len() ==> #[trigger] stmts@[k].content.lowerable(),
            view_stmts(out@) == lowered_stmts(stmts@.subrange(0, i as int)),
        decreases stmts.len() - i,
    {
        let ghost before = out@;
        let s = stmts[i].content.to_machine_stmt();
        out.push(s);
        proof {
            assert(out@.subrange(0, out@.len() - 1) =~= before);
            assert(stmts@.subrange(0, i + 1).subrange(0, i as int) =~= stmts@.subrange(0, i as int));
        }
        i = i + 1;
    }
    proof {
        assert(stmts@.subrange(0, i as int) =~= stmts@);
    }
    out
}

impl Stmt {
    /// Whether this statement, or something it owns, is invalid.
    pub fn is_invalid(&self) -> (r: bool)
        ensures
            r == self.invalid(),
        decreases self,
    {
        match self {
            Stmt::Nop => false,
            Stmt::Print { expr } => expr.content.is_invalid(),
            Stmt::Newline => false,
            Stmt::Assign { target, expr } => target.content.is_invalid()
                || expr.content.is_invalid(),
            Stmt::Evaluate { expr } => expr.content.is_invalid(),
            Stmt::Do { expr } => expr.content.is_invalid(),
            Stmt::DoHere { expr } => expr.content.is_invalid(),
            Stmt::DoFileHere { expr } => expr.content.is_invalid(),
            Stmt::If { cond_expr, th_stmt, el_stmt } => {
                if cond_expr.content.is_invalid() {
                    return true;
                }
                let th_invalid = match th_stmt {
                    Some(stmt) => stmt.content.is_invalid(),
                    None => false,
                };
                if th_invalid {
                    return true;
                }
                match el_stmt {
                    Some(stmt) => stmt.content.is_invalid(),
                    None => false,
                }
            },
            Stmt::Invalid => true,
        }
    }

    /// Lowers this statement to its program counterpart.
    pub fn to_machine_stmt(&self) -> (r: program::Stmt)
        requires
            self.lowerable(),
        ensures
            r@ == self.lowered(),
        decreases self,
    {
        match self {
            Stmt::Nop => program::Stmt::Nop,
            Stmt::Print { expr } => program::Stmt::Print { expr: expr.content.to_machine_expr() },
            Stmt::Newline => program::Stmt::Newline,
            Stmt::Assign { target, expr } => {
                let varname = match &target.content {
                    TargetExpr::VariableName(varname) => varname.clone(),
                    TargetExpr::Invalid => String::new(),
                };
                program::Stmt::Assign { varname, expr: expr.content.to_machine_expr() }
            },
            Stmt::Evaluate { expr } => program::Stmt::Evaluate {
                expr: expr.content.to_machine_expr(),
            },
            Stmt::Do { expr } => program::Stmt::Do { expr: expr.content.to_machine_expr() },
            Stmt::DoHere { expr } => program::Stmt::DoHere { expr: expr.content.to_machine_expr() },
            Stmt::DoFileHere { expr } => program::Stmt::DoFileHere {
                expr: expr.content.to_machine_expr(),
            },
            Stmt::If { cond_expr, th_stmt, el_stmt } => {
                let cond_expr = cond_expr.content.to_machine_expr();
                let th_stmt = match th_stmt {
                    Some(stmt) => Some(Box::new(stmt.content.to_machine_stmt())),
                    None => None,
                };
                let el_stmt = match el_stmt {
                    Some(stmt) => Some(Box::new(stmt.content.to_machine_stmt())),
                    None => None,
                };
                program::Stmt::If { cond_expr, th_stmt, el_stmt }
            },
            Stmt::Invalid => program::Stmt::Invalid,
        }
    }
}

impl TargetExpr {
    pub fn is_invalid(&self) -> (r: bool)
        ensures
            r == self.invalid(),
    {
        match self {
            TargetExpr::VariableName(_) => false,
            TargetExpr::Invalid => true,
        }
    }
}

impl Expr {
    /// Whether this expression, or something it owns, is invalid.
    #[verifier::loop_isolation(false)]
    pub fn is_invalid(&self) -> (r: bool)
        ensures
            r == self.invalid(),
        decreases self,
    {
        match self {
            Expr::BlockLiteral(stmts) => {
                let mut i: usize = 0;
                while i < stmts.len()
                    invariant
                        i <= stmts@.len(),
                        forall|k: int| 0 <= k < i ==> !(#[trigger] stmts@[k]).content.invalid(),
                    decreases stmts.len() - i,
                {
                    if stmts[i].content.is_invalid() {
                        return true;
                    }
                    i = i + 1;
                }
                false
            },
            Expr::Chain { init, chops } => {
                if init.content.is_invalid() {
                    return true;
                }
                let mut i: usize = 0;
                while i < chops.len()
                    invariant
                        i <= chops@.len(),
                        !init.content.invalid(),
                        forall|k: int| 0 <= k < i ==> !(#[trigger] chops@[k]).content.invalid(),
                    decreases chops.len() - i,
                {
                    if chops[i].content.is_invalid() {
                        return true;
                    }
                    i = i + 1;
                }
                false
            },
            Expr::Invalid => true,
            _ => false,
        }
    }

    /// Lowers this expression to its program counterpart.
    pub fn to_machine_expr(&self) -> (r: program::Expr)
        requires
            self.lowerable(),
        ensures
            r@ == self.lowered(),
        decreases self,
    {
        match self {
            Expr::VariableName(varname) => program::Expr::Var { varname: varname.clone() },
            Expr::IntegerLiteral(integer_string) => program::Expr::Const {
                val: program::Obj::Integer(parse_decimal(integer_string)),
            },
            Expr::StringLiteral(string_string) => program::Expr::Const {
                val: program::Obj::String(string_string.clone()),
            },
            Expr::BlockLiteral(stmts) => {
                assert forall|i: int| 0 <= i < stmts@.len() implies #[trigger] stmts@[
                    i
                ].content.lowerable() by {
                    assert(stmts@[i].content.literals_fit());
                }
                program::Expr::Const {
                    val: program::Obj::Block(program::Block { stmts: lower_stmts(stmts) }),
                }
            },
            Expr::Chain { init, chops } => {
                assert forall|i: int| 0 <= i < chops@.len() implies #[trigger] chops@[
                    i
                ].content.lowerable() by {
                    assert(chops@[i].content.literals_fit());
                }
                let init_expr = Box::new(init.content.to_machine_expr());
                let chops = lower_chops(chops);
                program::Expr::Chain { init_expr, chops }
            },
            Expr::Invalid => program::Expr::Var { varname: String::new() },
        }
    }
}

/// Lowers each chop node, in order.
fn lower_chops(chops: &Vec<Node<Chop>>) -> (r: Vec<program::Chop>)
    requires
        forall|i: int| 0 <= i < chops@.len() ==> #[trigger] chops@[i].content.lowerable(),
    ensures
        view_chops(r@) == lowered_chops(chops@),
    decreases chops,
{
    let mut out: Vec<program::Chop> = Vec::new();
    let mut i: usize = 0;
    proof {
        assert(chops@.subrange(0, 0) =~= Seq::<Node<Chop>>::empty());
    }
    while i < chops.len()
        invariant
            i <= chops@.len(),
            out@.len() == i,
            forall|k: int| 0 <= k < chops@.len() ==> #[trigger] chops@[k].content.lowerable(),
            view_chops(out@) == lowered_chops(chops@.subrange(0, i as int)),
        decreases chops.len() - i,
    {
        let ghost before = out@;
        let c = chops[i].content.to_machine_chop();
        out.push(c);
        proof {
            assert(out@.subrange(0, out@.len() - 1) =~= before);
            assert(chops@.subrange(0, i + 1).subrange(0, i as int) =~= chops@.subrange(0, i as int));
        }
        i = i + 1;
    }
    proof {
        assert(chops@.subrange(0, i as int) =~= chops@);
    }
    out
}

impl Chop {
    /// Whether this chop, or its operand, is invalid.
    pub fn is_invalid(&self) -> (r: bool)
        ensures
            r == self.invalid(),
        decreases self,
    {
        match self {
            Chop::Plus(expr) => expr.content.is_invalid(),
            Chop::Minus(expr) => expr.content.is_invalid(),
            Chop::Star(expr) => expr.content.is_invalid(),
            Chop::Slash(expr) => expr.content.is_invalid(),
            Chop::ToRight(expr) => expr.content.is_invalid(),
            Chop::Invalid => true,
        }
    }

    /// Lowers this chop to the program chop of the same operation.
    pub fn to_machine_chop(&self) -> (r: program::Chop)
        requires
            self.lowerable(),
        ensures
            r@ == self.lowered(),
        decreases self,
    {
        match self {
            Chop::Plus(expr) => program::Chop::Plus(expr.content.to_machine_expr()),
            Chop::Minus(expr) => program::Chop::Minus(expr.content.to_machine_expr()),
            Chop::Star(expr) => program::Chop::Star(expr.content.to_machine_expr()),
            Chop::Slash(expr) => program::Chop::Slash(expr.content.to_machine_expr()),
            Chop::ToRight(expr) => program::Chop::ToRight(expr.content.to_machine_expr()),
            Chop::Invalid => program::Chop::Plus(program::Expr::Var { varname: String::new() }),
        }
    }
}

/// An expression is invalid exactly when it is the `Invalid` variant or
/// something it owns is invalid; siblings play no part.
pub proof fn lemma_expr_invalid_structure(e: &Expr)
    ensures
        e.invalid() <==> match e {
            Expr::Invalid => true,
            Expr::BlockLiteral(stmts) => exists|i: int|
                0 <= i < stmts@.len() && (#[trigger] stmts@[i]).inner().invalid(),
            Expr::Chain { init, chops } => init.inner().invalid() || exists|i: int|
                0 <= i < chops@.len() && (#[trigger] chops@[i]).inner().invalid(),
            _ => false,
        },
{
}

/// A statement is invalid exactly when it is the `Invalid` variant or
/// something it owns is invalid.
pub proof fn lemma_stmt_invalid_structure(s: &Stmt)
    ensures
        s.invalid() <==> match s {
            Stmt::Invalid => true,
            Stmt::Nop | Stmt::Newline => false,
            Stmt::Print { expr } => expr.inner().invalid(),
            Stmt::Assign { target, expr } => target.inner().invalid() || expr.inner().invalid(),
            Stmt::Evaluate { expr } => expr.inner().invalid(),
            Stmt::Do { expr } => expr.inner().invalid(),
            Stmt::DoHere { expr } => expr.inner().invalid(),
            Stmt::DoFileHere { expr } => expr.inner().invalid(),
            Stmt::If { cond_expr, th_stmt, el_stmt } => cond_expr.inner().invalid() || (
            th_stmt is Some && th_stmt->0.inner().invalid()) || (el_stmt is Some
                && el_stmt->0.inner().invalid()),
        },
{
}

/// A chop is invalid exactly when it is the `Invalid` variant or its
/// operand is invalid.
pub proof fn lemma_chop_invalid_structure(c: &Chop)
    ensures
        c.invalid() <==> match c {
            Chop::Invalid => true,
            Chop::Plus(e) => e.inner().invalid(),
            Chop::Minus(e) => e.inner().invalid(),
            Chop::Star(e) => e.inner().invalid(),
            Chop::Slash(e) => e.inner().invalid(),
            Chop::ToRight(e) => e.inner().invalid(),
        },
{
}

/// A target is invalid exactly when it is the `Invalid` variant.
pub proof fn lemma_target_invalid_structure(t: &TargetExpr)
    ensures
        t.invalid() <==> t is Invalid,
{
}

/// A program is invalid exactly when one of its statements is; the
/// validity of each statement is its own.
pub proof fn lemma_program_invalid_structure(p: &Program)
    ensures
        p.invalid() <==> exists|i: int|
            0 <= i < p.stmts@.len() && (#[trigger] p.stmts@[i]).inner().invalid(),
{
    if p.invalid() {
        let i = choose|i: int| 0 <= i < p.stmts@.len() && #[trigger] p.stmts@[i].content.invalid();
        assert(p.stmts@[i].inner().invalid());
    }
}

/// Lowering an expression twice gives structurally equal results.
pub proof fn lemma_expr_lowering_repeatable(e: &Expr, r1: &program::Expr, r2: &program::Expr)
    requires
        e.lowerable(),
        r1@ == e.lowered(),
        r2@ == e.lowered(),
    ensures
        r1@ == r2@,
{
}

/// Lowering a program twice gives structurally equal blocks.
pub proof fn lemma_program_lowering_repeatable(
    p: &Program,
    b1: &program::Block,
    b2: &program::Block,
)
    requires
        p.lowerable(),
        b1@ == p.lowered(),
        b2@ == p.lowered(),
    ensures
        b1@ == b2@,
{
}

/// Whether `d` is an integer literal that lowering accepts.
fn literal_in_range(d: &String) -> (r: bool)
    ensures
        r == literal_fits(d@),
{
    let cs = chars_of(d.as_str());
    if cs.len() == 0 {
        return false;
    }
    let mut v: i64 = 0;
    let mut i: usize = 0;
    proof {
        assert(cs@.subrange(0, 0) =~= Seq::<char>::empty());
    }
    while i < cs.len()
        invariant
            cs@ == d@,
            cs@.len() > 0,
            i <= cs@.len(),
            v == decimal_value(cs@.subrange(0, i as int)),
            forall|k: int| 0 <= k < i ==> is_digit(#[trigger] cs@[k]),
        decreases cs.len() - i,
    {
        let c = cs[i];
        if !ascii_digit(c) {
            return false;
        }
        let digit = (c as u32 - '0' as u32) as i64;
        proof {
            assert(cs@.subrange(0, i + 1).drop_last() =~= cs@.subrange(0, i as int));
            lemma_decimal_nonneg(cs@.subrange(0, i as int + 1), i as int);
            assert(cs@.subrange(0, i + 1).subrange(0, i as int) =~= cs@.subrange(0, i as int));
        }
        if v > (i64::MAX - digit) / 10 {
            proof {
                assert(v * 10 + digit > i64::MAX) by (nonlinear_arith)
                    requires
                        v > (i64::MAX - digit) / 10,
                        0 <= digit <= 9,
                ;
                if is_decimal(d@) {
                    lemma_decimal_prefix(d@, i + 1);
                }
            }
            return false;
        }
        proof {
            assert(v * 10 + digit <= i64::MAX) by (nonlinear_arith)
                requires
                    v <= (i64::MAX - digit) / 10,
                    0 <= digit <= 9,
                    v >= 0,
            ;
        }
        v = v * 10 + digit;
        i = i + 1;
    }
    proof {
        assert(cs@.subrange(0, i as int) =~= d@);
    }
    true
}

impl Program {
    /// Whether the program can be lowered: no statement is invalid and every
    /// integer literal fits the program's integers.
    pub fn is_lowerable(&self) -> (r: bool)
        ensures
            r == self.lowerable(),
    {
        let mut i: usize = 0;
        while i < self.stmts.len()
            invariant
                i <= self.stmts@.len(),
                forall|k: int| 0 <= k < i ==> #[trigger] self.stmts@[k].content.lowerable(),
            decreases self.stmts.len() - i,
        {
            let s = &self.stmts[i].content;
            if s.is_invalid() || !s.literals_in_range() {
                assert(!self.stmts@[i as int].content.lowerable());
                return false;
            }
            i = i + 1;
        }
        true
    }
}

impl Stmt {
    /// Whether every integer literal below this statement can be lowered.
    pub fn literals_in_range(&self) -> (r: bool)
        ensures
            r == self.literals_fit(),
        decreases self,
    {
        match self {
            Stmt::Print { expr } => expr.content.literals_in_range(),
            Stmt::Assign { expr, .. } => expr.content.literals_in_range(),
            Stmt::Evaluate { expr } => expr.content.literals_in_range(),
            Stmt::Do { expr } => expr.content.literals_in_range(),
            Stmt::DoHere { expr } => expr.content.literals_in_range(),
            Stmt::DoFileHere { expr } => expr.content.literals_in_range(),
            Stmt::If { cond_expr, th_stmt, el_stmt } => {
                if !cond_expr.content.literals_in_range() {
                    return false;
                }
                let th_fits = match th_stmt {
                    Some(stmt) => stmt.content.literals_in_range(),
                    None => true,
                };
                if !th_fits {
                    return false;
                }
                match el_stmt {
                    Some(stmt) => stmt.content.literals_in_range(),
                    None => true,
                }
            },
            _ => true,
        }
    }
}

impl Expr {
    /// Whether every integer literal in this expression can be lowered.
    #[verifier::loop_isolation(false)]
    pub fn literals_in_range(&self) -> (r: bool)
        ensures
            r == self.literals_fit(),
        decreases self,
    {
        match self {
            Expr::IntegerLiteral(d) => literal_in_range(d),
            Expr::BlockLiteral(stmts) => {
                let mut i: usize = 0;
                while i < stmts.len()
                    invariant
                        i <= stmts@.len(),
                        forall|k: int| 0 <= k < i ==> (#[trigger] stmts@[k]).content.literals_fit(),
                    decreases stmts.len() - i,
                {
                    if !stmts[i].content.literals_in_range() {
                        return false;
                    }
                    i = i + 1;
                }
                true
            },
            Expr::Chain { init, chops } => {
                if !init.content.literals_in_range() {
                    return false;
                }
                let mut i: usize = 0;
                while i < chops.len()
                    invariant
                        i <= chops@.len(),
                        init.content.literals_fit(),
                        forall|k: int| 0 <= k < i ==> (#[trigger] chops@[k]).content.literals_fit(),
                    decreases chops.len() - i,
                {
                    if !chops[i].content.literals_in_range() {
                        return false;
                    }
                    i = i + 1;
                }
                true
            },
            _ => true,
        }
    }
}

impl Chop {
    /// Whether every integer literal in the operand can be lowered.
    pub fn literals_in_range(&self) -> (r: bool)
        ensures
            r == self.literals_fit(),
        decreases self,
    {
        match self {
            Chop::Plus(e) => e.content.literals_in_range(),
            Chop::Minus(e) => e.content.literals_in_range(),
            Chop::Star(e) => e.content.literals_in_range(),
            Chop::Slash(e) => e.content.literals_in_range(),
            Chop::ToRight(e) => e.content.literals_in_range(),
            Chop::Invalid => true,
        }
    }
}

} // verus!
