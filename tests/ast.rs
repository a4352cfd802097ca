use std::rc::Rc;

use sflk::ast::{Chop, Expr, Node, Program, Stmt, TargetExpr};
use sflk::parser::{Loc, ReadingHead, SourceCodeUnit};
use sflk::program;

fn locs(text: &str) -> Vec<Loc> {
    let mut h = ReadingHead::from_scu(Rc::new(SourceCodeUnit::from_str(text, "t".to_string())));
    let mut out = Vec::new();
    loop {
        match h.read_cur_tok() {
            Ok((tok, loc)) => {
                let done = tok.is_void();
                out.push(loc);
                if done {
                    return out;
                }
            }
            Err(_) => panic!("lexing failed"),
        }
    }
}

fn loc() -> Loc {
    locs("x").remove(0)
}

fn node<T>(content: T) -> Node<T> {
    Node::from(content, loc())
}

fn var(name: &str) -> Node<Expr> {
    node(Expr::VariableName(name.to_string()))
}

fn lit(digits: &str) -> Node<Expr> {
    node(Expr::IntegerLiteral(digits.to_string()))
}

fn show_expr(e: &program::Expr) -> String {
    match e {
        program::Expr::Var { varname } => format!("var {}", varname),
        program::Expr::Const { val } => match val {
            program::Obj::Integer(n) => format!("int {}", n),
            program::Obj::String(s) => format!("str {:?}", s),
            program::Obj::Block(b) => format!("block [{}]", show_block(b)),
        },
        program::Expr::Chain { init_expr, chops } => {
            let parts: Vec<String> = chops.iter().map(show_chop).collect();
            format!("chain {} [{}]", show_expr(init_expr), parts.join(", "))
        }
    }
}

fn show_chop(c: &program::Chop) -> String {
    match c {
        program::Chop::Plus(e) => format!("plus {}", show_expr(e)),
        program::Chop::Minus(e) => format!("minus {}", show_expr(e)),
        program::Chop::Star(e) => format!("star {}", show_expr(e)),
        program::Chop::Slash(e) => format!("slash {}", show_expr(e)),
        program::Chop::ToRight(e) => format!("to_right {}", show_expr(e)),
    }
}

fn show_stmt(s: &program::Stmt) -> String {
    match s {
        program::Stmt::Nop => "nop".to_string(),
        program::Stmt::Print { expr } => format!("print {}", show_expr(expr)),
        program::Stmt::Newline => "newline".to_string(),
        program::Stmt::Assign { varname, expr } => format!("assign {} {}", varname, show_expr(expr)),
        program::Stmt::Evaluate { expr } => format!("evaluate {}", show_expr(expr)),
        program::Stmt::Do { expr } => format!("do {}", show_expr(expr)),
        program::Stmt::DoHere { expr } => format!("do_here {}", show_expr(expr)),
        program::Stmt::DoFileHere { expr } => format!("do_file_here {}", show_expr(expr)),
        program::Stmt::If { cond_expr, th_stmt, el_stmt } => format!(
            "if {} then {} else {}",
            show_expr(cond_expr),
            th_stmt.as_ref().map(|s| show_stmt(s)).unwrap_or_else(|| "none".to_string()),
            el_stmt.as_ref().map(|s| show_stmt(s)).unwrap_or_else(|| "none".to_string()),
        ),
        program::Stmt::Invalid => "invalid".to_string(),
    }
}

fn show_block(b: &program::Block) -> String {
    let parts: Vec<String> = b.stmts.iter().map(show_stmt).collect();
    parts.join("; ")
}

#[test]
fn one_invalid_statement_marks_only_the_program() {
    let good = Stmt::Print { expr: var("x") };
    let bad = Stmt::Invalid;
    let other = Stmt::Nop;
    assert!(!good.is_invalid());
    assert!(bad.is_invalid());
    assert!(!other.is_invalid());
    let p = Program { stmts: vec![node(good), node(bad), node(other)] };
    assert!(p.is_invalid());
    let q = Program { stmts: vec![node(Stmt::Newline), node(Stmt::Print { expr: var("y") })] };
    assert!(!q.is_invalid());
}

#[test]
fn invalidity_propagates_upwards() {
    let chain = Expr::Chain {
        init: Box::new(var("x")),
        chops: vec![node(Chop::Plus(lit("1"))), node(Chop::Minus(node(Expr::Invalid)))],
    };
    assert!(chain.is_invalid());
    let bad_chop = Chop::Star(node(Expr::Invalid));
    assert!(bad_chop.is_invalid());
    assert!(Chop::Invalid.is_invalid());
    assert!(!Chop::Slash(lit("2")).is_invalid());
    let block = Expr::BlockLiteral(vec![node(Stmt::Nop), node(Stmt::Invalid)]);
    assert!(block.is_invalid());
    let fine = Expr::BlockLiteral(vec![node(Stmt::Nop)]);
    assert!(!fine.is_invalid());
    let stmt = Stmt::If {
        cond_expr: var("c"),
        th_stmt: None,
        el_stmt: Some(Box::new(node(Stmt::Print { expr: node(Expr::Invalid) }))),
    };
    assert!(stmt.is_invalid());
    let assign = Stmt::Assign { target: node(TargetExpr::Invalid), expr: lit("3") };
    assert!(assign.is_invalid());
    assert!(TargetExpr::Invalid.is_invalid());
    assert!(!TargetExpr::VariableName("v".to_string()).is_invalid());
    assert!(Expr::Invalid.is_invalid());
    assert!(!Expr::StringLiteral("s".to_string()).is_invalid());
}

#[test]
fn lowers_integer_literal() {
    let e = Expr::IntegerLiteral("42".to_string());
    assert_eq!(show_expr(&e.to_machine_expr()), "int 42");
    let big = Expr::IntegerLiteral("9223372036854775807".to_string());
    assert_eq!(show_expr(&big.to_machine_expr()), "int 9223372036854775807");
    let zero = Expr::IntegerLiteral("007".to_string());
    assert_eq!(show_expr(&zero.to_machine_expr()), "int 7");
}

#[test]
fn lowers_string_literal() {
    let e = Expr::StringLiteral("hi".to_string());
    assert_eq!(show_expr(&e.to_machine_expr()), "str \"hi\"");
}

#[test]
fn lowers_chain() {
    let e = Expr::Chain { init: Box::new(var("x")), chops: vec![node(Chop::Plus(lit("1")))] };
    assert_eq!(show_expr(&e.to_machine_expr()), "chain var x [plus int 1]");
    let all = Expr::Chain {
        init: Box::new(lit("5")),
        chops: vec![
            node(Chop::Minus(lit("1"))),
            node(Chop::Star(lit("2"))),
            node(Chop::Slash(lit("3"))),
            node(Chop::ToRight(var("f"))),
        ],
    };
    assert_eq!(
        show_expr(&all.to_machine_expr()),
        "chain int 5 [minus int 1, star int 2, slash int 3, to_right var f]"
    );
}

#[test]
fn lowers_block_literal_and_statements() {
    let p = Program {
        stmts: vec![
            node(Stmt::Assign {
                target: node(TargetExpr::VariableName("a".to_string())),
                expr: node(Expr::BlockLiteral(vec![node(Stmt::Print { expr: var("a") }), node(Stmt::Newline)])),
            }),
            node(Stmt::Do { expr: var("a") }),
            node(Stmt::DoHere { expr: var("a") }),
            node(Stmt::DoFileHere { expr: node(Expr::StringLiteral("f".to_string())) }),
            node(Stmt::Evaluate { expr: lit("1") }),
            node(Stmt::If { cond_expr: lit("1"), th_stmt: Some(Box::new(node(Stmt::Nop))), el_stmt: None }),
        ],
    };
    assert!(!p.is_invalid());
    let b = p.to_machine_block();
    assert_eq!(
        show_block(&b),
        "assign a block [print var a; newline]; do var a; do_here var a; \
         do_file_here str \"f\"; evaluate int 1; if int 1 then nop else none"
    );
}

#[test]
fn lowering_twice_gives_equal_results() {
    let e = Expr::Chain {
        init: Box::new(node(Expr::BlockLiteral(vec![node(Stmt::Print { expr: lit("12") })]))),
        chops: vec![node(Chop::ToRight(var("y")))],
    };
    let first = e.to_machine_expr();
    let second = e.to_machine_expr();
    assert_eq!(show_expr(&first), show_expr(&second));
    let p = Program { stmts: vec![node(Stmt::Evaluate { expr: node(e) })] };
    assert_eq!(show_block(&p.to_machine_block()), show_block(&p.to_machine_block()));
}

#[test]
fn node_keeps_content_and_location() {
    let n = node(Expr::VariableName("v".to_string()));
    assert_eq!(n.loc().byte_start(), 0);
    assert_eq!(n.loc().byte_length(), 1);
    let m = n.map(|e| match e {
        Expr::VariableName(s) => s,
        _ => String::new(),
    });
    assert_eq!(m.loc().byte_length(), 1);
    assert_eq!(m.unwrap(), "v");
}

#[test]
fn node_add_loc_widens_span() {
    let mut spans = locs("ab  cd");
    let cd = spans.remove(1);
    let ab = spans.remove(0);
    let n = Node::from(Expr::VariableName("ab".to_string()), ab);
    let wide = n.add_loc(cd);
    assert_eq!(wide.loc().byte_start(), 0);
    assert_eq!(wide.loc().byte_length(), 6);
    assert_eq!(wide.loc().line_start(), 1);
}

#[test]
fn lowerability_checks_validity_and_literal_range() {
    let ok = Program { stmts: vec![node(Stmt::Print { expr: lit("9223372036854775807") })] };
    assert!(ok.is_lowerable());
    let too_big = Program { stmts: vec![node(Stmt::Print { expr: lit("9223372036854775808") })] };
    assert!(!too_big.is_invalid());
    assert!(!too_big.is_lowerable());
    let not_digits = Program { stmts: vec![node(Stmt::Evaluate { expr: lit("12a") })] };
    assert!(!not_digits.is_lowerable());
    let empty = Program { stmts: vec![node(Stmt::Evaluate { expr: lit("") })] };
    assert!(!empty.is_lowerable());
    let invalid = Program { stmts: vec![node(Stmt::Invalid)] };
    assert!(!invalid.is_lowerable());
    let nested = Expr::Chain {
        init: Box::new(var("x")),
        chops: vec![node(Chop::Plus(node(Expr::BlockLiteral(vec![node(Stmt::Print {
            expr: lit("99999999999999999999"),
        })]))))],
    };
    assert!(!nested.is_invalid());
    assert!(!nested.literals_in_range());
    assert!(Program { stmts: vec![] }.is_lowerable());
    assert_eq!(show_block(&Program { stmts: vec![] }.to_machine_block()), "");
}
