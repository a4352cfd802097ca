use std::rc::Rc;

use sflk::parser::{Loc, ParsingError, ReadingHead, SourceCodeUnit, Tok};

fn head(text: &str) -> ReadingHead {
    ReadingHead::from_scu(Rc::new(SourceCodeUnit::from_str(text, "test".to_string())))
}

fn next(h: &mut ReadingHead) -> (Tok, Loc) {
    match h.read_cur_tok() {
        Ok(pair) => pair,
        Err(ParsingError::EofInComment { loc }) => {
            panic!("end of input in comment at line {}", loc.line_start())
        }
        Err(ParsingError::UnexpectedCharacter { ch, .. }) => panic!("unexpected {}", ch),
    }
}

fn span(loc: &Loc) -> (usize, usize, usize) {
    (loc.line_start(), loc.byte_start(), loc.byte_length())
}

#[test]
fn source_unit_appends_missing_newline() {
    let scu = SourceCodeUnit::from_str("a\nb", "t".to_string());
    assert_eq!(scu.content(), "a\nb\n");
    assert_eq!(scu.line_offsets(), &vec![0, 2, 4]);
}

#[test]
fn source_unit_keeps_final_newline() {
    let scu = SourceCodeUnit::from_str("x\n", "t".to_string());
    assert_eq!(scu.content(), "x\n");
    assert_eq!(scu.line_offsets(), &vec![0, 2]);
}

#[test]
fn source_unit_of_empty_text() {
    let scu = SourceCodeUnit::from_str("", "t".to_string());
    assert_eq!(scu.content(), "\n");
    assert_eq!(scu.line_offsets(), &vec![0, 1]);
}

#[test]
fn source_unit_offsets_count_bytes() {
    let scu = SourceCodeUnit::from_str("\u{e9}\n\u{20ac}x\n\n", "t".to_string());
    assert_eq!(scu.content(), "\u{e9}\n\u{20ac}x\n\n");
    assert_eq!(scu.line_offsets(), &vec![0, 3, 8, 9]);
    let newlines = scu.content().matches('\n').count();
    assert_eq!(scu.line_offsets().len(), 1 + newlines);
}

#[test]
fn word_then_integer() {
    let mut h = head("abc123");
    let (t1, l1) = next(&mut h);
    assert!(matches!(t1, Tok::Word(ref w) if w == "abc"));
    assert_eq!(span(&l1), (1, 0, 3));
    let (t2, l2) = next(&mut h);
    assert!(matches!(t2, Tok::Integer(ref n) if n == "123"));
    assert_eq!(span(&l2), (1, 3, 3));
    let (t3, l3) = next(&mut h);
    assert!(t3.is_void());
    assert_eq!(span(&l3), (2, 7, 0));
}

#[test]
fn closed_comment_is_skipped() {
    let mut h = head("# comment #\nx");
    let (t, l) = next(&mut h);
    assert!(matches!(t, Tok::Word(ref w) if w == "x"));
    assert_eq!(span(&l), (2, 12, 1));
}

#[test]
fn comment_without_closing_hash_runs_to_end() {
    let mut h = head("# comment\nx");
    match h.read_cur_tok() {
        Err(ParsingError::EofInComment { loc }) => assert_eq!(span(&loc), (1, 0, 1)),
        _ => panic!("expected an unterminated comment"),
    }
}

#[test]
fn unterminated_comment_fails() {
    let mut h = head("ab\n  #unterminated");
    let (t, _) = next(&mut h);
    assert!(matches!(t, Tok::Word(ref w) if w == "ab"));
    match h.read_cur_tok() {
        Err(ParsingError::EofInComment { loc }) => {
            assert_eq!(loc.line_start(), 2);
            assert_eq!(loc.byte_start(), 5);
        }
        _ => panic!("expected an unterminated comment"),
    }
}

#[test]
fn unterminated_comment_on_first_line() {
    let mut h = head("#unterminated");
    match h.read_cur_tok() {
        Err(ParsingError::EofInComment { loc }) => assert_eq!(loc.line_start(), 1),
        _ => panic!("expected an unterminated comment"),
    }
}

#[test]
fn hashes_toggle_comments() {
    let mut h = head("#a#b#c#d");
    let (t1, l1) = next(&mut h);
    assert!(matches!(t1, Tok::Word(ref w) if w == "b"));
    assert_eq!(span(&l1), (1, 3, 1));
    let (t2, _) = next(&mut h);
    assert!(matches!(t2, Tok::Word(ref w) if w == "d"));
}

#[test]
fn unexpected_character() {
    let mut h = head("@");
    match h.read_cur_tok() {
        Err(ParsingError::UnexpectedCharacter { ch, loc }) => {
            assert_eq!(ch, '@');
            assert_eq!(span(&loc), (1, 0, 1));
        }
        _ => panic!("expected an unexpected character"),
    }
}

#[test]
fn unexpected_multibyte_character() {
    let mut h = head(" \u{e9}");
    match h.read_cur_tok() {
        Err(ParsingError::UnexpectedCharacter { ch, loc }) => {
            assert_eq!(ch, '\u{e9}');
            assert_eq!(span(&loc), (1, 1, 2));
        }
        _ => panic!("expected an unexpected character"),
    }
}

#[test]
fn operators_and_brackets() {
    let mut h = head("+(x]\n  /");
    let (t1, l1) = next(&mut h);
    assert!(matches!(t1, Tok::BinOp(ref s) if s == "+"));
    assert_eq!(span(&l1), (1, 0, 1));
    let (t2, l2) = next(&mut h);
    assert!(matches!(t2, Tok::Left(ref s) if s == "("));
    assert_eq!(span(&l2), (1, 1, 1));
    let (t3, _) = next(&mut h);
    assert!(matches!(t3, Tok::Word(ref s) if s == "x"));
    let (t4, l4) = next(&mut h);
    assert!(matches!(t4, Tok::Right(ref s) if s == "]"));
    assert_eq!(span(&l4), (1, 3, 1));
    let (t5, l5) = next(&mut h);
    assert!(matches!(t5, Tok::BinOp(ref s) if s == "/"));
    assert_eq!(span(&l5), (2, 7, 1));
    let (t6, _) = next(&mut h);
    assert!(t6.is_void());
    assert!(!t5.is_void());
}

#[test]
fn void_repeats_at_end() {
    let mut h = head("   ");
    let (t1, _) = next(&mut h);
    assert!(t1.is_void());
    let (t2, _) = next(&mut h);
    assert!(t2.is_void());
}

#[test]
fn merge_covers_both_spans() {
    let mut h = head("ab\n  cd");
    let (_, a) = next(&mut h);
    let (_, b) = next(&mut h);
    let m = a.merge(&b);
    assert_eq!(span(&m), (1, 0, 7));
    let n = b.merge(&a);
    assert_eq!(span(&n), span(&m));
}

#[test]
fn merge_of_nested_spans() {
    let mut h = head("abc");
    let (_, a) = next(&mut h);
    let (_, end) = next(&mut h);
    let m = a.merge(&end);
    assert_eq!(span(&m), (1, 0, 4));
    let inner = m.merge(&a);
    assert_eq!(span(&inner), (1, 0, 4));
}

#[test]
fn error_messages_name_line_and_character() {
    let mut h = head("\n\n#open");
    match h.read_cur_tok() {
        Err(e) => {
            assert_eq!(e.message(), "end-of-file in comment started at line 3");
            assert_eq!(e.loc().line_start(), 3);
        }
        Ok(_) => panic!("expected an error"),
    }
    let mut h = head("x\n\n\n\n\n\n\n\n\n\n  ?");
    let _ = next(&mut h);
    match h.read_cur_tok() {
        Err(e) => {
            assert_eq!(e.message(), "unexpected character `?` at line 11");
            assert_eq!(e.loc().byte_start(), 13);
        }
        Ok(_) => panic!("expected an error"),
    }
}
