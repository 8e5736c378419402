use erl_parse::{
    Args, Atom, Clauses, ErrorKind, ExceptionClass, Export, Expect, Expr, LeftKind, List, Literal,
    ModuleAtom, Parse, Parser, Pattern, Position, RecordFieldDefault, RightKind, Sequence, Span,
    StackTrace, Token, TokenKind, TokenReader, WhenGuard,
};

/// Builds tokens as a lexer would, one space apart on line 1. Each entry
/// is a class, what is written, and what it denotes.
fn tokens(spec: &[(TokenKind, &str, &str)]) -> Vec<Token> {
    let mut offset = 0;
    let mut out = Vec::new();
    for (kind, text, value) in spec {
        let start = Position::new(offset, 1, offset + 1);
        let end_offset = offset + text.len();
        let end = Position::new(end_offset, 1, end_offset + 1);
        out.push(Token::new(*kind, text.to_string(), value.to_string(), start, end));
        offset = end_offset + 1;
    }
    out
}

fn sym(s: &str) -> (TokenKind, &str, &str) {
    (TokenKind::Symbol, s, s)
}

fn atom(s: &str) -> (TokenKind, &str, &str) {
    (TokenKind::Atom, s, s)
}

fn integer(s: &str) -> (TokenKind, &str, &str) {
    (TokenKind::Integer, s, s)
}

fn var(s: &str) -> (TokenKind, &str, &str) {
    (TokenKind::Variable, s, s)
}

fn kw(s: &str) -> (TokenKind, &str, &str) {
    (TokenKind::Keyword, s, s)
}

fn parser(spec: &[(TokenKind, &str, &str)]) -> Parser {
    Parser::from_tokens(tokens(spec))
}

fn remaining(p: &Parser) -> usize {
    p.reader().len()
}

fn integer_value(e: &Expr) -> String {
    match e {
        Expr::Literal(Literal::Integer(t)) => t.value.clone(),
        other => panic!("not an integer: {:?}", other),
    }
}

#[test]
fn list_of_three_integers_is_not_a_comprehension() {
    let mut p = parser(&[sym("["), integer("1"), sym(","), integer("2"), sym(","), integer("3"), sym("]")]);
    let e = Expr::parse(&mut p).unwrap();
    match e {
        Expr::List(l) => {
            assert_eq!(l.elements.len(), 3);
            let values: Vec<String> = l.elements.iter().map(|x| integer_value(&x.value)).collect();
            assert_eq!(values, vec!["1", "2", "3"]);
            assert!(l.elements[0].delimiter.is_some());
            assert!(l.elements[2].delimiter.is_none());
        },
        other => panic!("expected a list: {:?}", other),
    }
    assert!(p.eos());
}

#[test]
fn list_comprehension_is_recognised() {
    let mut p = parser(&[sym("["), var("X"), sym("||"), var("X"), sym("<-"), var("L"), sym("]")]);
    let e = Expr::parse(&mut p).unwrap();
    match e {
        Expr::ListComprehension(c) => {
            assert!(matches!(&c.element, Expr::Variable(t) if t.value == "X"));
            assert_eq!(c.bar.value, "||");
            assert_eq!(c.qualifiers.len(), 1);
            let g = &c.qualifiers[0].value;
            assert!(matches!(&g.left, Expr::Variable(t) if t.value == "X"));
            assert_eq!(g.op.value, "<-");
            assert!(matches!(&g.right, Expr::Variable(t) if t.value == "L"));
        },
        other => panic!("expected a comprehension: {:?}", other),
    }
    assert!(p.eos());
}

#[test]
fn record_and_map_are_told_apart() {
    let mut p = parser(&[sym("#"), atom("foo"), sym("{"), atom("a"), sym("="), integer("1"), sym("}")]);
    match Expr::parse(&mut p).unwrap() {
        Expr::Record(r) => {
            assert_eq!(r.name.value, "foo");
            assert_eq!(r.fields.len(), 1);
            assert_eq!(r.fields[0].value.op.value, "=");
            assert_eq!(integer_value(&r.fields[0].value.right), "1");
        },
        other => panic!("expected a record: {:?}", other),
    }
    let mut p = parser(&[sym("#"), sym("{"), atom("a"), sym("=>"), integer("1"), sym("}")]);
    match Expr::parse(&mut p).unwrap() {
        Expr::MapExpr(m) => {
            assert_eq!(m.fields.len(), 1);
            assert!(matches!(&m.fields[0].value.left, Expr::Literal(Literal::Atom(t)) if t.value == "a"));
            assert_eq!(m.fields[0].value.op.value, "=>");
        },
        other => panic!("expected a map: {:?}", other),
    }
}

#[test]
fn local_call_with_two_arguments() {
    let mut p = parser(&[atom("foo"), sym("("), integer("1"), sym(","), integer("2"), sym(")")]);
    let e = Expr::parse(&mut p).unwrap();
    assert_eq!(e.start_position().offset, 0);
    assert_eq!(e.end_position().offset, 13);
    match e {
        Expr::LocalCall(c) => {
            assert!(matches!(&c.function, Expr::Literal(Literal::Atom(t)) if t.value == "foo"));
            assert_eq!(c.args.args.len(), 2);
            assert_eq!(integer_value(&c.args.args[0].arg), "1");
            assert_eq!(integer_value(&c.args.args[1].arg), "2");
        },
        other => panic!("expected a local call: {:?}", other),
    }
}

#[test]
fn remote_call_with_one_argument() {
    let mut p = parser(&[atom("m"), sym(":"), atom("foo"), sym("("), integer("1"), sym(")")]);
    match Expr::parse(&mut p).unwrap() {
        Expr::RemoteCall(c) => {
            assert!(matches!(&c.module, Expr::Literal(Literal::Atom(t)) if t.value == "m"));
            assert!(matches!(&c.function, Expr::Literal(Literal::Atom(t)) if t.value == "foo"));
            assert_eq!(c.args.args.len(), 1);
            assert_eq!(integer_value(&c.args.args[0].arg), "1");
        },
        other => panic!("expected a remote call: {:?}", other),
    }
    assert!(p.eos());
}

#[test]
fn parenthesized_shape_is_classified_whatever_is_inside() {
    let mut p = parser(&[sym("("), integer("1"), sym("+"), integer("1"), sym(")")]);
    p.start_transaction();
    let kind = LeftKind::guess(&mut p).unwrap();
    p.abort_transaction();
    assert_eq!(kind, LeftKind::Parenthesized);
    assert_eq!(remaining(&p), 5);

    let mut p = parser(&[sym("("), integer("1"), sym(")")]);
    match Expr::parse(&mut p).unwrap() {
        Expr::Parenthesized(x) => assert_eq!(integer_value(&x.expr), "1"),
        other => panic!("expected parentheses: {:?}", other),
    }
}

#[test]
fn expect_mismatch_names_both_values_and_reads_nothing() {
    let mut p = parser(&[kw("end")]);
    let err = p.expect(TokenKind::Keyword, "when").unwrap_err();
    match err.kind() {
        ErrorKind::InvalidInput { expected, actual } => {
            assert_eq!(expected, "when");
            assert_eq!(actual.value, "end");
        },
        other => panic!("expected InvalidInput: {:?}", other),
    }
    assert_eq!(remaining(&p), 1);
    let t = p.expect(TokenKind::Keyword, "end").unwrap();
    assert_eq!(t.value, "end");
    assert!(p.eos());
}

#[test]
fn expect_of_another_class_is_unexpected_token() {
    let mut p = parser(&[atom("end")]);
    let err = p.expect(TokenKind::Keyword, "end").unwrap_err();
    assert!(matches!(err.kind(), ErrorKind::UnexpectedToken(t) if t.value == "end"));
    assert_eq!(remaining(&p), 1);
}

#[test]
fn expect_on_empty_stream_is_unexpected_eos() {
    let mut p = parser(&[]);
    let err = p.expect(TokenKind::Symbol, ",").unwrap_err();
    assert!(matches!(err.kind(), ErrorKind::UnexpectedEos));
    assert!(matches!(p.read_token().unwrap_err().kind(), ErrorKind::UnexpectedEos));
}

#[test]
fn expect_any_takes_the_first_match_or_names_the_last_candidate() {
    let mut p = parser(&[atom("b"), atom("z")]);
    let t = p.expect_any(TokenKind::Atom, &["a", "b", "c"]).unwrap();
    assert_eq!(t.value, "b");
    let err = p.expect_any(TokenKind::Atom, &["x", "y"]).unwrap_err();
    assert!(matches!(err.kind(), ErrorKind::InvalidInput { expected, .. } if expected == "y"));
    assert_eq!(remaining(&p), 1);
    let err = p.expect_any(TokenKind::Atom, &[]).unwrap_err();
    assert!(matches!(err.kind(), ErrorKind::UnexpectedToken(t) if t.value == "z"));
    assert_eq!(remaining(&p), 1);
}

#[test]
fn nested_aborts_restore_the_stream() {
    let mut p = parser(&[atom("a"), atom("b"), atom("c"), atom("d")]);
    p.start_transaction();
    assert_eq!(p.read_token().unwrap().value, "a");
    p.start_transaction();
    assert_eq!(p.read_token().unwrap().value, "b");
    p.start_transaction();
    assert_eq!(p.read_token().unwrap().value, "c");
    p.abort_transaction();
    assert_eq!(p.read_token().unwrap().value, "c");
    p.commit_transaction();
    p.abort_transaction();
    assert_eq!(p.depth(), 0);
    let seen: Vec<String> = (0..4).map(|_| p.read_token().unwrap().value).collect();
    assert_eq!(seen, vec!["a", "b", "c", "d"]);
    assert!(p.eos());
}

#[test]
fn peek_reads_nothing_and_transaction_reads_only_on_success() {
    let mut p = parser(&[var("X"), atom("a")]);
    let x: Pattern = p.peek().unwrap();
    assert_eq!(x.token().value, "X");
    assert_eq!(remaining(&p), 2);
    let failed: Result<Atom, _> = p.transaction();
    assert!(failed.is_err());
    assert_eq!(remaining(&p), 2);
    let ok: Pattern = p.transaction().unwrap();
    assert_eq!(ok.token().value, "X");
    assert_eq!(remaining(&p), 1);
}

#[test]
fn sequence_never_empty() {
    let mut p = parser(&[]);
    assert!(Sequence::<Atom>::parse(&mut p).is_err());
    let mut p = parser(&[atom("a"), sym(","), atom("b"), atom("c")]);
    let s = Sequence::<Atom>::parse(&mut p).unwrap();
    assert_eq!(s.len(), 2);
    assert_eq!(s.items[1].item.value(), "b");
    assert_eq!(s.start_position().offset, 0);
    assert_eq!(s.end_position().offset, 5);
    assert_eq!(remaining(&p), 1);
}

#[test]
fn clauses_never_empty() {
    let mut p = parser(&[]);
    assert!(Clauses::<Atom>::parse(&mut p).is_err());
    let mut p = parser(&[atom("a"), sym(";"), atom("b"), sym(";"), atom("c")]);
    let c = Clauses::<Atom>::parse(&mut p).unwrap();
    assert_eq!(c.len(), 3);
    assert!(c.clauses[2].delimiter.is_none());
    assert!(p.eos());
}

#[test]
fn empty_brackets_give_no_elements() {
    let mut p = parser(&[sym("["), sym("]")]);
    let l = List::<Atom>::parse(&mut p).unwrap();
    assert_eq!(l.len(), 0);
    assert_eq!(l.end_position().offset, 3);
    let mut p = parser(&[sym("("), sym(")")]);
    let a = Args::<Expr>::parse(&mut p).unwrap();
    assert_eq!(a.len(), 0);
    assert!(p.eos());
}

#[test]
fn trailing_comma_in_list_fails() {
    let mut p = parser(&[sym("["), atom("a"), sym(","), sym("]")]);
    assert!(List::<Atom>::parse(&mut p).is_err());
    let mut p = parser(&[sym("["), atom("a"), atom("b")]);
    assert!(List::<Atom>::parse(&mut p).is_err());
}

#[test]
fn pattern_accepts_only_literals_and_variables() {
    let mut p = parser(&[sym("{"), atom("a"), sym("}")]);
    let err = Pattern::parse(&mut p).unwrap_err();
    assert!(matches!(err.kind(), ErrorKind::UnexpectedToken(t) if t.value == "{"));
    assert_eq!(remaining(&p), 3);
    let mut p = parser(&[integer("7")]);
    assert!(matches!(Pattern::parse(&mut p).unwrap(), Pattern::Literal(Literal::Integer(_))));
}

#[test]
fn unknown_keyword_cannot_start_an_expression() {
    let mut p = parser(&[kw("end")]);
    let err = Expr::parse(&mut p).unwrap_err();
    assert!(matches!(err.kind(), ErrorKind::UnexpectedToken(t) if t.value == "end"));
    assert_eq!(remaining(&p), 1);
}

#[test]
fn block_catch_and_tuple() {
    let mut p = parser(&[kw("begin"), atom("a"), sym(","), atom("b"), kw("end")]);
    match Expr::parse(&mut p).unwrap() {
        Expr::Block(b) => assert_eq!(b.body.len(), 2),
        other => panic!("expected a block: {:?}", other),
    }
    let mut p = parser(&[kw("catch"), sym("{"), sym("}")]);
    match Expr::parse(&mut p).unwrap() {
        Expr::Catch(c) => assert!(matches!(&c.expr, Expr::Tuple(t) if t.elements.is_empty())),
        other => panic!("expected a catch: {:?}", other),
    }
}

#[test]
fn right_kind_looks_at_one_token() {
    let mut p = parser(&[sym("(")]);
    assert_eq!(RightKind::guess(&mut p), RightKind::LocalCall);
    let mut p = parser(&[sym(":")]);
    assert_eq!(RightKind::guess(&mut p), RightKind::RemoteCall);
    let mut p = parser(&[]);
    assert_eq!(RightKind::guess(&mut p), RightKind::Standalone);
}

#[test]
fn export_and_module_atom() {
    let mut p = parser(&[atom("foo"), sym("/"), integer("2")]);
    let e = Export::parse(&mut p).unwrap();
    assert_eq!(e.name.value(), "foo");
    assert_eq!(e.arity.value(), "2");
    assert!(e.name.expect("foo").is_ok());
    assert!(e.name.expect("bar").is_err());
    let mut p = parser(&[atom("lists"), sym(":")]);
    let m = ModuleAtom::parse(&mut p).unwrap();
    assert_eq!(m.module_name.value(), "lists");
    assert_eq!(m.end_position().offset, 7);
}

#[test]
fn reader_push_back_comes_first() {
    let mut r = TokenReader::new(tokens(&[atom("b")]));
    let a = tokens(&[atom("a")]).pop().unwrap();
    r.unread_token(a);
    assert_eq!(r.read_token().unwrap().value, "a");
    assert_eq!(r.read_token().unwrap().value, "b");
    assert!(r.read_token().is_err());
}

#[test]
fn try_symbol_reads_only_that_symbol() {
    let mut p = parser(&[sym(","), atom("x")]);
    assert!(p.try_symbol(";").is_none());
    assert!(p.try_symbol(",").is_some());
    assert!(p.try_symbol(",").is_none());
    assert_eq!(remaining(&p), 1);
}

#[test]
fn exception_class_and_stack_trace() {
    let mut p = parser(&[atom("throw"), sym(":"), var("R"), sym(":"), var("S")]);
    let c = ExceptionClass::parse(&mut p).unwrap();
    assert_eq!(c.class.value, "throw");
    assert_eq!(c.end_position().offset, 7);
    let mut p2 = parser(&[var("Class"), sym(":")]);
    assert_eq!(ExceptionClass::parse(&mut p2).unwrap().class.value, "Class");
    assert_eq!(p.read_token().unwrap().value, "R");
    let s = StackTrace::parse(&mut p).unwrap();
    assert_eq!(s.variable.value, "S");
    assert!(p.eos());
}

#[test]
fn when_guard_alternatives() {
    let mut p = parser(&[kw("when"), var("X"), sym(","), var("Y"), sym(";"), var("Z"), sym("->")]);
    let g = WhenGuard::parse(&mut p).unwrap();
    assert_eq!(g.seq.len(), 2);
    assert_eq!(g.seq.clauses[0].clause.len(), 2);
    assert_eq!(g.seq.clauses[1].clause.len(), 1);
    assert_eq!(g.start_position().offset, 0);
    assert_eq!(g.end_position().offset, 14);
    assert_eq!(remaining(&p), 1);
    let mut p = parser(&[kw("end")]);
    assert!(matches!(WhenGuard::parse(&mut p).unwrap_err().kind(), ErrorKind::InvalidInput { .. }));
}

#[test]
fn record_field_default_value() {
    let mut p = parser(&[sym("="), integer("42")]);
    let d = RecordFieldDefault::parse(&mut p).unwrap();
    assert_eq!(integer_value(&d.value), "42");
    assert_eq!(d.end_position().offset, 4);
}

#[test]
fn only_a_local_call_converts() {
    let mut p = parser(&[atom("f"), sym("("), sym(")")]);
    let call = Expr::parse(&mut p).unwrap().into_local_call().unwrap();
    assert_eq!(call.args.len(), 0);
    let mut p = parser(&[atom("f")]);
    let err = Expr::parse(&mut p).unwrap().into_local_call().unwrap_err();
    assert!(matches!(err.kind(), ErrorKind::InvalidInput { expected, actual }
        if expected == "local call" && actual.value == "f"));
}

#[test]
fn call_on_a_parenthesized_head() {
    let mut p = parser(&[sym("("), var("F"), sym(")"), sym("("), integer("1"), sym(")")]);
    match Expr::parse(&mut p).unwrap() {
        Expr::LocalCall(c) => {
            assert!(matches!(&c.function, Expr::Parenthesized(_)));
            assert_eq!(c.args.len(), 1);
        },
        other => panic!("expected a local call: {:?}", other),
    }
}

#[test]
fn unclosed_and_ill_delimited_brackets_fail() {
    let mut p = parser(&[sym("["), integer("1"), sym(","), integer("2")]);
    assert!(matches!(Expr::parse(&mut p).unwrap_err().kind(), ErrorKind::UnexpectedEos));
    let mut p = parser(&[sym("("), var("X")]);
    assert!(Args::<Pattern>::parse(&mut p).is_err());
    let mut p = parser(&[sym("("), var("X"), sym(","), sym(")")]);
    assert!(Args::<Pattern>::parse(&mut p).is_err());
    let mut p = parser(&[sym("["), atom("a")]);
    assert!(List::<Atom>::parse(&mut p).is_err());
}

#[test]
fn lone_sharp_is_unexpected_eos() {
    let mut p = parser(&[sym("#")]);
    p.start_transaction();
    let err = LeftKind::guess(&mut p).unwrap_err();
    p.abort_transaction();
    assert!(matches!(err.kind(), ErrorKind::UnexpectedEos));
    assert_eq!(remaining(&p), 1);
}

#[test]
fn call_after_primary_is_always_taken() {
    let mut p = parser(&[var("F"), sym("("), sym(")"), atom("x")]);
    assert!(matches!(Expr::parse(&mut p).unwrap(), Expr::LocalCall(_)));
    assert_eq!(remaining(&p), 1);
    let mut p = parser(&[atom("a"), atom("b")]);
    assert!(matches!(Expr::parse(&mut p).unwrap(), Expr::Literal(_)));
    assert_eq!(remaining(&p), 1);
}
