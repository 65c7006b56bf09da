use scheme_eval::environment::Environment;
use scheme_eval::eval::eval;
use scheme_eval::number::Number;
use scheme_eval::parse::{
    chars_of, load_stdlib, parse_repl_line, read_float, read_integer, ParseError,
};
use scheme_eval::types::Expression;
use std::rc::Rc;

fn integer(i: i32) -> Rc<Expression> {
    Rc::new(Expression::Numeric(Number::Integer(i)))
}

fn float(x: f32) -> Rc<Expression> {
    Rc::new(Expression::Numeric(Number::Float(x.to_bits())))
}

fn boolean(b: bool) -> Rc<Expression> {
    Rc::new(Expression::Boolean(b))
}

fn id(name: &str) -> Rc<Expression> {
    Rc::new(Expression::Identifier(String::from(name)))
}

fn list(items: Vec<Rc<Expression>>) -> Rc<Expression> {
    Rc::new(Expression::SExpr(items))
}

fn tokens() -> Vec<&'static str> {
    vec![
        "0", "1", "-1", "+1", "42", "-17", "007", "-0", "+0", "2147483647", "2147483648",
        "-2147483648", "-2147483649", "99999999999", "00000000000000000000001",
        "340282350000000000000000000000000000000", "9999999999999999999999999999999999999999",
        "3.14", "-3.14", "+3.14", "2.5E10", "2.5e10", "2.5E-10", "2.5e+10", "5.", ".5", "0.5",
        "-.5", "+.5", "-5.", "1e5", "1E5", "1e-5", "1e+5", "1e0", "1e00", "1e38", "1e39",
        "1e-45", "1e-46", "3e-39", "0.1", "0.2", "0.3", "16777217", "16777217.0", "1.17549435e-38",
        "3.4028235e38", "3.4028236e38", "0.000001", "123456789.125", "1.0000001", "1.00000006",
        "8388608.5", "8388609.5", "0e0", "0.0", "-0.0", ".0", "0.", "00.00", "1.5e3", ".5e1",
        "5.e1", "inf", "-inf", "+inf", "Inf", "INF", "iNf", "infinity", "-infinity", "+infinity",
        "Infinity", "INFINITY", "nan", "NaN", "NAN", "-nan", "+nan", "infinit", "infinityy", "in",
        "na", "nana", "1e", "1e+", "1e-", "e5", "E5", ".", "+", "-", "+.", "-.", ".e5", "1.2.3",
        "1..2", "1_000", "0x10", "0x1p3", "1e5.5", "1e5e5", "--5", "++5", "+-5", "5-", "5+",
        "1a", "a1", "1.5f", "١٢٣", "1 ", "snan", "nan(1)", "1,5", "1e1_0", "foo", "x", "#t",
        "else-branch-unused", "<=", "1+", "12abc", "1.5.", ".5.", "5..", "+e5", "-e", "e", "E",
        "1E", "1e+-5",
    ]
}

#[test]
fn integers_read_as_the_standard_library_reads_them() {
    for token in tokens() {
        let expected = token.parse::<i32>().ok();
        assert_eq!(read_integer(&chars_of(token)), expected, "{}", token);
    }
}

#[test]
fn floats_read_as_the_standard_library_reads_them() {
    for token in tokens() {
        let expected = token.parse::<f32>().ok();
        let found = read_float(&chars_of(token), token);
        match expected {
            None => assert_eq!(found, None, "{}", token),
            Some(x) if x.is_nan() => {
                let bits = found.unwrap();
                assert!(f32::from_bits(bits).is_nan(), "{}", token);
                assert_eq!(bits >> 31 == 1, token.starts_with('-'), "{}", token);
            }
            Some(x) => assert_eq!(found, Some(x.to_bits()), "{}", token),
        }
    }
}

#[test]
fn floats_with_many_digits_are_rounded_correctly() {
    let mut state: u32 = 0x2545_f491;
    for _ in 0..2000 {
        state ^= state << 13;
        state ^= state >> 17;
        state ^= state << 5;
        let x = f32::from_bits(state);
        if !x.is_finite() {
            continue;
        }
        for text in [format!("{}", x), format!("{:e}", x), format!("{:.12e}", x as f64 * 1.000000001)] {
            let expected = text.parse::<f32>().unwrap();
            assert_eq!(read_float(&chars_of(&text), &text), Some(expected.to_bits()), "{}", text);
        }
    }
}

#[test]
fn atoms_are_numbers_before_they_are_names() {
    assert_eq!(parse_repl_line("42"), Ok(vec![integer(42)]));
    assert_eq!(parse_repl_line("-17"), Ok(vec![integer(-17)]));
    assert_eq!(parse_repl_line("+5"), Ok(vec![integer(5)]));
    assert_eq!(parse_repl_line("2147483648"), Ok(vec![float(2147483648.0)]));
    assert_eq!(parse_repl_line("3.5"), Ok(vec![float(3.5)]));
    assert_eq!(parse_repl_line("-.5e1"), Ok(vec![float(-5.0)]));
    assert_eq!(parse_repl_line("inf"), Ok(vec![float(f32::INFINITY)]));
    assert_eq!(parse_repl_line("-Infinity"), Ok(vec![float(f32::NEG_INFINITY)]));
    assert_eq!(parse_repl_line("1e"), Ok(vec![id("1e")]));
    assert_eq!(parse_repl_line("+"), Ok(vec![id("+")]));
    assert_eq!(parse_repl_line("-"), Ok(vec![id("-")]));
    assert_eq!(parse_repl_line("foo"), Ok(vec![id("foo")]));
    assert_eq!(parse_repl_line("else-branch-unused"), Ok(vec![id("else-branch-unused")]));
    assert_eq!(parse_repl_line("λ"), Ok(vec![id("λ")]));
}

#[test]
fn booleans_end_after_their_two_characters() {
    assert_eq!(parse_repl_line("#t"), Ok(vec![boolean(true)]));
    assert_eq!(parse_repl_line("#f"), Ok(vec![boolean(false)]));
    assert_eq!(parse_repl_line("#true"), Ok(vec![boolean(true), id("rue")]));
    assert_eq!(parse_repl_line("(#f1)"), Ok(vec![list(vec![boolean(false), integer(1)])]));
    assert_eq!(parse_repl_line("#x"), Ok(vec![id("#x")]));
    assert_eq!(parse_repl_line("#"), Ok(vec![id("#")]));
    assert_eq!(parse_repl_line("x#t"), Ok(vec![id("x#t")]));
}

#[test]
fn lists_nest() {
    assert_eq!(
        parse_repl_line("(+ 1 2)"),
        Ok(vec![list(vec![id("+"), integer(1), integer(2)])])
    );
    assert_eq!(
        parse_repl_line("(define (sq n) (* n n))"),
        Ok(vec![list(vec![
            id("define"),
            list(vec![id("sq"), id("n")]),
            list(vec![id("*"), id("n"), id("n")]),
        ])])
    );
    assert_eq!(parse_repl_line("((a))"), Ok(vec![list(vec![list(vec![id("a")])])]));
    assert_eq!(parse_repl_line("(a(b)c)"), Ok(vec![list(vec![id("a"), list(vec![id("b")]), id("c")])]));
}

#[test]
fn blanks_between_items_are_skipped() {
    let expected = Ok(vec![list(vec![id("+"), integer(1), integer(2)])]);
    assert_eq!(parse_repl_line("( + 1 2 )"), expected);
    assert_eq!(parse_repl_line("(\t+\r\n1   2\n)"), expected);
    assert_eq!(parse_repl_line("  \n (+ 1 2)  \t "), expected);
}

#[test]
fn a_line_may_hold_several_forms() {
    assert_eq!(parse_repl_line(""), Ok(vec![]));
    assert_eq!(parse_repl_line("   \t\n"), Ok(vec![]));
    assert_eq!(
        parse_repl_line("1 (a) #t"),
        Ok(vec![integer(1), list(vec![id("a")]), boolean(true)])
    );
    assert_eq!(parse_repl_line("(a)(b)"), Ok(vec![list(vec![id("a")]), list(vec![id("b")])]));
    assert_eq!(parse_repl_line("a\u{a0}b"), Ok(vec![id("a"), id("b")]));
    assert_eq!(parse_repl_line("a\u{3000}\u{2003}b"), Ok(vec![id("a"), id("b")]));
}

#[test]
fn a_nul_between_forms_ends_the_line() {
    assert_eq!(parse_repl_line("1 \0 2"), Ok(vec![integer(1)]));
    assert_eq!(parse_repl_line("\0(((("), Ok(vec![]));
    assert_eq!(parse_repl_line("ab\0cd"), Ok(vec![id("ab")]));
}

#[test]
fn malformed_lines_give_the_position_of_the_form() {
    assert_eq!(parse_repl_line("()"), Err(ParseError { position: 0 }));
    assert_eq!(parse_repl_line("("), Err(ParseError { position: 0 }));
    assert_eq!(parse_repl_line(")"), Err(ParseError { position: 0 }));
    assert_eq!(parse_repl_line("(a b"), Err(ParseError { position: 0 }));
    assert_eq!(parse_repl_line("  (a (b)"), Err(ParseError { position: 2 }));
    assert_eq!(parse_repl_line("(a))"), Err(ParseError { position: 3 }));
    assert_eq!(parse_repl_line("1 2 (3"), Err(ParseError { position: 4 }));
    assert_eq!(parse_repl_line("(a ())"), Err(ParseError { position: 0 }));
    assert_eq!(parse_repl_line("(a\0)"), Err(ParseError { position: 0 }));
    assert_eq!(parse_repl_line("λ ("), Err(ParseError { position: 2 }));
}

#[test]
fn only_plain_blanks_separate_the_items_of_a_list() {
    assert_eq!(parse_repl_line("(a\u{a0}b)"), Err(ParseError { position: 0 }));
    assert_eq!(parse_repl_line("(a\u{b}b)"), Err(ParseError { position: 0 }));
}

#[test]
fn characters_are_copied_in_order() {
    assert_eq!(chars_of(""), Vec::<char>::new());
    assert_eq!(chars_of("aλ\0("), vec!['a', 'λ', '\0', '(']);
}

#[test]
fn the_library_is_loaded_form_by_form() {
    let source = "(define (square x) (* x x))\n(define ten 10)\n(define (cube x) (* x (square x)))";
    let mut env = load_stdlib(source, 32).unwrap();
    assert_eq!(env.depth(), 1);
    assert_eq!(env.max_depth(), 32);
    let call = parse_repl_line("(cube ten)").unwrap();
    assert_eq!(eval(Rc::clone(&call[0]), &mut env), Ok(integer(1000)));
}

#[test]
fn a_form_of_the_library_that_fails_is_passed_over() {
    let source = "(define a 1) (define b nowhere) (nothing) (define c (+ a 1))";
    let mut env = load_stdlib(source, 8).unwrap();
    assert_eq!(env.lookup("a"), Some(integer(1)));
    assert_eq!(env.lookup("b"), None);
    assert_eq!(env.lookup("c"), Some(integer(2)));
    let call = parse_repl_line("c").unwrap();
    assert_eq!(eval(Rc::clone(&call[0]), &mut env), Ok(integer(2)));
}

#[test]
fn a_library_that_cannot_be_read_is_refused() {
    assert_eq!(load_stdlib("(define a 1) (define b", 8).err(), Some(ParseError { position: 13 }));
    assert_eq!(load_stdlib("", 8).unwrap().depth(), 1);
}

#[test]
fn an_empty_environment_binds_nothing() {
    let env = Environment::new(5);
    assert_eq!(env.depth(), 1);
    assert_eq!(env.max_depth(), 5);
    assert_eq!(env.lookup("x"), None);
    assert_eq!(env.lookup("+"), None);
}
