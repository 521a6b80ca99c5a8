use mini_scheme::decimal::Decimal;
use mini_scheme::env::{expr_is_string, Env, Eval};
use mini_scheme::lex::parse_atom;
use mini_scheme::syntax::{duplicate, expressions_equal, print_tree, Atom, Expr, LambdaDef};

fn symbol(name: &str) -> Expr {
    Expr::symbol(String::from(name))
}

fn number(text: &str) -> Expr {
    match Decimal::parse(text) {
        Some(n) => Expr::number(n),
        None => panic!("no number: {}", text),
    }
}

#[test]
fn atoms_print_as_their_text() {
    assert_eq!(print_tree(&Expr::boolean(true), &false), "#t");
    assert_eq!(print_tree(&Expr::boolean(false), &false), "#f");
    assert_eq!(print_tree(&Expr::nil(), &false), "nil");
    assert_eq!(print_tree(&symbol("name"), &false), "name");
    assert_eq!(print_tree(&Expr::text(String::from("'a b'")), &false), "'a b'");
    assert_eq!(print_tree(&number("-1.50"), &false), "-1.50");
}

#[test]
fn lists_print_between_parentheses() {
    assert_eq!(print_tree(&Expr::list(vec![]), &false), "()");
    assert_eq!(print_tree(&Expr::list(vec![symbol("a")]), &false), "(a)");
    assert_eq!(
        print_tree(&Expr::list(vec![symbol("+"), number("1"), number("2")]), &false),
        "(+ 1 2)"
    );
    assert_eq!(
        print_tree(
            &Expr::list(vec![symbol("a"), Expr::list(vec![symbol("b"), Expr::list(vec![])]), Expr::nil()]),
            &false
        ),
        "(a (b ()) nil)"
    );
}

#[test]
fn lambdas_print_with_parameters_and_body() {
    let body = Expr::list(vec![symbol("+"), symbol("n"), number("2")]);
    assert_eq!(
        print_tree(&Expr::lambda(vec![symbol("n")], body), &false),
        "(lambda (n) (+ n 2))"
    );
    assert_eq!(print_tree(&Expr::lambda(vec![], Expr::nil()), &false), "(lambda () nil)");
    assert_eq!(
        print_tree(&Expr::lambda(vec![symbol("a"), symbol("b")], symbol("a")), &false),
        "(lambda (a b) a)"
    );
}

#[test]
fn colour_wraps_atoms_in_escape_sequences() {
    assert_eq!(print_tree(&Expr::boolean(true), &true), "\u{1b}[31m#t\u{1b}[0m");
    assert_eq!(print_tree(&Expr::boolean(false), &true), "\u{1b}[31m#f\u{1b}[0m");
    assert_eq!(print_tree(&Expr::nil(), &true), "\u{1b}[31mnil\u{1b}[0m");
    assert_eq!(print_tree(&number("42"), &true), "\u{1b}[31m42\u{1b}[0m");
    assert_eq!(print_tree(&Expr::text(String::from("'hi'")), &true), "\u{1b}[33m'hi'\u{1b}[0m");
    assert_eq!(print_tree(&symbol("name"), &true), "name");
    assert_eq!(
        print_tree(&Expr::list(vec![symbol("f"), number("1"), Expr::text(String::from("'s'"))]), &true),
        "(f \u{1b}[31m1\u{1b}[0m \u{1b}[33m's'\u{1b}[0m)"
    );
    assert_eq!(
        print_tree(&Expr::lambda(vec![symbol("n")], number("2")), &true),
        "(lambda (n) \u{1b}[31m2\u{1b}[0m)"
    );
}

#[test]
fn equal_expressions_are_found_equal() {
    assert!(expressions_equal(&symbol("a"), &symbol("a")));
    assert!(!expressions_equal(&symbol("a"), &symbol("b")));
    assert!(!expressions_equal(&symbol("a"), &Expr::text(String::from("a"))));
    assert!(expressions_equal(&number("1.0"), &number("1.00")));
    assert!(!expressions_equal(&number("1.0"), &number("1.01")));
    assert!(expressions_equal(&Expr::nil(), &Expr::nil()));
    assert!(!expressions_equal(&Expr::nil(), &Expr::list(vec![])));
    assert!(!expressions_equal(&Expr::boolean(true), &Expr::boolean(false)));
    assert!(expressions_equal(&Expr::list(vec![]), &Expr::list(vec![])));
    assert!(expressions_equal(
        &Expr::list(vec![symbol("a"), number("2")]),
        &Expr::list(vec![symbol("a"), number("2.0")])
    ));
    assert!(!expressions_equal(
        &Expr::list(vec![symbol("a"), number("2")]),
        &Expr::list(vec![symbol("a")])
    ));
    assert!(!expressions_equal(
        &Expr::list(vec![symbol("a"), number("2")]),
        &Expr::list(vec![symbol("a"), number("3")])
    ));
    assert!(!expressions_equal(&Expr::list(vec![symbol("a")]), &symbol("a")));
    assert!(expressions_equal(
        &Expr::lambda(vec![symbol("n")], symbol("n")),
        &Expr::lambda(vec![symbol("n")], symbol("n"))
    ));
    assert!(!expressions_equal(
        &Expr::lambda(vec![symbol("n")], symbol("n")),
        &Expr::lambda(vec![symbol("n")], symbol("m"))
    ));
    assert!(!expressions_equal(
        &Expr::lambda(vec![symbol("n")], symbol("n")),
        &Expr::lambda(vec![symbol("n"), symbol("m")], symbol("n"))
    ));
}

#[test]
fn a_copy_equals_what_it_was_made_of() {
    let tree = Expr::list(vec![
        symbol("f"),
        number("1.5"),
        Expr::text(String::from("'t'")),
        Expr::lambda(vec![symbol("n")], Expr::list(vec![symbol("g"), symbol("n")])),
        Expr::list(vec![Expr::nil(), Expr::boolean(true)]),
    ]);
    let copy = duplicate(&tree);
    assert!(expressions_equal(&tree, &copy));
    assert_eq!(print_tree(&copy, &false), print_tree(&tree, &false));
    let again = tree.clone();
    assert!(expressions_equal(&tree, &again));
    let atom = Atom::Lambda(LambdaDef { params: vec![symbol("n")], body: Box::new(number("1")) });
    assert!(atom.clone() == atom);
    assert!(Atom::StringLiteral(String::from("'t'")).clone() == Atom::StringLiteral(String::from("'t'")));
    let def = LambdaDef { params: vec![symbol("n")], body: Box::new(symbol("n")) };
    let twin = def.clone();
    assert_eq!(twin.params.len(), 1);
    assert!(expressions_equal(&twin.body, &def.body));
}

#[test]
fn a_symbol_is_told_by_its_name() {
    assert!(expr_is_string(&symbol("n"), "n"));
    assert!(!expr_is_string(&symbol("n"), "m"));
    assert!(!expr_is_string(&Expr::text(String::from("n")), "n"));
    assert!(!expr_is_string(&Expr::list(vec![symbol("n")]), "n"));
    assert!(!expr_is_string(&Expr::Atom(Box::new(Atom::Nil)), "nil"));
}

#[test]
fn the_printed_value_of_a_sum_reads_back_as_the_same_number() {
    let mut environment = Env::new();
    for text in ["(+ 1 1)", "(+ 1.5 2.25)", "(* 1.5 1.5)", "(- 1 3)", "(/ 1 8)", "(% 10 4)", "(* 1e20 1e20)"] {
        let value = match environment.eval(&String::from(text)) {
            Ok(value) => value,
            Err(error) => panic!("{:?}", error),
        };
        let printed = print_tree(&value, &false);
        let back = parse_atom(&printed);
        assert!(matches!(&back, Expr::Atom(a) if matches!(&**a, Atom::Number(_))));
        assert!(expressions_equal(&value, &back));
    }
}

#[test]
fn expressions_compare_with_the_equality_operator() {
    assert!(symbol("a") == symbol("a"));
    assert!(symbol("a") != symbol("b"));
    assert_eq!(number("2.50"), number("2.5"));
    assert_ne!(number("2.50"), number("2.51"));
    assert_eq!(Expr::list(vec![symbol("a"), Expr::nil()]), Expr::list(vec![symbol("a"), Expr::nil()]));
    assert_ne!(Expr::list(vec![]), Expr::nil());
    assert!(Atom::Nil == Atom::Nil);
    assert!(Atom::Boolean(true) != Atom::Boolean(false));
    assert!(Atom::Symbol(String::from("x")) != Atom::StringLiteral(String::from("x")));
    let def = LambdaDef { params: vec![symbol("n")], body: Box::new(symbol("n")) };
    let same = LambdaDef { params: vec![symbol("n")], body: Box::new(symbol("n")) };
    let other = LambdaDef { params: vec![symbol("m")], body: Box::new(symbol("n")) };
    assert!(def == same);
    assert!(def != other);
}

#[test]
fn a_printed_number_is_read_back_as_a_bare_number_of_the_same_value() {
    let texts = [
        "0", "-0", "0.000", "1", "-1", "1.50", "-3.25", "0.001", "0.000001", "0.0000001",
        "1e3", "1e15", "1e16", "1e30", "12345e40", "1e-30", "-12345e-40", "123456789.987654321",
        "1e2000000", "-1e-2000000", "7922816251433193472.0000000000",
        "1e9223372036854775807", "1e-9223372036854775807", "314156e9223372036854775807",
        "271828182e-9223372036854775807", "-12e-9223372036854775800",
        "99999999999999999999999999999999999999999999999999",
    ];
    for text in texts {
        let n = number(text);
        let printed = print_tree(&n, &false);
        assert!(printed.chars().all(|c| c.is_ascii_digit() || "+-.eE".contains(c)));
        assert!(!printed.is_empty());
        let tokens = match mini_scheme::lex::lexical_analysis(&printed) {
            Ok(tokens) => tokens,
            Err(error) => panic!("{:?}", error),
        };
        assert_eq!(tokens.len(), 3);
        let back = mini_scheme::lex::parse_tokens(&tokens);
        assert!(matches!(&back, Expr::Atom(a) if matches!(&**a, Atom::Number(_))));
        assert!(expressions_equal(&n, &back));
        assert_eq!(print_tree(&back, &false), printed);
    }
    let smallest = Expr::number(Decimal::from_parts((vec![1], i64::MIN)));
    let printed = print_tree(&smallest, &false);
    assert!(expressions_equal(&smallest, &parse_atom(&printed)));
}
