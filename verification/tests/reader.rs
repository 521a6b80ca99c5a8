use mini_scheme::decimal::Decimal;
use mini_scheme::error::EvalError;
use mini_scheme::lex::{
    atom_of, chunk_file, has_matching_parens, is_boolean, is_string, lexical_analysis, parens_match_and_exist,
    parse, parse_atom, parse_tokens, split_with_parens, to_trees, tokenize, tokens_match_parens,
    trim_newline, trim_quotes, Lexer,
};
use mini_scheme::syntax::{print_tree, Atom, Expr};

fn strings(items: &[&str]) -> Vec<String> {
    items.iter().map(|x| String::from(*x)).collect()
}

fn tokens_of(text: &str) -> Vec<String> {
    tokenize(&String::from(text))
}

fn read(text: &str) -> String {
    match parse(&String::from(text)) {
        Ok(expr) => print_tree(&expr, &false),
        Err(error) => panic!("{:?}", error),
    }
}

#[test]
fn tokens_of_a_nested_expression() {
    assert_eq!(
        tokens_of("(+ 1 (* 1 2))"),
        strings(&["(", "+", "1", "(", "*", "1", "2", ")", ")"])
    );
}

#[test]
fn a_single_token_is_put_between_parentheses() {
    assert_eq!(tokens_of("5"), strings(&["(", "5", ")"]));
    assert_eq!(tokens_of("  name  "), strings(&["(", "name", ")"]));
    assert_eq!(tokens_of("'a b'"), strings(&["(", "'a b'", ")"]));
    assert_eq!(tokens_of("("), strings(&["(", "(", ")"]));
    assert_eq!(tokens_of("a b"), strings(&["a", "b"]));
    assert_eq!(tokens_of(""), strings(&[]));
    assert_eq!(tokens_of("   "), strings(&[]));
}

#[test]
fn whitespace_of_any_kind_divides_tokens() {
    assert_eq!(tokens_of("(a\tb\nc\r\nd  e)"), strings(&["(", "a", "b", "c", "d", "e", ")"]));
    assert_eq!(tokens_of("(a\u{a0}b\u{2003}c)"), strings(&["(", "a", "b", "c", ")"]));
}

#[test]
fn parentheses_are_tokens_of_their_own() {
    assert_eq!(tokens_of("(a)(b)"), strings(&["(", "a", ")", "(", "b", ")"]));
    assert_eq!(tokens_of("ab(cd)ef"), strings(&["ab", "(", "cd", ")", "ef"]));
    assert_eq!(tokens_of("(())"), strings(&["(", "(", ")", ")"]));
}

#[test]
fn a_text_literal_is_one_token() {
    assert_eq!(
        tokens_of("(print 'hello (big) world')"),
        strings(&["(", "print", "'hello (big) world'", ")"])
    );
    assert_eq!(tokens_of("(f 'a\tb')"), strings(&["(", "f", "'a\tb'", ")"]));
    assert_eq!(tokens_of("(f '')"), strings(&["(", "f", "''", ")"]));
}

#[test]
fn a_quote_ends_the_token_before_it_and_the_literal_it_closes() {
    assert_eq!(tokens_of("(ab'cd'ef)"), strings(&["(", "ab", "'cd'", "ef", ")"]));
    assert_eq!(tokens_of("('a''b')"), strings(&["(", "'a'", "'b'", ")"]));
    assert_eq!(tokens_of("(f 'open"), strings(&["(", "f", "'open"]));
}

#[test]
fn a_quote_after_a_backslash_is_a_character_like_any_other() {
    assert_eq!(tokens_of("(f 'it\\'s' 2)"), strings(&["(", "f", "'it\\'s'", "2", ")"]));
    assert!(is_string(&tokens_of("(f 'it\\'s here')")[2]));
    assert_eq!(tokens_of("(a\\'b c)"), strings(&["(", "a\\'b", "c", ")"]));
    assert_eq!(tokens_of("('a\\\\' b)"), strings(&["(", "'a\\\\' b)"]));
}

#[test]
fn tokens_come_only_of_balanced_text() {
    assert_eq!(
        lexical_analysis(&String::from("(+ 1 1)")),
        Ok(strings(&["(", "+", "1", "1", ")"]))
    );
    assert_eq!(lexical_analysis(&String::from("(+ 1 1")), Err(EvalError::SyntaxError));
    assert_eq!(lexical_analysis(&String::from("+ 1 1)")), Err(EvalError::SyntaxError));
    assert_eq!(lexical_analysis(&String::from("(()")), Err(EvalError::SyntaxError));
    assert_eq!(lexical_analysis(&String::from(")(")), Ok(strings(&[")", "("])));
    assert_eq!(lexical_analysis(&String::from("")), Ok(strings(&[])));
    assert_eq!(lexical_analysis(&String::from("(f '(')")), Err(EvalError::SyntaxError));
    assert_eq!(
        lexical_analysis(&String::from("(f '()')")),
        Ok(strings(&["(", "f", "'()'", ")"]))
    );
}

#[test]
fn parentheses_are_counted() {
    assert!(parens_match_and_exist(&String::from("(a (b) c)")));
    assert!(parens_match_and_exist(&String::from("no parentheses")));
    assert!(parens_match_and_exist(&String::from(")(")));
    assert!(!parens_match_and_exist(&String::from("(a (b c)")));
    assert!(!parens_match_and_exist(&String::from("a)")));
    assert!(has_matching_parens(&String::from("()")));
    assert!(!has_matching_parens(&String::from("(")));
    assert!(tokens_match_parens(&strings(&["(", "a", ")"])));
    assert!(tokens_match_parens(&strings(&["a", "b"])));
    assert!(tokens_match_parens(&strings(&[])));
    assert!(tokens_match_parens(&strings(&["((", "a"])));
    assert!(!tokens_match_parens(&strings(&["(", "a"])));
    assert!(!tokens_match_parens(&strings(&["(", "(", ")"])));
    assert!(!tokens_match_parens(&strings(&[")"])));
}

#[test]
fn boolean_literals_are_recognized() {
    assert!(is_boolean(&String::from("#t")));
    assert!(is_boolean(&String::from("#f")));
    assert!(!is_boolean(&String::from("#T")));
    assert!(!is_boolean(&String::from("true")));
    assert!(!is_boolean(&String::from("#")));
    assert!(!is_boolean(&String::from("")));
}

#[test]
fn text_literals_are_recognized() {
    assert!(is_string(&String::from("'abc'")));
    assert!(is_string(&String::from("''")));
    assert!(is_string(&String::from("'")));
    assert!(is_string(&String::from("'a b (c)'")));
    assert!(is_string(&String::from("'it\\'s'")));
    assert!(is_string(&String::from("'h\u{e9}llo'")));
    assert!(!is_string(&String::from("")));
    assert!(!is_string(&String::from("abc")));
    assert!(!is_string(&String::from("'abc")));
    assert!(!is_string(&String::from("abc'")));
    assert!(!is_string(&String::from("'it's'")));
    assert!(!is_string(&String::from("'''")));
    assert!(!is_string(&String::from("\"abc\"")));
}

#[test]
fn atoms_are_classified_in_order() {
    assert!(matches!(
        parse_atom(&String::from("'12'")),
        Expr::Atom(a) if matches!(&*a, Atom::StringLiteral(s) if s == "'12'")
    ));
    assert!(matches!(parse_atom(&String::from("12")), Expr::Atom(a) if matches!(&*a, Atom::Number(_))));
    assert!(matches!(parse_atom(&String::from("-1.5e3")), Expr::Atom(a) if matches!(&*a, Atom::Number(_))));
    assert!(matches!(parse_atom(&String::from("#t")), Expr::Atom(a) if matches!(&*a, Atom::Boolean(true))));
    assert!(matches!(parse_atom(&String::from("#f")), Expr::Atom(a) if matches!(&*a, Atom::Boolean(false))));
    assert!(matches!(parse_atom(&String::from("nil")), Expr::Atom(a) if matches!(&*a, Atom::Nil)));
    assert!(matches!(
        parse_atom(&String::from("Nil")),
        Expr::Atom(a) if matches!(&*a, Atom::Symbol(s) if s == "Nil")
    ));
    assert!(matches!(
        parse_atom(&String::from("+")),
        Expr::Atom(a) if matches!(&*a, Atom::Symbol(s) if s == "+")
    ));
    assert!(matches!(
        parse_atom(&String::from("-")),
        Expr::Atom(a) if matches!(&*a, Atom::Symbol(s) if s == "-")
    ));
    assert!(matches!(
        parse_atom(&String::from("")),
        Expr::Atom(a) if matches!(&*a, Atom::Symbol(s) if s == "")
    ));
    assert!(matches!(
        parse_atom(&String::from("1e2000000")),
        Expr::Atom(a) if matches!(&*a, Atom::Number(_))
    ));
    assert!(matches!(
        parse_atom(&String::from("1e-9223372036854775807")),
        Expr::Atom(a) if matches!(&*a, Atom::Number(_))
    ));
    assert!(matches!(
        parse_atom(&String::from("1e99999999999999999999")),
        Expr::Atom(a) if matches!(&*a, Atom::Symbol(s) if s == "1e99999999999999999999")
    ));
}

#[test]
fn token_sequences_become_trees() {
    let tree = parse_tokens(&strings(&["(", "+", "1", "(", "*", "1", "2", ")", ")"]));
    assert_eq!(print_tree(&tree, &false), "(+ 1 (* 1 2))");
    assert!(matches!(&tree, Expr::List(items) if items.len() == 3));
    let tree = parse_tokens(&strings(&["(", "5", ")"]));
    assert!(matches!(&tree, Expr::Atom(a) if matches!(&**a, Atom::Number(_))));
    let tree = parse_tokens(&strings(&["(", ")"]));
    assert!(matches!(&tree, Expr::List(items) if items.len() == 0));
    let tree = parse_tokens(&strings(&[]));
    assert!(matches!(&tree, Expr::List(items) if items.len() == 0));
    let tree = parse_tokens(&strings(&["("]));
    assert!(matches!(&tree, Expr::List(items) if items.len() == 0));
}

#[test]
fn the_first_token_and_what_follows_the_last_child_are_left_out() {
    let tree = parse_tokens(&strings(&["x", "a", "b", "y"]));
    assert_eq!(print_tree(&tree, &false), "(a b)");
    let tree = parse_tokens(&strings(&["(", "a", "b"]));
    assert_eq!(print_tree(&tree, &false), "a");
}

#[test]
fn texts_are_read_as_trees() {
    assert_eq!(read("(define add2 (lambda n (+ n 2)))"), "(define add2 (lambda n (+ n 2)))");
    assert_eq!(read("  ( a   ( b c )\n d )  "), "(a (b c) d)");
    assert_eq!(read("(f 'some (text)' 2)"), "(f 'some (text)' 2)");
    assert_eq!(read("x"), "x");
    assert_eq!(read("(x)"), "x");
    assert_eq!(read("((x))"), "x");
    assert_eq!(read("()"), "()");
    assert_eq!(read("(())"), "()");
    assert_eq!(read("(a ())"), "(a ())");
    assert_eq!(read("(() ())"), "(() ())");
    assert_eq!(read("((a b) (c d))"), "((a b) (c d))");
    assert_eq!(read("(a (b))"), "(a b)");
    assert_eq!(read("1.50"), "1.50");
    assert_eq!(parse(&String::from("(a")).map(|x| print_tree(&x, &false)), Err(EvalError::SyntaxError));
}

#[test]
fn a_file_is_divided_into_its_top_level_expressions() {
    assert_eq!(
        chunk_file(&String::from("(define a 1)\n(define b 2)\n")),
        strings(&["(define a 1)", "(define b 2)"])
    );
    assert_eq!(
        chunk_file(&String::from("(define f\n  (lambda n\n    (+ n 1)))\n")),
        strings(&["(define f   (lambda n     (+ n 1)))"])
    );
    assert_eq!(
        chunk_file(&String::from("; a comment\n(a)\nloose words\n(b) (c)\n")),
        strings(&["(a)", "(b)", "(c)"])
    );
    assert_eq!(chunk_file(&String::from("(a)(b)\n")), strings(&["(a)(b)"]));
    assert_eq!(chunk_file(&String::from("")), strings(&[]));
    assert_eq!(chunk_file(&String::from("no expression\n")), strings(&[]));
}

#[test]
fn a_chunk_that_ends_with_the_text_is_the_last_chunk() {
    assert_eq!(chunk_file(&String::from("(a)\n(b)")), strings(&["(a)", "(b)"]));
    assert_eq!(chunk_file(&String::from("(a)")), strings(&["(a)"]));
    assert_eq!(chunk_file(&String::from("(a)(b)")), strings(&["(a)(b)"]));
    assert_eq!(chunk_file(&String::from("(define f\n (lambda n n))")), strings(&["(define f  (lambda n n))"]));
}

#[test]
fn a_chunk_that_is_still_open_at_the_end_is_no_chunk() {
    assert_eq!(chunk_file(&String::from("(a)\n(b")), strings(&["(a)"]));
    assert_eq!(chunk_file(&String::from("(a (b)")), strings(&[]));
    assert_eq!(chunk_file(&String::from("(")), strings(&[]));
}

#[test]
fn a_stray_closing_parenthesis_opens_nothing() {
    assert_eq!(chunk_file(&String::from(") (a)\n")), strings(&["(a)"]));
    assert_eq!(chunk_file(&String::from("(a))\n(b)\n")), strings(&["(a)", "(b)"]));
}

#[test]
fn quotes_are_taken_off() {
    assert_eq!(trim_quotes(&String::from("'file.txt'")), "file.txt");
    assert_eq!(trim_quotes(&String::from("file.txt'")), "file.txt");
    assert_eq!(trim_quotes(&String::from("'file.txt")), "'file.txt");
    assert_eq!(trim_quotes(&String::from("file.txt")), "file.txt");
    assert_eq!(trim_quotes(&String::from("''")), "");
    assert_eq!(trim_quotes(&String::from("'")), "");
    assert_eq!(trim_quotes(&String::from("")), "");
    assert_eq!(trim_quotes(&String::from("'a'b'")), "a'b");
}

#[test]
fn line_endings_are_taken_off() {
    let mut line = String::from("text\r\n");
    assert_eq!(trim_newline(&mut line), "text");
    assert_eq!(line, "text\r\n");
    assert_eq!(trim_newline(&mut String::from("text\n")), "text");
    assert_eq!(trim_newline(&mut String::from("text\r")), "text\r");
    assert_eq!(trim_newline(&mut String::from("text")), "text");
    assert_eq!(trim_newline(&mut String::from("text\n\n")), "text\n");
    assert_eq!(trim_newline(&mut String::from("\n")), "");
    assert_eq!(trim_newline(&mut String::from("")), "");
}

#[test]
fn a_text_is_split_at_spaces_around_parentheses() {
    assert_eq!(
        split_with_parens(&String::from("(+ 1 (* 1 2))")),
        strings(&["", "(", "+", "1", "", "(", "*", "1", "2", ")", "", ")", ""])
    );
    assert_eq!(split_with_parens(&String::from("a b")), strings(&["a", "b"]));
    assert_eq!(split_with_parens(&String::from("")), strings(&[""]));
    assert_eq!(split_with_parens(&String::from(" ")), strings(&["", ""]));
    assert_eq!(split_with_parens(&String::from("a\tb")), strings(&["a\tb"]));
}

#[test]
fn the_trees_of_a_token_sequence_are_its_children() {
    let trees = to_trees(&strings(&["(", "+", "1", "(", "*", "1", "2", ")", ")"]));
    let shown: Vec<String> = trees.iter().map(|x| print_tree(x, &false)).collect();
    assert_eq!(shown, strings(&["+", "1", "(* 1 2)"]));
    assert_eq!(to_trees(&strings(&["(", "5", ")"])).len(), 1);
    assert_eq!(to_trees(&strings(&["(", ")"])).len(), 0);
    assert_eq!(to_trees(&strings(&[])).len(), 0);
}

#[test]
fn a_tokenizer_is_fed_character_by_character() {
    let mut lexer = Lexer::new();
    for c in "(f a".chars() {
        lexer.feed(c, c == ' ');
    }
    lexer.feed('x', true);
    lexer.feed('b', false);
    lexer.feed(')', false);
    assert_eq!(lexer.finish(), strings(&["(", "f", "a", "b", ")"]));
    let mut lexer = Lexer::new();
    lexer.feed('a', false);
    lexer.feed(' ', false);
    lexer.feed('b', false);
    assert_eq!(lexer.finish(), strings(&["(", "a b", ")"]));
    assert_eq!(Lexer::new().finish(), strings(&[]));
}

#[test]
fn an_atom_is_made_of_a_token_and_the_number_it_is_read_as() {
    let five = atom_of(&String::from("5"), Decimal::parse("5"));
    assert!(matches!(five, Expr::Atom(a) if matches!(&*a, Atom::Number(_))));
    let word = atom_of(&String::from("5"), None);
    assert!(matches!(word, Expr::Atom(a) if matches!(&*a, Atom::Symbol(s) if s == "5")));
    let text = atom_of(&String::from("'5'"), Decimal::parse("5"));
    assert!(matches!(text, Expr::Atom(a) if matches!(&*a, Atom::StringLiteral(s) if s == "'5'")));
    let nothing = atom_of(&String::from("nil"), None);
    assert!(matches!(nothing, Expr::Atom(a) if matches!(&*a, Atom::Nil)));
    let named = atom_of(&String::from("nil"), Decimal::parse("7"));
    assert_eq!(print_tree(&named, &false), "7");
}

fn has_white_space_property(c: char) -> bool {
    let code = c as u32;
    (0x0009..=0x000D).contains(&code)
        || code == 0x0020
        || code == 0x0085
        || code == 0x00A0
        || code == 0x1680
        || (0x2000..=0x200A).contains(&code)
        || code == 0x2028
        || code == 0x2029
        || code == 0x202F
        || code == 0x205F
        || code == 0x3000
}

#[test]
fn exactly_the_white_space_characters_divide_tokens() {
    let mut dividing = 0;
    for code in 0..=0x10FFFFu32 {
        let c = match char::from_u32(code) {
            Some(c) => c,
            None => continue,
        };
        if c == '(' || c == ')' || c == '\'' {
            continue;
        }
        let mut text = String::from("(a");
        text.push(c);
        text.push_str("b)");
        let count = tokenize(&text).len();
        if has_white_space_property(c) {
            assert_eq!(count, 4);
            dividing += 1;
        } else {
            assert_eq!(count, 3);
        }
    }
    assert_eq!(dividing, 25);
}
