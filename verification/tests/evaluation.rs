use mini_scheme::boolean::LogicOps;
use mini_scheme::built_in::EnvPrimitives;
use mini_scheme::env::{
    attempt, interpret_line, interpret_raw_text, is_code_line, Effect, Env, Eval, Step,
};
use mini_scheme::error::EvalError;
use mini_scheme::syntax;

#[test]
fn one_plus_one_equals_2() {
    let mut environment: Env = Env::new();
    let lisp = String::from("(+ 1 1)");
    let expected = Ok(String::from("2"));
    let actual = environment
        .eval(&lisp).map(|x| syntax::print_tree(&x, &false));

    assert_eq!(expected, actual);
}

#[test]
fn a_plus_b_equals_three() {
    let mut environment: Env = Env::new();
    let expected = Ok(String::from("3"));
    let define_a = String::from("(define a 2)");
    let define_b = String::from("(define b 1)");
    let equation = String::from("(+ a b)");

    let _ = environment.eval(&define_a);
    let _ = environment.eval(&define_b);

    let actual = environment
        .eval(&equation)
        .map(|x| syntax::print_tree(&x, &false));

    assert_eq!(expected, actual);
}

#[test]
fn using_add2_on_3_will_equal_5() {
    let mut environment: Env = Env::new();
    let expected = Ok(String::from("5"));
    let define_add2 = String::from("(define add2 (lambda n (+ n 2)))");
    let equation = String::from("(add2 3)");

    let _ = environment.eval(&define_add2);

    let actual = environment
        .eval(&equation)
        .map(|x| syntax::print_tree(&x, &false));

    assert_eq!(expected, actual);
}

#[test]
fn define_add4_in_terms_of_add2() {
    let mut environment: Env = Env::new();
    let expected = Ok(String::from("5"));
    let define_add2 = String::from("(define add2 (lambda n (+ n 2)))");
    let define_add4 = String::from("(define add4 (lambda n (add2 (add2 n))))");
    let equation = String::from("(add4 1)");

    let _ = environment.eval(&define_add2);
    let _ = environment.eval(&define_add4);

    let actual = environment
        .eval(&equation)
        .map(|x| syntax::print_tree(&x, &false));

    assert_eq!(expected, actual);
}

fn run(environment: &mut Env, text: &str) -> Result<String, EvalError> {
    environment
        .eval(&String::from(text))
        .map(|x| syntax::print_tree(&x, &false))
}

fn fresh(text: &str) -> Result<String, EvalError> {
    run(&mut Env::new(), text)
}

#[test]
fn atoms_evaluate_to_themselves() {
    assert_eq!(fresh("5"), Ok(String::from("5")));
    assert_eq!(fresh("#t"), Ok(String::from("#t")));
    assert_eq!(fresh("#f"), Ok(String::from("#f")));
    assert_eq!(fresh("nil"), Ok(String::from("nil")));
    assert_eq!(fresh("'some text'"), Ok(String::from("'some text'")));
}

#[test]
fn sum_of_nothing_is_zero_and_product_of_nothing_is_one() {
    let mut environment = Env::new();
    let none: Vec<syntax::Expr> = Vec::new();
    let sum = mini_scheme::math::MathOps::add(&mut environment, &none);
    assert_eq!(sum.map(|x| syntax::print_tree(&x, &false)), Ok(String::from("0")));
    let product = mini_scheme::math::MathOps::mul(&mut environment, &none);
    assert_eq!(product.map(|x| syntax::print_tree(&x, &false)), Ok(String::from("1")));
}

#[test]
fn arithmetic_folds_from_the_left() {
    assert_eq!(fresh("(+ 1.5 2.25)"), Ok(String::from("3.75")));
    assert_eq!(fresh("(+ 1 2 3 4)"), Ok(String::from("10")));
    assert_eq!(fresh("(- 10 3 2)"), Ok(String::from("5")));
    assert_eq!(fresh("(* 2 3.5)"), Ok(String::from("7.0")));
    assert_eq!(fresh("(* 2 3 4)"), Ok(String::from("24")));
    assert_eq!(fresh("(/ 1 4)"), Ok(String::from("0.25")));
    assert_eq!(fresh("(/ 100 5 2)"), Ok(String::from("10")));
    assert_eq!(fresh("(% 7 3)"), Ok(String::from("1")));
    assert_eq!(fresh("(% 7.5 2)"), Ok(String::from("1.5")));
}

#[test]
fn one_argument_gives_the_inverse() {
    assert_eq!(fresh("(- 5)"), Ok(String::from("-5")));
    assert_eq!(fresh("(/ 4)"), Ok(String::from("0.25")));
    assert_eq!(fresh("(- -2.5)"), Ok(String::from("2.5")));
}

#[test]
fn nested_calls_are_evaluated() {
    assert_eq!(fresh("(+ 1 (* 2 3))"), Ok(String::from("7")));
    assert_eq!(fresh("(* (+ 1 2) (- 5 1))"), Ok(String::from("12")));
}

#[test]
fn division_by_zero_is_an_error() {
    assert_eq!(fresh("(/ 1 0)"), Err(EvalError::DivisionByZero));
    assert_eq!(fresh("(/ 0)"), Err(EvalError::DivisionByZero));
    assert_eq!(fresh("(% 1 0)"), Err(EvalError::DivisionByZero));
    assert_eq!(fresh("(/ 1 0.000)"), Err(EvalError::DivisionByZero));
}

#[test]
fn arithmetic_on_other_values_is_a_type_error() {
    assert_eq!(fresh("(+ 1 #t)"), Err(EvalError::TypeError));
    assert_eq!(fresh("(* 'a' 2)"), Err(EvalError::TypeError));
    assert_eq!(fresh("(- nil)"), Err(EvalError::TypeError));
    assert_eq!(fresh("(/ 1 (quote (1 2)))"), Err(EvalError::TypeError));
    assert_eq!(fresh("(% #f 2)"), Err(EvalError::TypeError));
}

#[test]
fn numbers_of_large_scales_are_computed() {
    assert_eq!(fresh("(* 1e-600000 1e-600000)"), Ok(String::from("1E-1200000")));
    assert_eq!(fresh("(* 1e-400000 1e-400000)"), Ok(String::from("1E-800000")));
    assert_eq!(fresh("(* 2 1e2000000)"), Ok(String::from("2e+2000000")));
    assert_eq!(fresh("1e2000000"), Ok(String::from("1e+2000000")));
}

#[test]
fn arithmetic_on_a_scale_beyond_the_limit_is_out_of_range() {
    assert_eq!(fresh("(+ 1e3000000000000000000 1)"), Err(EvalError::NumberOutOfRange));
    assert_eq!(fresh("(* 1 1e-3000000000000000000)"), Err(EvalError::NumberOutOfRange));
    assert_eq!(fresh("(- 1e3000000000000000000)"), Err(EvalError::NumberOutOfRange));
    assert_eq!(fresh("(/ 1e3000000000000000000 0)"), Err(EvalError::DivisionByZero));
    assert_eq!(fresh("(= 1e3000000000000000000 1)"), Ok(String::from("#f")));
    assert_eq!(
        fresh("(= 1e3000000000000000000 10e2999999999999999999)"),
        Ok(String::from("#t"))
    );
    assert_eq!(fresh("1e3000000000000000000"), Ok(String::from("1e+3000000000000000000")));
}

#[test]
fn equal_numbers_of_many_digits_are_equal() {
    assert_eq!(
        fresh("(= 7922816251433193472.0000000000 7922816251433193472)"),
        Ok(String::from("#t"))
    );
    assert_eq!(
        fresh("(= 7922816251433193472.0000000001 7922816251433193472)"),
        Ok(String::from("#f"))
    );
}

#[test]
fn equality_compares_every_argument_with_the_first() {
    assert_eq!(fresh("(= 1 1)"), Ok(String::from("#t")));
    assert_eq!(fresh("(= 1 2)"), Ok(String::from("#f")));
    assert_eq!(fresh("(= 1 1 1)"), Ok(String::from("#t")));
    assert_eq!(fresh("(= 1 1 2)"), Ok(String::from("#f")));
    assert_eq!(fresh("(= 1 2 1)"), Ok(String::from("#f")));
    assert_eq!(fresh("(= 7)"), Ok(String::from("#t")));
    assert_eq!(fresh("(= 1.0 1.00)"), Ok(String::from("#t")));
    assert_eq!(fresh("(= 'a' 'a')"), Ok(String::from("#t")));
    assert_eq!(fresh("(= 'a' 'b')"), Ok(String::from("#f")));
    assert_eq!(fresh("(= #t #t)"), Ok(String::from("#t")));
    assert_eq!(fresh("(= #t 1)"), Ok(String::from("#f")));
    assert_eq!(fresh("(= nil nil)"), Ok(String::from("#t")));
    assert_eq!(fresh("(= (quote (1 2)) (quote (1 2)))"), Ok(String::from("#t")));
    assert_eq!(fresh("(= (quote (1 2)) (quote (1 3)))"), Ok(String::from("#f")));
    assert_eq!(fresh("(= (quote (1 2)) (quote (1 2 3)))"), Ok(String::from("#f")));
    assert_eq!(fresh("(= (lambda x x) (lambda x x))"), Ok(String::from("#t")));
    assert_eq!(fresh("(= (lambda x x) (lambda y y))"), Ok(String::from("#f")));
}

#[test]
fn equality_evaluates_every_argument() {
    assert_eq!(fresh("(= 1 2 missing)"), Err(EvalError::UnboundSymbol(String::from("missing"))));
}

#[test]
fn car_of_the_empty_list_and_of_an_atom_fail() {
    assert_eq!(fresh("(car (quote ()))"), Err(EvalError::EmptyList));
    assert_eq!(fresh("(car 5)"), Err(EvalError::NotAList));
    assert_eq!(fresh("(cdr 5)"), Err(EvalError::NotAList));
}

#[test]
fn cdr_of_the_empty_list_is_the_empty_list() {
    assert_eq!(fresh("(cdr (quote ()))"), Ok(String::from("()")));
}

#[test]
fn car_and_cdr_take_a_list_apart() {
    assert_eq!(fresh("(car (quote (1 2 3)))"), Ok(String::from("1")));
    assert_eq!(fresh("(cdr (quote (1 2 3)))"), Ok(String::from("(2 3)")));
    assert_eq!(fresh("(cdr (quote (1 2)))"), Ok(String::from("(2)")));
    assert_eq!(fresh("(car (quote ((1 2) 3)))"), Ok(String::from("(1 2)")));
    assert_eq!(fresh("(car (quote (a b)))"), Ok(String::from("a")));
}

#[test]
fn and_of_nothing_is_true_and_or_of_nothing_is_false() {
    let mut environment = Env::new();
    let none: Vec<syntax::Expr> = Vec::new();
    let all = environment.and(&none).map(|x| syntax::print_tree(&x, &false));
    assert_eq!(all, Ok(String::from("#t")));
    let any = environment.or(&none).map(|x| syntax::print_tree(&x, &false));
    assert_eq!(any, Ok(String::from("#f")));

    let call = syntax::Expr::list(vec![syntax::Expr::symbol(String::from("and"))]);
    let value = environment.simplify(&call).map(|x| syntax::print_tree(&x, &false));
    assert_eq!(value, Ok(String::from("#t")));
    let call = syntax::Expr::list(vec![syntax::Expr::symbol(String::from("or"))]);
    let value = environment.simplify(&call).map(|x| syntax::print_tree(&x, &false));
    assert_eq!(value, Ok(String::from("#f")));
}

#[test]
fn and_and_or_combine_booleans() {
    assert_eq!(fresh("(and #t #t)"), Ok(String::from("#t")));
    assert_eq!(fresh("(and #t #f)"), Ok(String::from("#f")));
    assert_eq!(fresh("(and #f #t #t)"), Ok(String::from("#f")));
    assert_eq!(fresh("(or #f #f)"), Ok(String::from("#f")));
    assert_eq!(fresh("(or #f #t)"), Ok(String::from("#t")));
    assert_eq!(fresh("(or #t #f #f)"), Ok(String::from("#t")));
    assert_eq!(fresh("(and (= 1 1) (= 2 2))"), Ok(String::from("#t")));
}

#[test]
fn and_and_or_do_not_stop_early() {
    assert_eq!(fresh("(and #f 1)"), Err(EvalError::TypeError));
    assert_eq!(fresh("(or #t 1)"), Err(EvalError::TypeError));
    assert_eq!(fresh("(and #f missing)"), Err(EvalError::UnboundSymbol(String::from("missing"))));

    let mut environment = Env::new();
    assert_eq!(run(&mut environment, "(and #f (= nil (print 'seen')))"), Ok(String::from("#f")));
    assert_eq!(environment.take_effects().len(), 1);
}

#[test]
fn not_negates_a_boolean() {
    assert_eq!(fresh("(not #t)"), Ok(String::from("#f")));
    assert_eq!(fresh("(not #f)"), Ok(String::from("#t")));
    assert_eq!(fresh("(not 1)"), Err(EvalError::TypeError));
}

#[test]
fn atom_tells_atoms_from_lists() {
    assert_eq!(fresh("(atom 1)"), Ok(String::from("#t")));
    assert_eq!(fresh("(atom 'a')"), Ok(String::from("#t")));
    assert_eq!(fresh("(atom (quote (1 2)))"), Ok(String::from("#f")));
    assert_eq!(fresh("(atom (quote ()))"), Ok(String::from("#f")));
    assert_eq!(fresh("(atom (lambda x x))"), Ok(String::from("#t")));
}

#[test]
fn if_chooses_by_its_condition() {
    assert_eq!(fresh("(if #t 1 2)"), Ok(String::from("1")));
    assert_eq!(fresh("(if #f 1 2)"), Ok(String::from("2")));
    assert_eq!(fresh("(if 1 2 3)"), Err(EvalError::TypeError));
    assert_eq!(fresh("(if (= 1 1) (+ 1 1) (+ 2 2))"), Ok(String::from("2")));
}

#[test]
fn if_evaluates_only_the_chosen_branch() {
    assert_eq!(fresh("(if #t 1 missing)"), Ok(String::from("1")));
    assert_eq!(fresh("(if #f missing 2)"), Ok(String::from("2")));
}

#[test]
fn wrong_argument_counts_are_arity_errors() {
    assert_eq!(fresh("(not 1 2)"), Err(EvalError::ArityMismatch));
    assert_eq!(fresh("(define x)"), Err(EvalError::ArityMismatch));
    assert_eq!(fresh("(define x 1 2)"), Err(EvalError::ArityMismatch));
    assert_eq!(fresh("(atom 1 2)"), Err(EvalError::ArityMismatch));
    assert_eq!(fresh("(if #t 1)"), Err(EvalError::ArityMismatch));
    assert_eq!(fresh("(if #t 1 2 3)"), Err(EvalError::ArityMismatch));
    assert_eq!(fresh("(quote 1 2)"), Err(EvalError::ArityMismatch));
    assert_eq!(fresh("(car 1 2)"), Err(EvalError::ArityMismatch));
    assert_eq!(fresh("(cdr 1 2)"), Err(EvalError::ArityMismatch));
    assert_eq!(fresh("(string 1 2)"), Err(EvalError::ArityMismatch));
    assert_eq!(fresh("(lambda x)"), Err(EvalError::ArityMismatch));
    assert_eq!(fresh("(% 1 2 3)"), Err(EvalError::ArityMismatch));
    assert_eq!(fresh("(% 1)"), Err(EvalError::ArityMismatch));
    assert_eq!(fresh("(print 'a' 'b')"), Err(EvalError::ArityMismatch));
    assert_eq!(fresh("(println 'a' 'b')"), Err(EvalError::ArityMismatch));
    assert_eq!(fresh("(slurp 'a' 'b')"), Err(EvalError::ArityMismatch));
    assert_eq!(fresh("(write 'a')"), Err(EvalError::ArityMismatch));
    assert_eq!(fresh("(load 'a' 'b')"), Err(EvalError::ArityMismatch));

    let mut environment = Env::new();
    let call = syntax::Expr::list(vec![syntax::Expr::symbol(String::from("quote"))]);
    assert!(matches!(environment.simplify(&call), Err(EvalError::ArityMismatch)));
    let none: Vec<syntax::Expr> = Vec::new();
    assert!(matches!(environment.quote(&none), Err(EvalError::ArityMismatch)));
    let call = syntax::Expr::list(vec![syntax::Expr::symbol(String::from("-"))]);
    assert!(matches!(environment.simplify(&call), Err(EvalError::ArityMismatch)));
    let call = syntax::Expr::list(vec![syntax::Expr::symbol(String::from("="))]);
    assert!(matches!(environment.simplify(&call), Err(EvalError::ArityMismatch)));
}

#[test]
fn a_lambda_checks_its_argument_count() {
    let mut environment = Env::new();
    let _ = run(&mut environment, "(define pair (lambda (a b) (+ a b)))");
    assert_eq!(run(&mut environment, "(pair 1 2)"), Ok(String::from("3")));
    assert_eq!(run(&mut environment, "(pair 1)"), Err(EvalError::ArityMismatch));
    assert_eq!(run(&mut environment, "(pair 1 2 3)"), Err(EvalError::ArityMismatch));
}

#[test]
fn unbalanced_text_is_rejected_and_nothing_is_evaluated() {
    let mut environment = Env::new();
    assert_eq!(run(&mut environment, "(define a 1"), Err(EvalError::SyntaxError));
    assert_eq!(run(&mut environment, "a"), Err(EvalError::UnboundSymbol(String::from("a"))));
    assert_eq!(run(&mut environment, "(print 'x'))"), Err(EvalError::SyntaxError));
    assert_eq!(environment.take_effects().len(), 0);
    assert_eq!(run(&mut environment, ")("), Err(EvalError::EmptyExpression));
    assert_eq!(fresh("(+ 1 1"), Err(EvalError::SyntaxError));
    assert_eq!(fresh(")"), Err(EvalError::SyntaxError));
}

#[test]
fn the_shape_of_a_call_is_checked() {
    assert_eq!(fresh("()"), Err(EvalError::EmptyExpression));
    assert_eq!(fresh("(1 2)"), Err(EvalError::NotAFunctionName));
    assert_eq!(fresh("('f' 2)"), Err(EvalError::NotAFunctionName));
    assert_eq!(fresh("((quote (1 2)) 3)"), Err(EvalError::NotAFunctionName));
    assert_eq!(fresh("((lambda x x) 3)"), Err(EvalError::NotAFunctionName));
    assert_eq!(fresh("((quote car) (quote (1 2)))"), Ok(String::from("1")));
}

#[test]
fn names_are_looked_up() {
    let mut environment = Env::new();
    assert_eq!(run(&mut environment, "x"), Err(EvalError::UnboundSymbol(String::from("x"))));
    assert_eq!(
        run(&mut environment, "(foo 1)"),
        Err(EvalError::UnrecognizedFunction(String::from("foo")))
    );
    let _ = run(&mut environment, "(define x 5)");
    assert_eq!(run(&mut environment, "x"), Ok(String::from("5")));
    assert_eq!(run(&mut environment, "(x 1)"), Err(EvalError::SymbolCannotBeUsedAsFunction));
    let _ = run(&mut environment, "(define y (quote (1 2)))");
    assert_eq!(run(&mut environment, "(y 1)"), Err(EvalError::SymbolCannotBeUsedAsFunction));
}

#[test]
fn keywords_come_before_bindings() {
    let mut environment = Env::new();
    assert_eq!(run(&mut environment, "(define + (lambda (a b) 0))"), Ok(String::from("+")));
    assert_eq!(run(&mut environment, "(+ 1 1)"), Ok(String::from("2")));
}

#[test]
fn define_binds_the_expression_as_it_stands() {
    let mut environment = Env::new();
    assert_eq!(run(&mut environment, "(define a (+ 1 2))"), Ok(String::from("a")));
    assert_eq!(
        environment.resolve("a").map(|x| syntax::print_tree(&x, &false)),
        Some(String::from("(+ 1 2)"))
    );
    assert_eq!(run(&mut environment, "a"), Ok(String::from("3")));
    assert_eq!(run(&mut environment, "(define b a)"), Ok(String::from("b")));
    assert_eq!(run(&mut environment, "b"), Ok(String::from("3")));
    assert_eq!(run(&mut environment, "(define a 10)"), Ok(String::from("a")));
    assert_eq!(run(&mut environment, "b"), Ok(String::from("10")));
}

#[test]
fn define_of_a_symbol_as_itself_changes_nothing() {
    let mut environment = Env::new();
    assert_eq!(run(&mut environment, "(define a a)"), Ok(String::from("a")));
    assert_eq!(run(&mut environment, "a"), Err(EvalError::UnboundSymbol(String::from("a"))));
    let _ = run(&mut environment, "(define a 4)");
    assert_eq!(run(&mut environment, "(define a a)"), Ok(String::from("a")));
    assert_eq!(run(&mut environment, "a"), Ok(String::from("4")));
}

#[test]
fn define_wants_a_symbol() {
    assert_eq!(fresh("(define 1 2)"), Err(EvalError::TypeError));
    assert_eq!(fresh("(define (a b) 2)"), Err(EvalError::TypeError));
    assert_eq!(fresh("(define 'a' 2)"), Err(EvalError::TypeError));
}

#[test]
fn define_inside_a_call_binds_globally() {
    let mut environment = Env::new();
    let _ = run(&mut environment, "(define set (lambda v (define kept 7)))");
    assert_eq!(run(&mut environment, "(set 1)"), Ok(String::from("kept")));
    assert_eq!(run(&mut environment, "kept"), Ok(String::from("7")));
}

#[test]
fn quote_gives_its_argument_unevaluated() {
    assert_eq!(fresh("(quote (+ 1 2))"), Ok(String::from("(+ 1 2)")));
    assert_eq!(fresh("(quote a)"), Ok(String::from("a")));
    assert_eq!(fresh("(quote ())"), Ok(String::from("()")));
}

#[test]
fn string_prints_an_atom() {
    assert_eq!(fresh("(string 5)"), Ok(String::from("5")));
    assert_eq!(fresh("(string #t)"), Ok(String::from("#t")));
    assert_eq!(fresh("(string nil)"), Ok(String::from("nil")));
    assert_eq!(fresh("(string 'a b')"), Ok(String::from("'a b'")));
    assert_eq!(fresh("(string (+ 1 2))"), Ok(String::from("3")));
    assert_eq!(fresh("(string (quote (1 2)))"), Err(EvalError::TypeError));
    assert_eq!(fresh("(= (string 5) 5)"), Ok(String::from("#f")));
}

#[test]
fn lambda_makes_a_function_value() {
    assert_eq!(fresh("(lambda n (+ n 2))"), Ok(String::from("(lambda (n) (+ n 2))")));
    assert_eq!(fresh("(lambda (a b) (* a b))"), Ok(String::from("(lambda (a b) (* a b))")));
    assert_eq!(fresh("(lambda () 1)"), Ok(String::from("(lambda () 1)")));
    assert_eq!(fresh("(lambda 1 2)"), Ok(String::from("(lambda (1) 2)")));
}

#[test]
fn a_parameter_has_to_be_a_symbol() {
    let mut environment = Env::new();
    let _ = run(&mut environment, "(define f (lambda (1) 2))");
    assert_eq!(run(&mut environment, "(f 3)"), Err(EvalError::InvalidParameterName));
    let _ = run(&mut environment, "(define g (lambda ((a c) b) 2))");
    assert_eq!(run(&mut environment, "(g 3 4)"), Err(EvalError::InvalidParameterName));
    let _ = run(&mut environment, "(define h (lambda 'p' 2))");
    assert_eq!(run(&mut environment, "(h 3)"), Err(EvalError::InvalidParameterName));
}

#[test]
fn arguments_are_evaluated_before_the_body() {
    let mut environment = Env::new();
    let _ = run(&mut environment, "(define first (lambda (a b) a))");
    assert_eq!(run(&mut environment, "(first (+ 1 1) (+ 2 2))"), Ok(String::from("2")));
    assert_eq!(
        run(&mut environment, "(first 1 missing)"),
        Err(EvalError::UnboundSymbol(String::from("missing")))
    );
}

#[test]
fn parameters_are_bound_in_order() {
    let mut environment = Env::new();
    let _ = run(&mut environment, "(define f (lambda (a b) (+ a b)))");
    assert_eq!(run(&mut environment, "(f 1 (+ a 10))"), Ok(String::from("12")));
}

#[test]
fn a_call_leaves_no_binding_behind() {
    let mut environment = Env::new();
    let _ = run(&mut environment, "(define add2 (lambda n (+ n 2)))");
    assert_eq!(run(&mut environment, "(add2 3)"), Ok(String::from("5")));
    assert_eq!(run(&mut environment, "n"), Err(EvalError::UnboundSymbol(String::from("n"))));
    assert_eq!(environment.resolve("n").is_none(), true);
}

#[test]
fn a_call_that_fails_leaves_no_binding_behind() {
    let mut environment = Env::new();
    let _ = run(&mut environment, "(define bad (lambda n (+ n missing)))");
    assert_eq!(
        run(&mut environment, "(bad 3)"),
        Err(EvalError::UnboundSymbol(String::from("missing")))
    );
    assert_eq!(environment.resolve("n").is_none(), true);
    let _ = run(&mut environment, "(define worse (lambda (n 1) n))");
    assert_eq!(run(&mut environment, "(worse 3 4)"), Err(EvalError::InvalidParameterName));
    assert_eq!(environment.resolve("n").is_none(), true);
}

#[test]
fn a_parameter_shadows_a_global_for_the_call() {
    let mut environment = Env::new();
    let _ = run(&mut environment, "(define n 100)");
    let _ = run(&mut environment, "(define add2 (lambda n (+ n 2)))");
    assert_eq!(run(&mut environment, "(add2 3)"), Ok(String::from("5")));
    assert_eq!(run(&mut environment, "n"), Ok(String::from("100")));
}

#[test]
fn an_argument_that_names_its_parameter_is_passed_over() {
    let mut environment = Env::new();
    let _ = run(&mut environment, "(define n 100)");
    let _ = run(&mut environment, "(define add2 (lambda n (+ n 2)))");
    assert_eq!(run(&mut environment, "(add2 n)"), Ok(String::from("102")));
}

#[test]
fn a_body_sees_the_bindings_of_its_caller() {
    let mut environment = Env::new();
    let _ = run(&mut environment, "(define inner (lambda x (+ x outer)))");
    let _ = run(&mut environment, "(define wrap (lambda outer (inner 1)))");
    assert_eq!(run(&mut environment, "(wrap 10)"), Ok(String::from("11")));
}

#[test]
fn a_recursive_function_counts_down() {
    let mut environment = Env::new();
    let _ = run(
        &mut environment,
        "(define sum (lambda k (if (= k 0) 0 (+ k (sum (- k 1))))))",
    );
    assert_eq!(run(&mut environment, "(sum 4)"), Ok(String::from("10")));
}

#[test]
fn endless_recursion_ends_at_the_depth_limit() {
    let mut environment = Env::new();
    let _ = run(&mut environment, "(define forever (lambda n (forever n)))");
    assert_eq!(run(&mut environment, "(forever 1)"), Err(EvalError::DepthExceeded));
    let _ = run(&mut environment, "(define a b)");
    let _ = run(&mut environment, "(define b a)");
    assert_eq!(run(&mut environment, "a"), Err(EvalError::DepthExceeded));
    assert_eq!(environment.resolve("n").is_none(), true);
}

#[test]
fn the_depth_limit_can_be_set() {
    let mut environment = Env::new();
    assert_eq!(environment.depth_limit(), mini_scheme::env::DEFAULT_DEPTH);
    environment.set_depth_limit(0);
    assert_eq!(environment.depth_limit(), 0);
    assert_eq!(run(&mut environment, "5"), Ok(String::from("5")));
    assert_eq!(run(&mut environment, "(+ 1 1)"), Err(EvalError::DepthExceeded));
    environment.set_depth_limit(1);
    assert_eq!(run(&mut environment, "(+ 1 1)"), Ok(String::from("2")));
    assert_eq!(run(&mut environment, "(+ 1 (+ 1 1))"), Err(EvalError::DepthExceeded));
    environment.set_depth_limit(2);
    assert_eq!(run(&mut environment, "(+ 1 (+ 1 1))"), Ok(String::from("3")));
}

#[test]
fn printing_is_noted_as_an_effect() {
    let mut environment = Env::new();
    assert_eq!(run(&mut environment, "(print 'hello')"), Ok(String::from("nil")));
    assert_eq!(run(&mut environment, "(println 'world')"), Ok(String::from("nil")));
    assert_eq!(run(&mut environment, "(print 5)"), Err(EvalError::TypeError));
    assert_eq!(run(&mut environment, "(println (quote (1)))"), Err(EvalError::TypeError));
    let effects = environment.take_effects();
    assert_eq!(effects.len(), 2);
    assert!(matches!(&effects[0], Effect::Print(text) if text == "'hello'"));
    assert!(matches!(&effects[1], Effect::Print(text) if text == "'world'\n"));
    assert_eq!(environment.take_effects().len(), 0);
}

#[test]
fn writing_is_noted_as_an_effect() {
    let mut environment = Env::new();
    assert_eq!(run(&mut environment, "(write 'out.txt' 'some text')"), Ok(String::from("nil")));
    assert_eq!(run(&mut environment, "(write 1 'some text')"), Err(EvalError::TypeError));
    assert_eq!(run(&mut environment, "(write 'out.txt' 2)"), Err(EvalError::TypeError));
    let effects = environment.take_effects();
    assert_eq!(effects.len(), 1);
    assert!(matches!(
        &effects[0],
        Effect::Write(path, text) if path == "out.txt" && text == "'some text'"
    ));
}

#[test]
fn slurp_gives_the_text_of_a_file_at_hand() {
    let mut environment = Env::new();
    assert_eq!(
        run(&mut environment, "(slurp 'notes.txt')"),
        Err(EvalError::FileUnavailable(String::from("notes.txt")))
    );
    environment.provide_file(String::from("notes.txt"), String::from("first line"));
    assert_eq!(run(&mut environment, "(slurp 'notes.txt')"), Ok(String::from("first line")));
    assert_eq!(environment.file_text("notes.txt"), Some(String::from("first line")));
    environment.provide_file(String::from("notes.txt"), String::from("changed"));
    assert_eq!(run(&mut environment, "(slurp 'notes.txt')"), Ok(String::from("changed")));
    assert_eq!(run(&mut environment, "(slurp 5)"), Err(EvalError::TypeError));
    environment.forget_files();
    assert_eq!(environment.file_text("notes.txt"), None);
    assert_eq!(
        run(&mut environment, "(slurp 'notes.txt')"),
        Err(EvalError::FileUnavailable(String::from("notes.txt")))
    );
}

#[test]
fn load_evaluates_the_expressions_of_a_file() {
    let mut environment = Env::new();
    environment.provide_file(
        String::from("lib.scm"),
        String::from("(define two 2)\n(define twice\n  (lambda n (* n two)))"),
    );
    assert_eq!(run(&mut environment, "(load 'lib.scm')"), Ok(String::from("'lib.scm'")));
    assert_eq!(run(&mut environment, "(twice 4)"), Ok(String::from("8")));
    assert_eq!(
        run(&mut environment, "(load 'other.scm')"),
        Err(EvalError::FileUnavailable(String::from("other.scm")))
    );
    environment.provide_file(String::from("bad.scm"), String::from("(define ok 1)\n(car 5)\n(define late 2)\n"));
    assert_eq!(run(&mut environment, "(load 'bad.scm')"), Err(EvalError::NotAList));
    assert_eq!(run(&mut environment, "ok"), Ok(String::from("1")));
    assert_eq!(run(&mut environment, "late"), Err(EvalError::UnboundSymbol(String::from("late"))));
    assert_eq!(run(&mut environment, "(load 5)"), Err(EvalError::TypeError));
}

#[test]
fn single_items_in_parentheses_are_read_as_the_item() {
    assert_eq!(fresh("(5)"), Ok(String::from("5")));
    assert_eq!(fresh("(and)"), Err(EvalError::UnboundSymbol(String::from("and"))));
    assert_eq!(fresh("(quote)"), Err(EvalError::UnboundSymbol(String::from("quote"))));
}

#[test]
fn a_line_that_is_a_comment_is_passed_over() {
    let mut environment = Env::new();
    assert!(interpret_line(&String::from("; (define a 1)"), &mut environment).is_none());
    assert!(interpret_line(&String::from(""), &mut environment).is_none());
    assert_eq!(environment.resolve("a").is_none(), true);
    let result = interpret_line(&String::from("(define a 1)"), &mut environment);
    assert!(matches!(result, Some(Ok(_))));
    assert_eq!(run(&mut environment, "a"), Ok(String::from("1")));
}

#[test]
fn a_text_of_several_expressions_is_interpreted_in_order() {
    let mut environment = Env::new();
    interpret_raw_text(
        &String::from("(define a 1)\n(car 5)\n(define b\n (+ a 1))\n(println 'done')\n"),
        &mut environment,
    );
    assert_eq!(run(&mut environment, "b"), Ok(String::from("2")));
    assert_eq!(environment.take_effects().len(), 1);
}

#[test]
fn a_copy_of_an_environment_is_independent() {
    let mut environment = Env::new();
    let _ = run(&mut environment, "(define a 1)");
    environment.provide_file(String::from("f"), String::from("text"));
    environment.set_depth_limit(50);
    let mut copy = environment.clone();
    assert_eq!(copy.depth_limit(), 50);
    assert_eq!(run(&mut copy, "a"), Ok(String::from("1")));
    assert_eq!(run(&mut copy, "(slurp 'f')"), Ok(String::from("text")));
    let _ = run(&mut copy, "(define b 2)");
    assert_eq!(run(&mut environment, "b"), Err(EvalError::UnboundSymbol(String::from("b"))));
}

#[test]
fn errors_have_messages() {
    assert_eq!(
        EvalError::SyntaxError.message(),
        String::from("Missing closing or opening parenthesis.")
    );
    assert_eq!(
        EvalError::UnboundSymbol(String::from("x")).message(),
        String::from("Symbol of name 'x' is undefined.")
    );
    assert_eq!(
        EvalError::UnrecognizedFunction(String::from("f")).message(),
        String::from("Function name 'f' not recognized.")
    );
    assert_eq!(
        EvalError::FileUnavailable(String::from("p")).message(),
        String::from("Could not read file 'p'.")
    );
    assert_eq!(EvalError::EmptyExpression.message(), String::from("Empty list is not a valid token."));
    assert_eq!(
        EvalError::UnboundSymbol(String::from("x")).clone(),
        EvalError::UnboundSymbol(String::from("x"))
    );
}

#[test]
fn an_attempt_asks_for_the_file_it_takes() {
    let mut environment = Env::new();
    let text = String::from("(= (define seen 1) (print 'once') (slurp 'data.txt'))");
    let step = attempt(&mut environment, &text);
    assert!(matches!(&step, Step::Wanted(path) if path == "data.txt"));
    assert_eq!(environment.resolve("seen").is_none(), true);
    assert_eq!(environment.take_effects().len(), 0);
    environment.provide_file(String::from("data.txt"), String::from("41"));
    let step = attempt(&mut environment, &String::from("(define seen 1)"));
    assert!(matches!(step, Step::Done(Ok(_))));
    assert_eq!(environment.resolve("seen").is_some(), true);
    let step = attempt(&mut environment, &String::from("(print (slurp 'data.txt'))"));
    assert!(matches!(step, Step::Done(Ok(_))));
    let effects = environment.take_effects();
    assert_eq!(effects.len(), 1);
    assert!(matches!(&effects[0], Effect::Print(text) if text == "41"));
    let step = attempt(&mut environment, &String::from("(car 5)"));
    assert!(matches!(step, Step::Done(Err(EvalError::NotAList))));
    let step = attempt(&mut environment, &String::from("(load 'more.scm')"));
    assert!(matches!(&step, Step::Wanted(path) if path == "more.scm"));
}

#[test]
fn code_lines_are_told_from_comments() {
    assert!(is_code_line(&String::from("(+ 1 1)")));
    assert!(is_code_line(&String::from("x")));
    assert!(is_code_line(&String::from(" ; indented")));
    assert!(!is_code_line(&String::from("; comment")));
    assert!(!is_code_line(&String::from(";")));
    assert!(!is_code_line(&String::from("")));
}

#[test]
fn a_file_that_loads_itself_ends_at_the_depth_limit() {
    let mut environment = Env::new();
    environment.provide_file(String::from("self.scm"), String::from("(load 'self.scm')\n"));
    assert_eq!(run(&mut environment, "(load 'self.scm')"), Err(EvalError::DepthExceeded));
}

#[test]
fn deep_nesting_of_every_kind_ends_at_the_depth_limit() {
    let mut environment = Env::new();
    let _ = run(&mut environment, "(define a (if #t (and (= 1 (+ 1 (- (* (/ a)))))) 2))");
    assert_eq!(run(&mut environment, "a"), Err(EvalError::DepthExceeded));
    let _ = run(&mut environment, "(define f (lambda (x y) (string (car (cdr (not (atom (f y x))))))))");
    assert_eq!(run(&mut environment, "(f 1 2)"), Err(EvalError::DepthExceeded));
    let _ = run(&mut environment, "(define g (lambda x (println (print (slurp (write (g 1) 'a'))))))");
    assert_eq!(run(&mut environment, "(g 1)"), Err(EvalError::DepthExceeded));
}
