use mini_scheme::env::{Env, Eval};
use mini_scheme::error::EvalError;
use mini_scheme::lex::parse;
use mini_scheme::stack::StackMachine;
use mini_scheme::stack_encode::{encode_ast, is_define_keyword, is_lambda_keyword, StackInstruction};
use mini_scheme::syntax::{print_tree, Expr};
use std::collections::VecDeque;

fn read(text: &str) -> Expr {
    match parse(&String::from(text)) {
        Ok(expr) => expr,
        Err(error) => panic!("{:?}", error),
    }
}

fn shown(instruction: &StackInstruction) -> String {
    match instruction {
        StackInstruction::Exec(expr) => format!("exec {}", print_tree(expr, &false)),
        StackInstruction::RawExec(list) => {
            format!("raw {}", print_tree(&Expr::list(list.clone()), &false))
        }
        StackInstruction::Wait => String::from("wait"),
        StackInstruction::Push(expr) => format!("push {}", print_tree(expr, &false)),
    }
}

fn encoding(text: &str) -> Vec<String> {
    encode_ast(&read(text)).iter().map(shown).collect()
}

fn run(machine: &mut StackMachine, text: &str) -> Result<String, EvalError> {
    machine
        .run_instructions(encode_ast(&read(text)))
        .map(|x| print_tree(&x, &false))
}

#[test]
fn the_words_define_and_lambda_are_told() {
    assert!(is_define_keyword(&Expr::symbol(String::from("define"))));
    assert!(!is_define_keyword(&Expr::symbol(String::from("lambda"))));
    assert!(!is_define_keyword(&Expr::text(String::from("define"))));
    assert!(!is_define_keyword(&Expr::list(vec![Expr::symbol(String::from("define"))])));
    assert!(is_lambda_keyword(&Expr::symbol(String::from("lambda"))));
    assert!(!is_lambda_keyword(&Expr::symbol(String::from("define"))));
    assert!(!is_lambda_keyword(&Expr::nil()));
}

#[test]
fn an_atom_is_pushed() {
    assert_eq!(encoding("5"), vec!["push 5"]);
    assert_eq!(encoding("name"), vec!["push name"]);
}

#[test]
fn the_empty_list_takes_no_instruction() {
    assert_eq!(encoding("()").len(), 0);
    assert_eq!(encoding("(f ())"), vec!["exec f"]);
    let mut machine = StackMachine::create(Env::new());
    assert_eq!(run(&mut machine, "()"), Err(EvalError::EmptyExpression));
}

#[test]
fn a_call_pushes_its_arguments_and_executes_its_function() {
    assert_eq!(encoding("(+ 1 2)"), vec!["push 1", "push 2", "exec +"]);
    assert_eq!(encoding("(f a b c)"), vec!["push a", "push b", "push c", "exec f"]);
}

#[test]
fn a_nested_call_goes_before_what_was_gathered() {
    assert_eq!(
        encoding("(+ 1 (* 2 3))"),
        vec!["push 2", "push 3", "exec *", "push 1", "exec +"]
    );
    assert_eq!(
        encoding("(f (g 1) (h 2))"),
        vec!["push 2", "exec h", "push 1", "exec g", "wait", "exec f"]
    );
}

#[test]
fn define_and_lambda_are_encoded_as_they_stand() {
    assert_eq!(encoding("(define a (+ 1 2))"), vec!["raw (define a (+ 1 2))"]);
    assert_eq!(encoding("(lambda n (+ n 2))"), vec!["raw (lambda n (+ n 2))"]);
    assert_eq!(
        encoding("(f (define a 1))"),
        vec!["raw (define a 1)", "exec f"]
    );
}

#[test]
fn the_machine_runs_an_encoded_call() {
    let mut machine = StackMachine::create(Env::new());
    assert_eq!(run(&mut machine, "(+ 1 2)"), Ok(String::from("3")));
    assert_eq!(run(&mut machine, "(+ 1 (* 2 3))"), Ok(String::from("7")));
    assert_eq!(run(&mut machine, "5"), Ok(String::from("5")));
    assert_eq!(machine.arg_stack.len(), 0);
    assert_eq!(machine.instructions.len(), 0);
}

#[test]
fn the_machine_defines_in_its_environment() {
    let mut machine = StackMachine::create(Env::new());
    assert_eq!(run(&mut machine, "(define a 5)"), Ok(String::from("a")));
    assert_eq!(run(&mut machine, "(+ a 1)"), Ok(String::from("6")));
    let value = machine.environment.eval(&String::from("a"));
    assert_eq!(value.map(|x| print_tree(&x, &false)), Ok(String::from("5")));
}

#[test]
fn the_machine_hands_out_the_error_of_a_call() {
    let mut machine = StackMachine::create(Env::new());
    assert_eq!(run(&mut machine, "(car 5)"), Err(EvalError::NotAList));
    assert_eq!(
        run(&mut machine, "(+ 1 (missing 2))"),
        Err(EvalError::UnrecognizedFunction(String::from("missing")))
    );
}

#[test]
fn a_machine_without_instructions_has_no_result() {
    let mut machine = StackMachine::create(Env::new());
    assert!(matches!(machine.run_instructions(VecDeque::new()), Err(EvalError::EmptyExpression)));
    let mut only_wait = VecDeque::new();
    only_wait.push_back(StackInstruction::Wait);
    assert!(matches!(machine.run_instructions(only_wait), Err(EvalError::EmptyExpression)));
}

#[test]
fn instructions_are_run_one_by_one() {
    let mut machine = StackMachine::create(Env::new());
    machine.instructions = encode_ast(&read("(+ 1 2)"));
    assert_eq!(machine.next_instruction(), Ok(0));
    assert_eq!(machine.arg_stack.len(), 1);
    assert_eq!(machine.arg_stack[0].len(), 1);
    assert_eq!(machine.next_instruction(), Ok(0));
    assert_eq!(machine.arg_stack[0].len(), 2);
    assert_eq!(machine.next_instruction(), Ok(0));
    assert_eq!(machine.arg_stack[0].len(), 1);
    assert_eq!(machine.next_instruction(), Ok(1));
    assert_eq!(machine.get_result().map(|x| print_tree(&x, &false)), Some(String::from("3")));
    assert_eq!(machine.arg_stack.len(), 0);
    assert!(machine.get_result().is_none());
    machine.instructions.push_back(StackInstruction::Wait);
    assert_eq!(machine.next_instruction(), Ok(0));
    assert_eq!(machine.arg_stack.len(), 1);
    assert_eq!(machine.arg_stack[0].len(), 0);
    assert!(machine.get_result().is_none());
    assert_eq!(machine.arg_stack.len(), 1);
    machine.instructions.push_back(StackInstruction::Exec(Expr::symbol(String::from("car"))));
    assert_eq!(machine.next_instruction(), Err(EvalError::ArityMismatch));
    assert_eq!(machine.arg_stack.len(), 0);
}
