//! From an expression to the instructions of the stack machine.

use vstd::prelude::*;
use std::collections::VecDeque;
use crate::syntax::{duplicate, lemma_list_term, terms, Atom, Expr, Term};
use crate::text::str_equal;

verus! {

/// An instruction of the stack machine.
#[derive(Debug)]
pub enum StackInstruction {
    /// Calls the function that the expression names on the arguments of the
    /// innermost frame.
    Exec(Expr),
    /// Evaluates the expressions, followed by the arguments of the innermost
    /// frame, as one call.
    RawExec(Vec<Expr>),
    /// Opens a frame without arguments.
    Wait,
    /// Adds an argument to the innermost frame.
    Push(Expr),
}

/// The mathematical model of a [`StackInstruction`].
pub ghost enum Instruction {
    Exec(Term),
    RawExec(Seq<Term>),
    Wait,
    Push(Term),
}

impl View for StackInstruction {
    type V = Instruction;

    open spec fn view(&self) -> Instruction {
        match *self {
            StackInstruction::Exec(expr) => Instruction::Exec(expr@),
            StackInstruction::RawExec(list) => Instruction::RawExec(terms(list@)),
            StackInstruction::Wait => Instruction::Wait,
            StackInstruction::Push(expr) => Instruction::Push(expr@),
        }
    }
}

/// The instructions that a sequence of stack instructions stands for.
pub open spec fn instructions(items: Seq<StackInstruction>) -> Seq<Instruction> {
    Seq::new(items.len(), |i: int| items[i]@)
}

/// Whether a term is the symbol `define`.
pub open spec fn names_define(term: Term) -> bool {
    term == Term::Symbol(seq!['d', 'e', 'f', 'i', 'n', 'e'])
}

/// Whether a term is the symbol `lambda`.
pub open spec fn names_lambda(term: Term) -> bool {
    term == Term::Symbol(seq!['l', 'a', 'm', 'b', 'd', 'a'])
}

/// Whether an expression is the symbol `define`.
pub fn is_define_keyword(expr: &Expr) -> (r: bool)
    ensures
        r == names_define(expr@),
{
    proof {
        reveal_strlit("define");
        assert("define"@ =~= seq!['d', 'e', 'f', 'i', 'n', 'e']);
    }
    match expr {
        Expr::Atom(atom) => match &**atom {
            Atom::Symbol(name) => str_equal(name.as_str(), "define"),
            _ => false,
        },
        Expr::List(_) => false,
    }
}

/// Whether an expression is the symbol `lambda`.
pub fn is_lambda_keyword(expr: &Expr) -> (r: bool)
    ensures
        r == names_lambda(expr@),
{
    proof {
        reveal_strlit("lambda");
        assert("lambda"@ =~= seq!['l', 'a', 'm', 'b', 'd', 'a']);
    }
    match expr {
        Expr::Atom(atom) => match &**atom {
            Atom::Symbol(name) => str_equal(name.as_str(), "lambda"),
            _ => false,
        },
        Expr::List(_) => false,
    }
}

/// The instructions that evaluate a term.
///
/// An atom is pushed, and the empty list takes no instruction. A list that
/// starts with `define` or `lambda` is evaluated as it stands. Of any other list the arguments are encoded and
/// the first item is executed on them: an atom among the arguments is pushed
/// where it stands, and the instructions of a list go before all that was
/// gathered, with a wait at the end for every such list but the first.
pub open spec fn encoded(term: Term) -> Seq<Instruction>
    decreases term, 0int,
{
    match term {
        Term::List(items) => if items.len() == 0 {
            Seq::empty()
        } else if names_define(items[0]) || names_lambda(items[0]) {
            seq![Instruction::RawExec(items)]
        } else {
            encoded_args(items, 1, Seq::empty(), false).push(Instruction::Exec(items[0]))
        },
        _ => seq![Instruction::Push(term)],
    }
}

/// The instructions gathered so far with those of the arguments from index
/// `from` on; `seen` tells whether a list was among the arguments before.
pub open spec fn encoded_args(
    items: Seq<Term>,
    from: int,
    gathered: Seq<Instruction>,
    seen: bool,
) -> Seq<Instruction>
    decreases items, items.len() - from,
{
    if from < 0 || from >= items.len() {
        gathered
    } else if items[from] is List {
        let next = encoded(items[from]) + gathered;
        encoded_args(
            items,
            from + 1,
            if seen {
                next.push(Instruction::Wait)
            } else {
                next
            },
            true,
        )
    } else {
        encoded_args(items, from + 1, gathered.push(Instruction::Push(items[from])), seen)
    }
}

/// A copy of a sequence of expressions.
fn copies(list: &Vec<Expr>) -> (r: Vec<Expr>)
    ensures
        terms(r@) == terms(list@),
{
    let mut r: Vec<Expr> = Vec::new();
    let mut i: usize = 0;
    while i < list.len()
        invariant
            i <= list.len(),
            r@.len() == i,
            forall|j: int| 0 <= j < i ==> r@[j]@ == list@[j]@,
        decreases list.len() - i,
    {
        r.push(duplicate(&list[i]));
        i += 1;
    }
    proof {
        assert(terms(r@) =~= terms(list@));
    }
    r
}

/// Encodes an expression as instructions of the stack machine.
#[verifier::loop_isolation(false)]
pub fn encode_ast(ast: &Expr) -> (r: VecDeque<StackInstruction>)
    ensures
        instructions(r@) == encoded(ast@),
    decreases ast,
{
    match ast {
        Expr::List(expressions) => {
            proof {
                lemma_list_term(*expressions);
            }
            let ghost items = terms(expressions@);
            let mut next_instructions: VecDeque<StackInstruction> = VecDeque::new();
            if expressions.len() == 0 {
                proof {
                    assert(instructions(next_instructions@) =~= encoded(ast@));
                }
                return next_instructions;
            }
            let car = &expressions[0];
            if is_define_keyword(car) || is_lambda_keyword(car) {
                next_instructions.push_front(StackInstruction::RawExec(copies(expressions)));
                proof {
                    assert(instructions(next_instructions@) =~= encoded(ast@));
                }
            } else {
                let mut seen = false;
                let mut i: usize = 1;
                proof {
                    assert(instructions(next_instructions@) =~= Seq::<Instruction>::empty());
                }
                while i < expressions.len()
                    invariant
                        1 <= i <= expressions.len(),
                        encoded_args(items, 1, Seq::empty(), false) == encoded_args(
                            items,
                            i as int,
                            instructions(next_instructions@),
                            seen,
                        ),
                    decreases expressions.len() - i,
                {
                    let ghost gathered = instructions(next_instructions@);
                    match &expressions[i] {
                        Expr::List(_) => {
                            let mut prepended = encode_ast(&expressions[i]);
                            prepended.append(&mut next_instructions);
                            next_instructions = prepended;
                            proof {
                                assert(instructions(next_instructions@) =~= encoded(items[i as int])
                                    + gathered);
                            }
                            if seen {
                                let ghost before = instructions(next_instructions@);
                                next_instructions.push_back(StackInstruction::Wait);
                                proof {
                                    assert(instructions(next_instructions@) =~= before.push(
                                        Instruction::Wait,
                                    ));
                                }
                            }
                            seen = true;
                        },
                        Expr::Atom(_) => {
                            next_instructions.push_back(
                                StackInstruction::Push(duplicate(&expressions[i])),
                            );
                            proof {
                                assert(instructions(next_instructions@) =~= gathered.push(
                                    Instruction::Push(items[i as int]),
                                ));
                            }
                        },
                    }
                    i += 1;
                }
                let ghost gathered = instructions(next_instructions@);
                next_instructions.push_back(StackInstruction::Exec(duplicate(car)));
                proof {
                    assert(instructions(next_instructions@) =~= gathered.push(
                        Instruction::Exec(items[0]),
                    ));
                }
            }
            next_instructions
        },
        Expr::Atom(_) => {
            let mut only: VecDeque<StackInstruction> = VecDeque::new();
            only.push_back(StackInstruction::Push(duplicate(ast)));
            proof {
                assert(instructions(only@) =~= encoded(ast@));
            }
            only
        },
    }
}

} // verus!
