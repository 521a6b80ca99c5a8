//! A machine that evaluates an expression from its encoding as stack
//! instructions.

use vstd::prelude::*;
use std::collections::VecDeque;
use crate::env::{failure, outcome, Env, Eval};
use crate::error::{EvalError, Failure};
use crate::model;
use crate::model::World;
use crate::stack_encode::{instructions, Instruction, StackInstruction};
use crate::syntax::{terms, Expr, Term};

verus! {

/// The machine: the frames of arguments, the innermost first, the
/// environment in which calls are evaluated, and the instructions that are
/// still to be run.
pub struct StackMachine {
    pub arg_stack: VecDeque<VecDeque<Expr>>,
    pub environment: Env,
    pub instructions: VecDeque<StackInstruction>,
}

/// The mathematical model of a [`StackMachine`].
pub ghost struct Machine {
    pub frames: Seq<Seq<Term>>,
    pub world: World,
    pub pending: Seq<Instruction>,
}

/// The frames that a sequence of argument queues stands for.
pub open spec fn frames_of(stack: Seq<VecDeque<Expr>>) -> Seq<Seq<Term>> {
    Seq::new(stack.len(), |i: int| terms(stack[i]@))
}

impl View for StackMachine {
    type V = Machine;

    open spec fn view(&self) -> Machine {
        Machine {
            frames: frames_of(self.arg_stack@),
            world: self.environment@,
            pending: instructions(self.instructions@),
        }
    }
}

/// The frames with one more argument at the end of the innermost, which is
/// opened where there is none.
pub open spec fn with_argument(frames: Seq<Seq<Term>>, term: Term) -> Seq<Seq<Term>> {
    if frames.len() == 0 {
        seq![seq![term]]
    } else {
        seq![frames[0].push(term)] + frames.skip(1)
    }
}

/// The frames below the innermost.
pub open spec fn below(frames: Seq<Seq<Term>>) -> Seq<Seq<Term>> {
    if frames.len() == 0 {
        frames
    } else {
        frames.skip(1)
    }
}

/// The call that is made of a head and the arguments of the innermost frame.
pub open spec fn call_of(frames: Seq<Seq<Term>>, head: Seq<Term>) -> Seq<Term> {
    if frames.len() == 0 {
        head
    } else {
        head + frames[0]
    }
}

/// The machine after a call was evaluated: the innermost frame is taken off,
/// and the value, where there is one, is an argument of the frame below.
/// With it comes the failure of the call, if it failed.
pub open spec fn executed(machine: Machine, head: Seq<Term>, depth: nat) -> (
    Machine,
    Option<Failure>,
) {
    let (value, world) = model::eval_list(
        machine.world,
        call_of(machine.frames, head),
        depth,
    );
    match value {
        Ok(term) => (
            Machine { frames: with_argument(below(machine.frames), term), world, ..machine },
            None,
        ),
        Err(failure) => (Machine { frames: below(machine.frames), world, ..machine }, Some(failure)),
    }
}

/// The code of a step that made a call: 0, or the failure of the call.
pub open spec fn code_after(done: (Machine, Option<Failure>)) -> (Machine, Result<int, Failure>) {
    match done.1 {
        Some(failure) => (done.0, Err(failure)),
        None => (done.0, Ok(0)),
    }
}

/// The machine after its next instruction, and 0 where one was run, 1 where
/// none was left, or the failure of the call that the instruction made.
pub open spec fn step(machine: Machine, depth: nat) -> (Machine, Result<int, Failure>) {
    if machine.pending.len() == 0 {
        (machine, Ok(1))
    } else {
        let rest = Machine { pending: machine.pending.skip(1), ..machine };
        match machine.pending[0] {
            Instruction::Push(term) => (
                Machine { frames: with_argument(machine.frames, term), ..rest },
                Ok(0),
            ),
            Instruction::Wait => (
                Machine { frames: seq![Seq::empty()] + machine.frames, ..rest },
                Ok(0),
            ),
            Instruction::Exec(term) => code_after(executed(rest, seq![term], depth)),
            Instruction::RawExec(list) => code_after(executed(rest, list, depth)),
        }
    }
}

/// The machine after its result was taken: the first argument of the
/// innermost frame, which is taken off. An error where there is none.
pub open spec fn finished(machine: Machine) -> (Machine, Result<Term, Failure>) {
    if machine.frames.len() > 0 && machine.frames[0].len() > 0 {
        (Machine { frames: machine.frames.skip(1), ..machine }, Ok(machine.frames[0][0]))
    } else {
        (machine, Err(Failure::EmptyExpression))
    }
}

/// The machine after all its instructions, up to the first that fails, and
/// its result.
pub open spec fn run(machine: Machine, depth: nat) -> (Machine, Result<Term, Failure>)
    decreases machine.pending.len(),
{
    if machine.pending.len() == 0 {
        finished(machine)
    } else {
        let (next, code) = step(machine, depth);
        match code {
            Ok(_) => run(next, depth),
            Err(failure) => (next, Err(failure)),
        }
    }
}

/// The result that was taken, or the failure to take one.
pub open spec fn taken(r: Option<Expr>) -> Result<Term, Failure> {
    match r {
        Some(expr) => Ok(expr@),
        None => Err(Failure::EmptyExpression),
    }
}

/// The code or the failure that a result holds.
pub open spec fn code_of(r: Result<i32, EvalError>) -> Result<int, Failure> {
    match r {
        Ok(code) => Ok(code as int),
        Err(error) => Err(error@),
    }
}

/// The items of a queue, in order.
fn to_vec(queue: VecDeque<Expr>) -> (r: Vec<Expr>)
    ensures
        r@ == queue@,
{
    let mut queue = queue;
    let mut r: Vec<Expr> = Vec::new();
    let ghost all = queue@;
    while queue.len() > 0
        invariant
            r@ + queue@ == all,
        decreases queue.len(),
    {
        let ghost before = queue@;
        let ghost taken = r@;
        match queue.pop_front() {
            Some(item) => {
                r.push(item);
                proof {
                    assert(r@ + queue@ =~= taken + before);
                }
            },
            None => {},
        }
    }
    proof {
        assert(r@ + queue@ =~= r@);
    }
    r
}

impl StackMachine {
    /// A machine without frames and instructions.
    pub fn create(env: Env) -> (r: StackMachine)
        ensures
            r@ == (Machine { frames: Seq::empty(), world: env@, pending: Seq::empty() }),
            r.environment.limit() == env.limit(),
    {
        let r = StackMachine {
            arg_stack: VecDeque::new(),
            environment: env,
            instructions: VecDeque::new(),
        };
        proof {
            assert(r@.frames =~= Seq::empty());
            assert(r@.pending =~= Seq::empty());
        }
        r
    }

    /// Runs a stream of instructions, up to the first that fails, and takes
    /// the result.
    pub fn run_instructions(&mut self, stream: VecDeque<StackInstruction>) -> (r: Result<
        Expr,
        EvalError,
    >)
        ensures
            final(self).environment.limit() == old(self).environment.limit(),
            (final(self)@, outcome(r)) == run(
                Machine { pending: instructions(stream@), ..old(self)@ },
                old(self).environment.limit() as nat,
            ),
    {
        self.instructions = stream;
        let ghost start = self@;
        let ghost depth = self.environment.limit() as nat;
        loop
            invariant
                self.environment.limit() == depth,
                run(start, depth) == run(self@, depth),
                old(self).environment.limit() == depth,
                start == (Machine { pending: instructions(stream@), ..old(self)@ }),
            ensures
                self@.pending.len() == 0,
            decreases self.instructions.len(),
        {
            match self.next_instruction() {
                Ok(code) => {
                    if code != 0 {
                        break ;
                    }
                },
                Err(error) => {
                    return Err(error);
                },
            }
        }
        match self.get_result() {
            Some(result) => Ok(result),
            None => Err(EvalError::EmptyExpression),
        }
    }

    /// Runs the next instruction. The result is 0 where one was run, 1 where
    /// none was left, and the error of the call that the instruction made
    /// where that failed.
    pub fn next_instruction(&mut self) -> (r: Result<i32, EvalError>)
        ensures
            final(self).environment.limit() == old(self).environment.limit(),
            (final(self)@, code_of(r)) == step(old(self)@, old(self).environment.limit() as nat),
    {
        let ghost before = self.instructions@;
        let next = self.instructions.pop_front();
        proof {
            if before.len() > 0 {
                assert(instructions(self.instructions@) =~= instructions(before).skip(1));
            }
        }
        match next {
            Some(line) => match line {
                StackInstruction::Exec(cmd) => match self.exec_instr(cmd) {
                    Some(error) => Err(error),
                    None => Ok(0),
                },
                StackInstruction::RawExec(cmds) => match self.raw_exec_instr(cmds) {
                    Some(error) => Err(error),
                    None => Ok(0),
                },
                StackInstruction::Push(expr) => {
                    self.push_instr(expr);
                    Ok(0)
                },
                StackInstruction::Wait => {
                    self.wait_instr();
                    Ok(0)
                },
            },
            None => Ok(1),
        }
    }

    /// Opens a frame without arguments.
    fn wait_instr(&mut self)
        ensures
            final(self)@ == (Machine {
                frames: seq![Seq::empty()] + old(self)@.frames,
                ..old(self)@
            }),
            final(self).environment.limit() == old(self).environment.limit(),
    {
        let empty_vec: VecDeque<Expr> = VecDeque::new();
        self.arg_stack.push_front(empty_vec);
        proof {
            assert(terms(empty_vec@) =~= Seq::<Term>::empty());
            assert(self@.frames =~= seq![Seq::<Term>::empty()] + old(self)@.frames);
        }
    }

    /// Adds an argument to the innermost frame, which is opened where there
    /// is none.
    fn push_instr(&mut self, expr: Expr)
        ensures
            final(self)@ == (Machine {
                frames: with_argument(old(self)@.frames, expr@),
                ..old(self)@
            }),
            final(self).environment.limit() == old(self).environment.limit(),
    {
        let next_args = self.arg_stack.pop_front();
        match next_args {
            Some(mut args) => {
                let ghost before = args@;
                args.push_back(expr);
                self.arg_stack.push_front(args);
                proof {
                    assert(terms(args@) =~= terms(before).push(expr@));
                    assert(self@.frames =~= with_argument(old(self)@.frames, expr@));
                }
            },
            None => {
                let mut args: VecDeque<Expr> = VecDeque::new();
                args.push_back(expr);
                self.arg_stack.push_front(args);
                proof {
                    assert(terms(args@) =~= seq![expr@]);
                    assert(self@.frames =~= with_argument(old(self)@.frames, expr@));
                }
            },
        }
    }

    /// Takes the innermost frame off, evaluates the call of the given function
    /// on the arguments of that frame, and hands the value to the frame below.
    /// The result is the error of the call, if it failed.
    fn exec_instr(&mut self, expr: Expr) -> (r: Option<EvalError>)
        ensures
            final(self).environment.limit() == old(self).environment.limit(),
            (final(self)@, failure(r)) == executed(
                old(self)@,
                seq![expr@],
                old(self).environment.limit() as nat,
            ),
    {
        let mut head: Vec<Expr> = Vec::new();
        head.push(expr);
        proof {
            assert(terms(head@) =~= seq![expr@]);
        }
        self.raw_exec_instr(head)
    }

    /// Takes the innermost frame off, evaluates the call that is made of the
    /// given expressions and the arguments of that frame, and hands the
    /// value to the frame below. The result is the error of the call, if it
    /// failed.
    fn raw_exec_instr(&mut self, expr: Vec<Expr>) -> (r: Option<EvalError>)
        ensures
            final(self).environment.limit() == old(self).environment.limit(),
            (final(self)@, failure(r)) == executed(
                old(self)@,
                terms(expr@),
                old(self).environment.limit() as nat,
            ),
    {
        let next_args = self.arg_stack.pop_front();
        let call = match next_args {
            Some(args) => {
                let mut call = expr;
                let mut rest = to_vec(args);
                let ghost head = call@;
                let ghost tail = rest@;
                call.append(&mut rest);
                proof {
                    assert(terms(call@) =~= terms(head) + terms(tail));
                    assert(frames_of(self.arg_stack@) =~= below(old(self)@.frames));
                }
                call
            },
            None => {
                proof {
                    assert(frames_of(self.arg_stack@) =~= below(old(self)@.frames));
                }
                expr
            },
        };
        match self.environment.eval_list(&call) {
            Ok(result) => {
                self.push_return(result);
                None
            },
            Err(error) => Some(error),
        }
    }

    /// Hands a value to the innermost frame.
    fn push_return(&mut self, expr: Expr)
        ensures
            final(self)@ == (Machine {
                frames: with_argument(old(self)@.frames, expr@),
                ..old(self)@
            }),
            final(self).environment.limit() == old(self).environment.limit(),
    {
        self.push_instr(expr)
    }

    /// Takes the innermost frame off and gives its first argument; `None`,
    /// and the machine as it was, where there is no such argument.
    pub fn get_result(&mut self) -> (r: Option<Expr>)
        ensures
            final(self).environment.limit() == old(self).environment.limit(),
            (final(self)@, taken(r)) == finished(old(self)@),
    {
        if self.arg_stack.len() == 0 || self.arg_stack[0].len() == 0 {
            return None;
        }
        let front = self.arg_stack.pop_front();
        proof {
            assert(frames_of(self.arg_stack@) =~= old(self)@.frames.skip(1));
        }
        match front {
            Some(mut frame) => frame.pop_front(),
            None => None,
        }
    }
}

} // verus!
