//! The primitives that ask the outside for something: what is to be
//! printed or written is noted in the environment, and the text of a file is
//! taken from those that the environment has at hand.

use vstd::prelude::*;
use crate::built_in::string_or_else;
use crate::env::{accords, descend, meets, Effect, Env, Eval};
use crate::error::EvalError;
use crate::lex::trim_quotes;
use crate::model;
use crate::syntax::{terms, Atom, Expr};
use crate::text::push_char;

verus! {

/// The text of the file that the one argument names.
pub fn slurp(env: &mut Env, expr: &Vec<Expr>, depth: usize) -> (r: Result<Expr, EvalError>)
    ensures
        meets(r, *old(env), *final(env), model::slurp(old(env)@, terms(expr@), depth as nat)),
    decreases depth, 4int, 0int,
{
    if expr.len() != 1 {
        return Err(EvalError::ArityMismatch);
    }
    match string_or_else(env, &expr[0], depth) {
        Ok(name) => {
            let path = trim_quotes(&name);
            match env.file_text(path.as_str()) {
                Some(text) => Ok(Expr::text(text)),
                None => Err(EvalError::FileUnavailable(path)),
            }
        },
        Err(error) => Err(error),
    }
}

/// Asks for the second argument to be written to the file that the first
/// names.
pub fn write(env: &mut Env, expr: &Vec<Expr>, depth: usize) -> (r: Result<Expr, EvalError>)
    ensures
        meets(r, *old(env), *final(env), model::write(old(env)@, terms(expr@), depth as nat)),
    decreases depth, 4int, 0int,
{
    if expr.len() != 2 {
        return Err(EvalError::ArityMismatch);
    }
    let name = match descend(env, &expr[0], depth) {
        Ok(value) => match value {
            Expr::Atom(atom) => match *atom {
                Atom::StringLiteral(s) => s,
                _ => {
                    return Err(EvalError::TypeError);
                },
            },
            Expr::List(_) => {
                return Err(EvalError::TypeError);
            },
        },
        Err(error) => {
            return Err(error);
        },
    };
    let content = match descend(env, &expr[1], depth) {
        Ok(value) => match value {
            Expr::Atom(atom) => match *atom {
                Atom::StringLiteral(s) => s,
                _ => {
                    return Err(EvalError::TypeError);
                },
            },
            Expr::List(_) => {
                return Err(EvalError::TypeError);
            },
        },
        Err(error) => {
            return Err(error);
        },
    };
    env.emit(Effect::Write(trim_quotes(&name), content));
    Ok(Expr::nil())
}

/// Asks for the text that is the value of the one argument to be printed,
/// with a line feed after it where `line` holds.
fn print_text(env: &mut Env, expr: &Vec<Expr>, line: bool, depth: usize) -> (r: Result<
    Expr,
    EvalError,
>)
    ensures
        meets(
            r,
            *old(env),
            *final(env),
            model::print_text(old(env)@, terms(expr@), line, depth as nat),
        ),
    decreases depth, 4int, 0int,
{
    if expr.len() != 1 {
        return Err(EvalError::ArityMismatch);
    }
    match string_or_else(env, &expr[0], depth) {
        Ok(text) => {
            let mut text = text;
            if line {
                push_char(&mut text, '\n');
            }
            env.emit(Effect::Print(text));
            Ok(Expr::nil())
        },
        Err(error) => Err(error),
    }
}

/// Asks for a text to be printed.
pub fn print(env: &mut Env, expr: &Vec<Expr>, depth: usize) -> (r: Result<Expr, EvalError>)
    ensures
        meets(r, *old(env), *final(env), model::print(old(env)@, terms(expr@), depth as nat)),
    decreases depth, 5int, 0int,
{
    print_text(env, expr, false, depth)
}

/// Asks for a text and a line feed to be printed.
pub fn println(env: &mut Env, expr: &Vec<Expr>, depth: usize) -> (r: Result<Expr, EvalError>)
    ensures
        meets(r, *old(env), *final(env), model::println(old(env)@, terms(expr@), depth as nat)),
    decreases depth, 5int, 0int,
{
    print_text(env, expr, true, depth)
}

/// The primitives that ask the outside for something, to the depth that the
/// environment allows.
pub trait EnvSys: Eval {
    /// The text of the file that the one argument names.
    fn slurp(&mut self, expr: &Vec<Expr>) -> (r: Result<Expr, EvalError>)
        ensures
            accords(
                r,
                old(self).world(),
                final(self).world(),
                model::slurp(old(self).world(), terms(expr@), old(self).depth()),
            ),
            final(self).depth() == old(self).depth(),
    ;

    /// Asks for the second argument to be written to the file that the first names.
    fn write(&mut self, expr: &Vec<Expr>) -> (r: Result<Expr, EvalError>)
        ensures
            accords(
                r,
                old(self).world(),
                final(self).world(),
                model::write(old(self).world(), terms(expr@), old(self).depth()),
            ),
            final(self).depth() == old(self).depth(),
    ;

    /// Asks for a text to be printed.
    fn print(&mut self, expr: &Vec<Expr>) -> (r: Result<Expr, EvalError>)
        ensures
            accords(
                r,
                old(self).world(),
                final(self).world(),
                model::print(old(self).world(), terms(expr@), old(self).depth()),
            ),
            final(self).depth() == old(self).depth(),
    ;

    /// Asks for a text and a line feed to be printed.
    fn println(&mut self, expr: &Vec<Expr>) -> (r: Result<Expr, EvalError>)
        ensures
            accords(
                r,
                old(self).world(),
                final(self).world(),
                model::println(old(self).world(), terms(expr@), old(self).depth()),
            ),
            final(self).depth() == old(self).depth(),
    ;
}

impl EnvSys for Env {
    fn slurp(&mut self, expr: &Vec<Expr>) -> (r: Result<Expr, EvalError>) {
        let depth = self.depth_limit();
        slurp(self, expr, depth)
    }

    fn write(&mut self, expr: &Vec<Expr>) -> (r: Result<Expr, EvalError>) {
        let depth = self.depth_limit();
        write(self, expr, depth)
    }

    fn print(&mut self, expr: &Vec<Expr>) -> (r: Result<Expr, EvalError>) {
        let depth = self.depth_limit();
        print(self, expr, depth)
    }

    fn println(&mut self, expr: &Vec<Expr>) -> (r: Result<Expr, EvalError>) {
        let depth = self.depth_limit();
        println(self, expr, depth)
    }
}

} // verus!
