//! The primitives on booleans.

use vstd::prelude::*;
use crate::env::{accords, descend, meets, Env, Eval};
use crate::error::EvalError;
use crate::model;
use crate::syntax::{terms, Atom, Expr, Term};

verus! {

/// The boolean that an expression is, or a type error.
pub fn try_get_bool(expr: &Expr) -> (r: Result<bool, EvalError>)
    ensures
        match r {
            Ok(b) => expr@ == Term::Boolean(b),
            Err(error) => !(expr@ is Boolean) && error@ == crate::error::Failure::TypeError,
        },
{
    match expr {
        Expr::Atom(atom) => match &**atom {
            Atom::Boolean(b) => Ok(*b),
            _ => Err(EvalError::TypeError),
        },
        Expr::List(_) => Err(EvalError::TypeError),
    }
}

/// Evaluates every argument and gathers the conjunction, where `all` holds,
/// or the disjunction of their values.
#[verifier::loop_isolation(false)]
fn fold_bool(env: &mut Env, args: &Vec<Expr>, all: bool, depth: usize) -> (r: Result<
    Expr,
    EvalError,
>)
    ensures
        meets(
            r,
            *old(env),
            *final(env),
            model::fold_bool(old(env)@, terms(args@), 0, all, all, depth as nat),
        ),
    decreases depth, 3int, 0int,
{
    let ghost start = *env;
    let ghost items = terms(args@);
    let mut bool_result = all;
    let mut i: usize = 0;
    while i < args.len()
        invariant
            i <= args.len(),
            items == terms(args@),
            env@.locals.len() == start@.locals.len(),
            env.limit() == start.limit(),
            model::fold_bool(start@, items, 0, all, all, depth as nat) == model::fold_bool(
                env@,
                items,
                i as int,
                bool_result,
                all,
                depth as nat,
            ),
        decreases args.len() - i,
    {
        match descend(env, &args[i], depth) {
            Ok(value) => match try_get_bool(&value) {
                Ok(b) => {
                    bool_result = if all {
                        bool_result && b
                    } else {
                        bool_result || b
                    };
                },
                Err(error) => {
                    return Err(error);
                },
            },
            Err(error) => {
                return Err(error);
            },
        }
        i += 1;
    }
    Ok(Expr::boolean(bool_result))
}

/// Whether all arguments are true; true where there is none.
pub fn and(env: &mut Env, args: &Vec<Expr>, depth: usize) -> (r: Result<Expr, EvalError>)
    ensures
        meets(r, *old(env), *final(env), model::and(old(env)@, terms(args@), depth as nat)),
    decreases depth, 4int, 0int,
{
    fold_bool(env, args, true, depth)
}

/// Whether any argument is true; false where there is none.
pub fn or(env: &mut Env, args: &Vec<Expr>, depth: usize) -> (r: Result<Expr, EvalError>)
    ensures
        meets(r, *old(env), *final(env), model::or(old(env)@, terms(args@), depth as nat)),
    decreases depth, 4int, 0int,
{
    fold_bool(env, args, false, depth)
}

/// The negation of the one argument.
pub fn not(env: &mut Env, args: &Vec<Expr>, depth: usize) -> (r: Result<Expr, EvalError>)
    ensures
        meets(r, *old(env), *final(env), model::not(old(env)@, terms(args@), depth as nat)),
    decreases depth, 4int, 0int,
{
    if args.len() != 1 {
        return Err(EvalError::ArityMismatch);
    }
    match descend(env, &args[0], depth) {
        Ok(value) => match try_get_bool(&value) {
            Ok(b) => Ok(Expr::boolean(!b)),
            Err(error) => Err(error),
        },
        Err(error) => Err(error),
    }
}

/// Whether the value of the one argument is an atom.
pub fn atom(env: &mut Env, args: &Vec<Expr>, depth: usize) -> (r: Result<Expr, EvalError>)
    ensures
        meets(r, *old(env), *final(env), model::atom(old(env)@, terms(args@), depth as nat)),
    decreases depth, 4int, 0int,
{
    if args.len() != 1 {
        return Err(EvalError::ArityMismatch);
    }
    match descend(env, &args[0], depth) {
        Ok(value) => match value {
            Expr::Atom(_) => Ok(Expr::boolean(true)),
            Expr::List(_) => Ok(Expr::boolean(false)),
        },
        Err(error) => Err(error),
    }
}

/// The value of the second argument where the first is true, of the third
/// where it is false.
pub fn if_op(env: &mut Env, args: &Vec<Expr>, depth: usize) -> (r: Result<Expr, EvalError>)
    ensures
        meets(r, *old(env), *final(env), model::if_op(old(env)@, terms(args@), depth as nat)),
    decreases depth, 4int, 0int,
{
    if args.len() != 3 {
        return Err(EvalError::ArityMismatch);
    }
    match descend(env, &args[0], depth) {
        Ok(value) => match try_get_bool(&value) {
            Ok(b) => if b {
                descend(env, &args[1], depth)
            } else {
                descend(env, &args[2], depth)
            },
            Err(error) => Err(error),
        },
        Err(error) => Err(error),
    }
}

/// The primitives on booleans, to the depth that the environment allows.
pub trait LogicOps: Eval {
    /// Whether all arguments are true; true where there is none.
    fn and(&mut self, args: &Vec<Expr>) -> (r: Result<Expr, EvalError>)
        ensures
            accords(
                r,
                old(self).world(),
                final(self).world(),
                model::and(old(self).world(), terms(args@), old(self).depth()),
            ),
            final(self).depth() == old(self).depth(),
    ;

    /// Whether any argument is true; false where there is none.
    fn or(&mut self, args: &Vec<Expr>) -> (r: Result<Expr, EvalError>)
        ensures
            accords(
                r,
                old(self).world(),
                final(self).world(),
                model::or(old(self).world(), terms(args@), old(self).depth()),
            ),
            final(self).depth() == old(self).depth(),
    ;

    /// The negation of the one argument.
    fn not(&mut self, args: &Vec<Expr>) -> (r: Result<Expr, EvalError>)
        ensures
            accords(
                r,
                old(self).world(),
                final(self).world(),
                model::not(old(self).world(), terms(args@), old(self).depth()),
            ),
            final(self).depth() == old(self).depth(),
    ;

    /// Whether the value of the one argument is an atom.
    fn atom(&mut self, args: &Vec<Expr>) -> (r: Result<Expr, EvalError>)
        ensures
            accords(
                r,
                old(self).world(),
                final(self).world(),
                model::atom(old(self).world(), terms(args@), old(self).depth()),
            ),
            final(self).depth() == old(self).depth(),
    ;

    /// The value of the second argument where the first is true, of the
    /// third where it is false.
    fn if_op(&mut self, args: &Vec<Expr>) -> (r: Result<Expr, EvalError>)
        ensures
            accords(
                r,
                old(self).world(),
                final(self).world(),
                model::if_op(old(self).world(), terms(args@), old(self).depth()),
            ),
            final(self).depth() == old(self).depth(),
    ;
}

impl LogicOps for Env {
    fn and(&mut self, args: &Vec<Expr>) -> (r: Result<Expr, EvalError>) {
        let depth = self.depth_limit();
        and(self, args, depth)
    }

    fn or(&mut self, args: &Vec<Expr>) -> (r: Result<Expr, EvalError>) {
        let depth = self.depth_limit();
        or(self, args, depth)
    }

    fn not(&mut self, args: &Vec<Expr>) -> (r: Result<Expr, EvalError>) {
        let depth = self.depth_limit();
        not(self, args, depth)
    }

    fn atom(&mut self, args: &Vec<Expr>) -> (r: Result<Expr, EvalError>) {
        let depth = self.depth_limit();
        atom(self, args, depth)
    }

    fn if_op(&mut self, args: &Vec<Expr>) -> (r: Result<Expr, EvalError>) {
        let depth = self.depth_limit();
        if_op(self, args, depth)
    }
}

} // verus!
