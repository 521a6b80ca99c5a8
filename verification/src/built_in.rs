//! The primitives that define, quote and take lists apart.

use vstd::prelude::*;
use crate::env::{accords, descend, expr_is_string, failure, follows, meets, Env, Eval};
use crate::error::{EvalError, Failure};
use crate::lex::{chunk_file, parse, texts, trim_quotes};
use crate::model;
use crate::syntax::{duplicate, lemma_list_term, print_tree, terms, Atom, Expr, Term};

verus! {

/// The name of the symbol that an expression is, or a type error.
pub fn try_get_symbol_string(expr: &Expr) -> (r: Result<String, EvalError>)
    ensures
        match r {
            Ok(name) => expr@ == Term::Symbol(name@),
            Err(error) => !(expr@ is Symbol) && error@ == Failure::TypeError,
        },
{
    match expr {
        Expr::Atom(atom) => match &**atom {
            Atom::Symbol(s) => Ok(s.clone()),
            _ => Err(EvalError::TypeError),
        },
        Expr::List(_) => Err(EvalError::TypeError),
    }
}

/// Binds a symbol to an expression, as it stands, in the global scope.
pub fn define(env: &mut Env, expr: &Vec<Expr>) -> (r: Result<Expr, EvalError>)
    ensures
        meets(r, *old(env), *final(env), model::define(old(env)@, terms(expr@))),
{
    if expr.len() != 2 {
        return Err(EvalError::ArityMismatch);
    }
    match try_get_symbol_string(&expr[0]) {
        Ok(name) => {
            if !expr_is_string(&expr[1], name.as_str()) {
                env.bind_global(name.clone(), duplicate(&expr[1]));
            }
            Ok(Expr::symbol(name))
        },
        Err(error) => Err(error),
    }
}

/// The one argument, as it stands.
pub fn quote(env: &mut Env, expr: &Vec<Expr>) -> (r: Result<Expr, EvalError>)
    ensures
        meets(r, *old(env), *final(env), model::quote(old(env)@, terms(expr@))),
{
    if expr.len() != 1 {
        Err(EvalError::ArityMismatch)
    } else {
        Ok(duplicate(&expr[0]))
    }
}

/// The printed form of an atom, as a text; a type error for a list.
pub fn string_exp(expr: &Expr) -> (r: Result<Expr, EvalError>)
    ensures
        crate::env::outcome(r) == model::string_exp(expr@),
{
    match expr {
        Expr::Atom(_) => Ok(Expr::text(print_tree(expr, &false))),
        Expr::List(_) => Err(EvalError::TypeError),
    }
}

/// The printed form of the value of the one argument, as a text.
pub fn string(env: &mut Env, expr: &Vec<Expr>, depth: usize) -> (r: Result<Expr, EvalError>)
    ensures
        meets(r, *old(env), *final(env), model::string(old(env)@, terms(expr@), depth as nat)),
    decreases depth, 4int, 0int,
{
    if expr.len() != 1 {
        return Err(EvalError::ArityMismatch);
    }
    match descend(env, &expr[0], depth) {
        Ok(value) => string_exp(&value),
        Err(error) => Err(error),
    }
}

/// The first item of a list.
pub fn car_exp(expr: &Expr) -> (r: Result<Expr, EvalError>)
    ensures
        crate::env::outcome(r) == model::car_exp(expr@),
{
    match expr {
        Expr::Atom(_) => Err(EvalError::NotAList),
        Expr::List(list) => {
            proof {
                lemma_list_term(*list);
            }
            if list.len() == 0 {
                Err(EvalError::EmptyList)
            } else {
                Ok(duplicate(&list[0]))
            }
        },
    }
}

/// The list of the items after the first.
pub fn cdr_exp(expr: &Expr) -> (r: Result<Expr, EvalError>)
    ensures
        crate::env::outcome(r) == model::cdr_exp(expr@),
{
    match expr {
        Expr::Atom(_) => Err(EvalError::NotAList),
        Expr::List(list) => {
            proof {
                lemma_list_term(*list);
            }
            let mut rest: Vec<Expr> = Vec::new();
            let mut i: usize = 1;
            while i < list.len()
                invariant
                    1 <= i,
                    i <= list.len() || i == 1,
                    rest@.len() == i - 1,
                    forall|j: int| 0 <= j < rest@.len() ==> rest@[j]@ == list@[j + 1]@,
                decreases list.len() - i,
            {
                rest.push(duplicate(&list[i]));
                i += 1;
            }
            proof {
                if list.len() == 0 {
                    assert(terms(rest@) =~= terms(list@));
                } else {
                    assert(terms(rest@) =~= terms(list@).skip(1));
                }
            }
            Ok(Expr::list(rest))
        },
    }
}

/// The first item of the value of the one argument.
pub fn car(env: &mut Env, expr: &Vec<Expr>, depth: usize) -> (r: Result<Expr, EvalError>)
    ensures
        meets(r, *old(env), *final(env), model::car(old(env)@, terms(expr@), depth as nat)),
    decreases depth, 4int, 0int,
{
    if expr.len() != 1 {
        return Err(EvalError::ArityMismatch);
    }
    match descend(env, &expr[0], depth) {
        Ok(value) => car_exp(&value),
        Err(error) => Err(error),
    }
}

/// The items after the first of the value of the one argument.
pub fn cdr(env: &mut Env, expr: &Vec<Expr>, depth: usize) -> (r: Result<Expr, EvalError>)
    ensures
        meets(r, *old(env), *final(env), model::cdr(old(env)@, terms(expr@), depth as nat)),
    decreases depth, 4int, 0int,
{
    if expr.len() != 1 {
        return Err(EvalError::ArityMismatch);
    }
    match descend(env, &expr[0], depth) {
        Ok(value) => cdr_exp(&value),
        Err(error) => Err(error),
    }
}

/// The lambda whose parameters the first argument gives and whose body is
/// the second.
pub fn lambda(env: &mut Env, expr: &Vec<Expr>) -> (r: Result<Expr, EvalError>)
    ensures
        meets(r, *old(env), *final(env), model::lambda(old(env)@, terms(expr@))),
{
    if expr.len() != 2 {
        return Err(EvalError::ArityMismatch);
    }
    let params = match &expr[0] {
        Expr::Atom(_) => {
            let mut one: Vec<Expr> = Vec::new();
            one.push(duplicate(&expr[0]));
            proof {
                assert(terms(one@) =~= seq![expr@[0]@]);
            }
            one
        },
        Expr::List(list) => {
            proof {
                lemma_list_term(*list);
            }
            let mut all: Vec<Expr> = Vec::new();
            let mut i: usize = 0;
            while i < list.len()
                invariant
                    i <= list.len(),
                    all@.len() == i,
                    forall|j: int| 0 <= j < i ==> all@[j]@ == list@[j]@,
                decreases list.len() - i,
            {
                all.push(duplicate(&list[i]));
                i += 1;
            }
            proof {
                assert(terms(all@) =~= terms(list@));
            }
            all
        },
    };
    Ok(Expr::lambda(params, duplicate(&expr[1])))
}

/// The text that is the value of an expression; a type error for any other
/// value.
pub fn string_or_else(env: &mut Env, expr: &Expr, depth: usize) -> (r: Result<String, EvalError>)
    ensures
        match r {
            Ok(text) => model::string_or_else(old(env)@, expr@, depth as nat).0 == Ok::<
                Seq<char>,
                Failure,
            >(text@),
            Err(error) => model::string_or_else(old(env)@, expr@, depth as nat).0 == Err::<
                Seq<char>,
                Failure,
            >(error@),
        },
        follows(
            *old(env),
            *final(env),
            model::string_or_else(old(env)@, expr@, depth as nat).1,
        ),
    decreases depth, 3int, 0int,
{
    match descend(env, expr, depth) {
        Ok(value) => match value {
            Expr::Atom(atom) => match *atom {
                Atom::StringLiteral(s) => Ok(s),
                _ => Err(EvalError::TypeError),
            },
            Expr::List(_) => Err(EvalError::TypeError),
        },
        Err(error) => Err(error),
    }
}

/// Reads and evaluates chunks, in order, up to the first that fails.
#[verifier::loop_isolation(false)]
fn run_chunks(env: &mut Env, chunks: &Vec<String>, depth: usize) -> (r: Option<EvalError>)
    ensures
        failure(r) == model::run_chunks(old(env)@, texts(chunks@), 0, depth as nat).0,
        follows(
            *old(env),
            *final(env),
            model::run_chunks(old(env)@, texts(chunks@), 0, depth as nat).1,
        ),
    decreases depth, 3int, 0int,
{
    let ghost start = *env;
    let ghost all = texts(chunks@);
    let mut i: usize = 0;
    while i < chunks.len()
        invariant
            i <= chunks.len(),
            all == texts(chunks@),
            env@.locals.len() == start@.locals.len(),
            env.limit() == start.limit(),
            model::run_chunks(start@, all, 0, depth as nat) == model::run_chunks(
                env@,
                all,
                i as int,
                depth as nat,
            ),
        decreases chunks.len() - i,
    {
        match parse(&chunks[i]) {
            Ok(expr) => match descend(env, &expr, depth) {
                Ok(_) => {},
                Err(error) => {
                    return Some(error);
                },
            },
            Err(error) => {
                return Some(error);
            },
        }
        i += 1;
    }
    None
}

/// Evaluates, one after the other, the expressions in the file that the one
/// argument names.
pub fn load(env: &mut Env, expr: &Vec<Expr>, depth: usize) -> (r: Result<Expr, EvalError>)
    ensures
        meets(r, *old(env), *final(env), model::load(old(env)@, terms(expr@), depth as nat)),
    decreases depth, 4int, 0int,
{
    if expr.len() != 1 {
        return Err(EvalError::ArityMismatch);
    }
    match string_or_else(env, &expr[0], depth) {
        Ok(name) => {
            let path = trim_quotes(&name);
            match env.file_text(path.as_str()) {
                Some(text) => {
                    let chunks = chunk_file(&text);
                    match run_chunks(env, &chunks, depth) {
                        Some(error) => Err(error),
                        None => Ok(Expr::text(name)),
                    }
                },
                None => Err(EvalError::FileUnavailable(path)),
            }
        },
        Err(error) => Err(error),
    }
}

/// The primitives that define, quote and take lists apart, to the depth
/// that the environment allows.
pub trait EnvPrimitives: Eval {
    /// Binds a symbol to an expression, as it stands, in the global scope.
    fn define(&mut self, expr: &Vec<Expr>) -> (r: Result<Expr, EvalError>)
        ensures
            accords(
                r,
                old(self).world(),
                final(self).world(),
                model::define(old(self).world(), terms(expr@)),
            ),
            final(self).depth() == old(self).depth(),
    ;

    /// Evaluates the expressions in the file that the one argument names.
    fn load(&mut self, expr: &Vec<Expr>) -> (r: Result<Expr, EvalError>)
        ensures
            accords(
                r,
                old(self).world(),
                final(self).world(),
                model::load(old(self).world(), terms(expr@), old(self).depth()),
            ),
            final(self).depth() == old(self).depth(),
    ;

    /// The one argument, as it stands.
    fn quote(&mut self, expr: &Vec<Expr>) -> (r: Result<Expr, EvalError>)
        ensures
            accords(
                r,
                old(self).world(),
                final(self).world(),
                model::quote(old(self).world(), terms(expr@)),
            ),
            final(self).depth() == old(self).depth(),
    ;

    /// The printed form of the value of the one argument, as a text.
    fn string(&mut self, expr: &Vec<Expr>) -> (r: Result<Expr, EvalError>)
        ensures
            accords(
                r,
                old(self).world(),
                final(self).world(),
                model::string(old(self).world(), terms(expr@), old(self).depth()),
            ),
            final(self).depth() == old(self).depth(),
    ;

    /// The first item of the value of the one argument.
    fn car(&mut self, expr: &Vec<Expr>) -> (r: Result<Expr, EvalError>)
        ensures
            accords(
                r,
                old(self).world(),
                final(self).world(),
                model::car(old(self).world(), terms(expr@), old(self).depth()),
            ),
            final(self).depth() == old(self).depth(),
    ;

    /// The items after the first of the value of the one argument.
    fn cdr(&mut self, expr: &Vec<Expr>) -> (r: Result<Expr, EvalError>)
        ensures
            accords(
                r,
                old(self).world(),
                final(self).world(),
                model::cdr(old(self).world(), terms(expr@), old(self).depth()),
            ),
            final(self).depth() == old(self).depth(),
    ;

    /// The lambda that the two arguments describe.
    fn lambda(&mut self, expr: &Vec<Expr>) -> (r: Result<Expr, EvalError>)
        ensures
            accords(
                r,
                old(self).world(),
                final(self).world(),
                model::lambda(old(self).world(), terms(expr@)),
            ),
            final(self).depth() == old(self).depth(),
    ;
}

impl EnvPrimitives for Env {
    fn define(&mut self, expr: &Vec<Expr>) -> (r: Result<Expr, EvalError>) {
        define(self, expr)
    }

    fn load(&mut self, expr: &Vec<Expr>) -> (r: Result<Expr, EvalError>) {
        let depth = self.depth_limit();
        load(self, expr, depth)
    }

    fn quote(&mut self, expr: &Vec<Expr>) -> (r: Result<Expr, EvalError>) {
        quote(self, expr)
    }

    fn string(&mut self, expr: &Vec<Expr>) -> (r: Result<Expr, EvalError>) {
        let depth = self.depth_limit();
        string(self, expr, depth)
    }

    fn car(&mut self, expr: &Vec<Expr>) -> (r: Result<Expr, EvalError>) {
        let depth = self.depth_limit();
        car(self, expr, depth)
    }

    fn cdr(&mut self, expr: &Vec<Expr>) -> (r: Result<Expr, EvalError>) {
        let depth = self.depth_limit();
        cdr(self, expr, depth)
    }

    fn lambda(&mut self, expr: &Vec<Expr>) -> (r: Result<Expr, EvalError>) {
        lambda(self, expr)
    }
}

} // verus!
