//! The primitives on numbers, and equality.

use vstd::prelude::*;
use crate::decimal::{
    exact_difference,
    exact_product,
    exact_sum,
    lemma_same_number_chain,
    lemma_same_number_itself,
    lemma_same_number_results,
    same_number,
    Decimal,
};
use crate::env::{accords, descend, meets, Env, Eval};
use crate::error::{EvalError, Failure};
use crate::model;
use crate::model::{Arith, World};
use crate::syntax::{expressions_equal, terms, Atom, Expr, Term};

verus! {

/// The number that an expression is, or a type error.
pub fn try_get_number(expr: Expr) -> (r: Result<Decimal, EvalError>)
    ensures
        match r {
            Ok(n) => expr@ == Term::Number(n@),
            Err(error) => !(expr@ is Number) && error@ == Failure::TypeError,
        },
{
    match expr {
        Expr::Atom(atom) => match *atom {
            Atom::Number(n) => Ok(n),
            _ => Err(EvalError::TypeError),
        },
        Expr::List(_) => Err(EvalError::TypeError),
    }
}

/// Whether an operation gives a result of the exact value at a scale that
/// the operands fix: sums, differences and products do; a quotient is
/// rounded, and a remainder is stated as it is.
pub open spec fn is_exact(op: Arith) -> bool {
    op is Sum || op is Difference || op is Product
}

/// The sum, the difference or the product of two numbers.
pub open spec fn exact(op: Arith, a: (int, int), b: (int, int)) -> (int, int) {
    match op {
        Arith::Sum => exact_sum(a, b),
        Arith::Difference => exact_difference(a, b),
        _ => exact_product(a, b),
    }
}

/// What an exact operation makes, from left to right, of `gathered` and of
/// the numbers that the arguments from index `from` on evaluate to; `None`
/// where an argument does not evaluate to a number.
pub open spec fn exact_fold(
    world: World,
    args: Seq<Term>,
    from: int,
    gathered: (int, int),
    op: Arith,
    depth: nat,
) -> Option<(int, int)>
    decreases args.len() - from,
{
    if from < 0 || from >= args.len() {
        Some(gathered)
    } else {
        match model::descend(world, args[from], depth) {
            (Ok(Term::Number(n)), after) => exact_fold(
                after,
                args,
                from + 1,
                exact(op, gathered, n),
                op,
                depth,
            ),
            _ => None,
        }
    }
}

/// What an exact operation that has an inverse makes of the numbers that
/// the arguments evaluate to: of one the operation on `unit` and it, of
/// several the fold from the first over the others.
pub open spec fn exact_neg(
    world: World,
    args: Seq<Term>,
    op: Arith,
    unit: (int, int),
    depth: nat,
) -> Option<(int, int)> {
    if args.len() == 0 {
        None
    } else {
        match model::descend(world, args[0], depth) {
            (Ok(Term::Number(first)), after) => if args.len() > 1 {
                exact_fold(after, args, 1, first, op, depth)
            } else {
                Some(exact(op, unit, first))
            },
            _ => None,
        }
    }
}

/// Whether a result, where it is a value, is a number that has the value of
/// the given total.
pub open spec fn has_value(r: Result<Expr, EvalError>, total: Option<(int, int)>) -> bool {
    r matches Ok(value) ==> total is Some && value@ is Number && same_number(
        value@->Number_0,
        total->0,
    )
}

/// What an operation makes of two numbers.
pub fn combine(op: Arith, a: &Decimal, b: &Decimal) -> (r: Result<Decimal, EvalError>)
    ensures
        match r {
            Ok(n) => model::combine(op, a@, b@) == Ok::<(int, int), Failure>(n@),
            Err(error) => model::combine(op, a@, b@) == Err::<(int, int), Failure>(error@),
        },
        is_exact(op) ==> (r matches Ok(n) ==> same_number(n@, exact(op, a@, b@))),
{
    proof {
        if op is Difference {
            lemma_same_number_itself(exact_difference(a@, b@));
        }
    }
    let result = match op {
        Arith::Sum => a.plus(b),
        Arith::Difference => a.minus(b),
        Arith::Product => a.times(b),
        Arith::Quotient => {
            return a.divided_by(b);
        },
        Arith::Remainder => {
            return a.modulo(b);
        },
    };
    match result {
        Some(n) => Ok(n),
        None => Err(EvalError::NumberOutOfRange),
    }
}

/// Whether the values of all arguments equal that of the first.
#[verifier::loop_isolation(false)]
pub fn eq(env: &mut Env, args: &Vec<Expr>, depth: usize) -> (r: Result<Expr, EvalError>)
    ensures
        meets(r, *old(env), *final(env), model::eq(old(env)@, terms(args@), depth as nat)),
    decreases depth, 4int, 0int,
{
    if args.len() == 0 {
        return Err(EvalError::ArityMismatch);
    }
    let first = match descend(env, &args[0], depth) {
        Ok(value) => value,
        Err(error) => {
            return Err(error);
        },
    };
    let ghost start = *env;
    let ghost items = terms(args@);
    let mut is_eq = true;
    let mut i: usize = 1;
    while i < args.len()
        invariant
            1 <= i <= args.len(),
            items == terms(args@),
            env@.locals.len() == start@.locals.len(),
            env.limit() == start.limit(),
            model::fold_equal(start@, items, 1, first@, true, depth as nat) == model::fold_equal(
                env@,
                items,
                i as int,
                first@,
                is_eq,
                depth as nat,
            ),
        decreases args.len() - i,
    {
        match descend(env, &args[i], depth) {
            Ok(value) => {
                let same = expressions_equal(&first, &value);
                is_eq = is_eq && same;
            },
            Err(error) => {
                return Err(error);
            },
        }
        i += 1;
    }
    Ok(Expr::boolean(is_eq))
}

/// Folds an operation over the values of the arguments from index `from`
/// on, from left to right, starting with `car`.
#[verifier::loop_isolation(false)]
pub fn apply_first_rest(
    env: &mut Env,
    car: Decimal,
    args: &Vec<Expr>,
    from: usize,
    op: Arith,
    depth: usize,
) -> (r: Result<Expr, EvalError>)
    ensures
        meets(
            r,
            *old(env),
            *final(env),
            model::fold_numbers(old(env)@, terms(args@), from as int, car@, op, depth as nat),
        ),
        is_exact(op) ==> has_value(
            r,
            exact_fold(old(env)@, terms(args@), from as int, car@, op, depth as nat),
        ),
    decreases depth, 3int, 0int,
{
    let ghost start = *env;
    let ghost items = terms(args@);
    let ghost first = car@;
    let ghost mut exactly = car@;
    let mut total = car;
    let mut i: usize = from;
    proof {
        lemma_same_number_itself(first);
    }
    while i < args.len()
        invariant
            from <= i,
            i <= args.len() || i == from,
            items == terms(args@),
            env@.locals.len() == start@.locals.len(),
            env.limit() == start.limit(),
            model::fold_numbers(start@, items, from as int, first, op, depth as nat)
                == model::fold_numbers(env@, items, i as int, total@, op, depth as nat),
            is_exact(op) ==> same_number(total@, exactly),
            is_exact(op) ==> exact_fold(start@, items, from as int, first, op, depth as nat)
                == exact_fold(env@, items, i as int, exactly, op, depth as nat),
        decreases args.len() - i,
    {
        match descend(env, &args[i], depth) {
            Ok(value) => match try_get_number(value) {
                Ok(n) => match combine(op, &total, &n) {
                    Ok(next) => {
                        proof {
                            if is_exact(op) {
                                lemma_same_number_results(total@, exactly, n@);
                                lemma_same_number_chain(
                                    next@,
                                    exact(op, total@, n@),
                                    exact(op, exactly, n@),
                                );
                            }
                            exactly = exact(op, exactly, n@);
                        }
                        total = next;
                    },
                    Err(error) => {
                        return Err(error);
                    },
                },
                Err(error) => {
                    return Err(error);
                },
            },
            Err(error) => {
                return Err(error);
            },
        }
        i += 1;
    }
    Ok(Expr::number(total))
}

/// An operation that has an inverse: of one argument the operation on
/// `unit` and the argument, of several the fold from the first over the
/// others.
pub fn apply_neg_op(env: &mut Env, args: &Vec<Expr>, op: Arith, unit: Decimal, depth: usize) -> (r:
    Result<Expr, EvalError>)
    ensures
        meets(
            r,
            *old(env),
            *final(env),
            model::apply_neg_op(old(env)@, terms(args@), op, unit@, depth as nat),
        ),
        is_exact(op) ==> has_value(
            r,
            exact_neg(old(env)@, terms(args@), op, unit@, depth as nat),
        ),
    decreases depth, 4int, 0int,
{
    if args.len() == 0 {
        return Err(EvalError::ArityMismatch);
    }
    match descend(env, &args[0], depth) {
        Ok(value) => match try_get_number(value) {
            Ok(first) => {
                if args.len() > 1 {
                    apply_first_rest(env, first, args, 1, op, depth)
                } else {
                    match combine(op, &unit, &first) {
                        Ok(result) => Ok(Expr::number(result)),
                        Err(error) => Err(error),
                    }
                }
            },
            Err(error) => Err(error),
        },
        Err(error) => Err(error),
    }
}

/// The sum of the arguments, from zero. Its value is the sum of their
/// values.
pub fn add(env: &mut Env, args: &Vec<Expr>, depth: usize) -> (r: Result<Expr, EvalError>)
    ensures
        meets(r, *old(env), *final(env), model::add(old(env)@, terms(args@), depth as nat)),
        has_value(
            r,
            exact_fold(old(env)@, terms(args@), 0, (0int, 0int), Arith::Sum, depth as nat),
        ),
    decreases depth, 4int, 0int,
{
    apply_first_rest(env, Decimal::zero(), args, 0, Arith::Sum, depth)
}

/// The product of the arguments, from one. Its value is the product of
/// their values.
pub fn mul(env: &mut Env, args: &Vec<Expr>, depth: usize) -> (r: Result<Expr, EvalError>)
    ensures
        meets(r, *old(env), *final(env), model::mul(old(env)@, terms(args@), depth as nat)),
        has_value(
            r,
            exact_fold(old(env)@, terms(args@), 0, (1int, 0int), Arith::Product, depth as nat),
        ),
    decreases depth, 4int, 0int,
{
    apply_first_rest(env, Decimal::one(), args, 0, Arith::Product, depth)
}

/// The first argument less the others; of one argument, zero less it. Its
/// value is that difference of their values.
pub fn sub(env: &mut Env, args: &Vec<Expr>, depth: usize) -> (r: Result<Expr, EvalError>)
    ensures
        meets(r, *old(env), *final(env), model::sub(old(env)@, terms(args@), depth as nat)),
        has_value(
            r,
            exact_neg(old(env)@, terms(args@), Arith::Difference, (0int, 0int), depth as nat),
        ),
    decreases depth, 5int, 0int,
{
    apply_neg_op(env, args, Arith::Difference, Decimal::zero(), depth)
}

/// The first argument divided by the others; of one argument, one divided by
/// it.
pub fn div(env: &mut Env, args: &Vec<Expr>, depth: usize) -> (r: Result<Expr, EvalError>)
    ensures
        meets(r, *old(env), *final(env), model::div(old(env)@, terms(args@), depth as nat)),
    decreases depth, 5int, 0int,
{
    apply_neg_op(env, args, Arith::Quotient, Decimal::one(), depth)
}

/// The remainder of the first of two arguments by the second.
pub fn modulo(env: &mut Env, args: &Vec<Expr>, depth: usize) -> (r: Result<Expr, EvalError>)
    ensures
        meets(r, *old(env), *final(env), model::modulo(old(env)@, terms(args@), depth as nat)),
    decreases depth, 5int, 0int,
{
    if args.len() != 2 {
        return Err(EvalError::ArityMismatch);
    }
    apply_neg_op(env, args, Arith::Remainder, Decimal::zero(), depth)
}

/// The primitives on numbers, and equality, to the depth that the
/// environment allows.
pub trait MathOps: Eval {
    /// Whether the values of all arguments equal that of the first.
    fn eq(&mut self, args: &Vec<Expr>) -> (r: Result<Expr, EvalError>)
        ensures
            accords(
                r,
                old(self).world(),
                final(self).world(),
                model::eq(old(self).world(), terms(args@), old(self).depth()),
            ),
            final(self).depth() == old(self).depth(),
    ;

    /// The sum of the arguments, from zero.
    fn add(&mut self, args: &Vec<Expr>) -> (r: Result<Expr, EvalError>)
        ensures
            accords(
                r,
                old(self).world(),
                final(self).world(),
                model::add(old(self).world(), terms(args@), old(self).depth()),
            ),
            final(self).depth() == old(self).depth(),
            has_value(
                r,
                exact_fold(
                    old(self).world(),
                    terms(args@),
                    0,
                    (0int, 0int),
                    Arith::Sum,
                    old(self).depth(),
                ),
            ),
    ;

    /// The first argument less the others; of one argument, zero less it.
    fn sub(&mut self, args: &Vec<Expr>) -> (r: Result<Expr, EvalError>)
        ensures
            accords(
                r,
                old(self).world(),
                final(self).world(),
                model::sub(old(self).world(), terms(args@), old(self).depth()),
            ),
            final(self).depth() == old(self).depth(),
            has_value(
                r,
                exact_neg(
                    old(self).world(),
                    terms(args@),
                    Arith::Difference,
                    (0int, 0int),
                    old(self).depth(),
                ),
            ),
    ;

    /// The product of the arguments, from one.
    fn mul(&mut self, args: &Vec<Expr>) -> (r: Result<Expr, EvalError>)
        ensures
            accords(
                r,
                old(self).world(),
                final(self).world(),
                model::mul(old(self).world(), terms(args@), old(self).depth()),
            ),
            final(self).depth() == old(self).depth(),
            has_value(
                r,
                exact_fold(
                    old(self).world(),
                    terms(args@),
                    0,
                    (1int, 0int),
                    Arith::Product,
                    old(self).depth(),
                ),
            ),
    ;

    /// The first argument divided by the others; of one, one divided by it.
    fn div(&mut self, args: &Vec<Expr>) -> (r: Result<Expr, EvalError>)
        ensures
            accords(
                r,
                old(self).world(),
                final(self).world(),
                model::div(old(self).world(), terms(args@), old(self).depth()),
            ),
            final(self).depth() == old(self).depth(),
    ;

    /// The remainder of the first of two arguments by the second.
    fn modulo(&mut self, args: &Vec<Expr>) -> (r: Result<Expr, EvalError>)
        ensures
            accords(
                r,
                old(self).world(),
                final(self).world(),
                model::modulo(old(self).world(), terms(args@), old(self).depth()),
            ),
            final(self).depth() == old(self).depth(),
    ;
}

impl MathOps for Env {
    fn eq(&mut self, args: &Vec<Expr>) -> (r: Result<Expr, EvalError>) {
        let depth = self.depth_limit();
        eq(self, args, depth)
    }

    fn add(&mut self, args: &Vec<Expr>) -> (r: Result<Expr, EvalError>) {
        let depth = self.depth_limit();
        self::add(self, args, depth)
    }

    fn sub(&mut self, args: &Vec<Expr>) -> (r: Result<Expr, EvalError>) {
        let depth = self.depth_limit();
        self::sub(self, args, depth)
    }

    fn mul(&mut self, args: &Vec<Expr>) -> (r: Result<Expr, EvalError>) {
        let depth = self.depth_limit();
        self::mul(self, args, depth)
    }

    fn div(&mut self, args: &Vec<Expr>) -> (r: Result<Expr, EvalError>) {
        let depth = self.depth_limit();
        div(self, args, depth)
    }

    fn modulo(&mut self, args: &Vec<Expr>) -> (r: Result<Expr, EvalError>) {
        let depth = self.depth_limit();
        modulo(self, args, depth)
    }
}

} // verus!
