//! What evaluation means: a function from a world, a term and a depth to a
//! result and the world after it.
//!
//! The functions of this module are the contract of the evaluator. Each
//! nested evaluation takes one unit of depth, and fails where none is left.

use vstd::prelude::*;
use crate::decimal::{
    decimal_product,
    decimal_quotient,
    exact_difference,
    exact_remainder,
    sum_of,
    within_limit,
};
use crate::error::Failure;
use crate::lex::{chunk_texts, paren_balance, read_model, without_quotes};
use crate::syntax::{equal_terms, render, Term};

verus! {

/// Something that evaluation asks the outside to do.
pub ghost enum Emission {
    /// A text for the standard output.
    Print(Seq<char>),
    /// A path and the text to be written to it.
    Write(Seq<char>, Seq<char>),
}

/// All that evaluation reads and changes.
pub ghost struct World {
    /// The bindings of the outermost scope.
    pub globals: Map<Seq<char>, Term>,
    /// The scopes of the calls that are under way, the innermost last.
    pub locals: Seq<Map<Seq<char>, Term>>,
    /// The texts of the files that are at hand, by path.
    pub files: Map<Seq<char>, Seq<char>>,
    /// What was asked of the outside so far, in order.
    pub effects: Seq<Emission>,
}

/// What an evaluation gives: a term or a failure, and the world after it.
pub type Outcome = (Result<Term, Failure>, World);

/// The words that name a primitive.
#[derive(Clone, Copy, Debug)]
pub enum Keyword {
    Equal,
    Add,
    Subtract,
    Multiply,
    Divide,
    Modulo,
    Car,
    Cdr,
    Quote,
    StringOf,
    Define,
    Lambda,
    Load,
    If,
    And,
    Or,
    Not,
    Atom,
    Slurp,
    Write,
    Print,
    Println,
}

/// The primitive that a name stands for, if it is a keyword.
pub open spec fn keyword_of(name: Seq<char>) -> Option<Keyword> {
    if name == seq!['='] {
        Some(Keyword::Equal)
    } else if name == seq!['+'] {
        Some(Keyword::Add)
    } else if name == seq!['-'] {
        Some(Keyword::Subtract)
    } else if name == seq!['*'] {
        Some(Keyword::Multiply)
    } else if name == seq!['/'] {
        Some(Keyword::Divide)
    } else if name == seq!['%'] {
        Some(Keyword::Modulo)
    } else if name == seq!['c', 'a', 'r'] {
        Some(Keyword::Car)
    } else if name == seq!['c', 'd', 'r'] {
        Some(Keyword::Cdr)
    } else if name == seq!['q', 'u', 'o', 't', 'e'] {
        Some(Keyword::Quote)
    } else if name == seq!['s', 't', 'r', 'i', 'n', 'g'] {
        Some(Keyword::StringOf)
    } else if name == seq!['d', 'e', 'f', 'i', 'n', 'e'] {
        Some(Keyword::Define)
    } else if name == seq!['l', 'a', 'm', 'b', 'd', 'a'] {
        Some(Keyword::Lambda)
    } else if name == seq!['l', 'o', 'a', 'd'] {
        Some(Keyword::Load)
    } else if name == seq!['i', 'f'] {
        Some(Keyword::If)
    } else if name == seq!['a', 'n', 'd'] {
        Some(Keyword::And)
    } else if name == seq!['o', 'r'] {
        Some(Keyword::Or)
    } else if name == seq!['n', 'o', 't'] {
        Some(Keyword::Not)
    } else if name == seq!['a', 't', 'o', 'm'] {
        Some(Keyword::Atom)
    } else if name == seq!['s', 'l', 'u', 'r', 'p'] {
        Some(Keyword::Slurp)
    } else if name == seq!['w', 'r', 'i', 't', 'e'] {
        Some(Keyword::Write)
    } else if name == seq!['p', 'r', 'i', 'n', 't'] {
        Some(Keyword::Print)
    } else if name == seq!['p', 'r', 'i', 'n', 't', 'l', 'n'] {
        Some(Keyword::Println)
    } else {
        None
    }
}

/// The binding of a name in the innermost local scope that has one.
pub open spec fn resolve_local(locals: Seq<Map<Seq<char>, Term>>, name: Seq<char>) -> Option<Term>
    decreases locals.len(),
{
    if locals.len() == 0 {
        None
    } else if locals.last().contains_key(name) {
        Some(locals.last()[name])
    } else {
        resolve_local(locals.drop_last(), name)
    }
}

/// The binding of a name: that of the innermost scope that has one, the
/// global scope being the outermost.
pub open spec fn resolve(world: World, name: Seq<char>) -> Option<Term> {
    match resolve_local(world.locals, name) {
        Some(term) => Some(term),
        None => if world.globals.contains_key(name) {
            Some(world.globals[name])
        } else {
            None
        },
    }
}

/// The world with one more local scope, which is empty.
pub open spec fn pushed(world: World) -> World {
    World { locals: world.locals.push(Map::empty()), ..world }
}

/// The world without its innermost local scope, if it has one.
pub open spec fn popped(world: World) -> World {
    if world.locals.len() == 0 {
        world
    } else {
        World { locals: world.locals.drop_last(), ..world }
    }
}

/// The world with a name bound in its innermost local scope.
pub open spec fn bound_local(world: World, name: Seq<char>, value: Term) -> World {
    if world.locals.len() == 0 {
        world
    } else {
        World {
            locals: world.locals.drop_last().push(world.locals.last().insert(name, value)),
            ..world
        }
    }
}

/// The world with a name bound in its global scope.
pub open spec fn bound_global(world: World, name: Seq<char>, value: Term) -> World {
    World { globals: world.globals.insert(name, value), ..world }
}

/// The world with one more request to the outside.
pub open spec fn emitted(world: World, emission: Emission) -> World {
    World { effects: world.effects.push(emission), ..world }
}

/// The arithmetic operations.
#[derive(Clone, Copy, Debug)]
pub enum Arith {
    Sum,
    Difference,
    Product,
    Quotient,
    Remainder,
}

/// What an operation makes of two numbers. A division or a remainder by zero
/// fails, and so does an operation on a number whose scale is beyond the
/// limit on which arithmetic is done.
pub open spec fn combine(op: Arith, a: (int, int), b: (int, int)) -> Result<(int, int), Failure> {
    if (op is Quotient || op is Remainder) && b.0 == 0 {
        Err(Failure::DivisionByZero)
    } else if !(within_limit(a.1) && within_limit(b.1)) {
        Err(Failure::NumberOutOfRange)
    } else {
        Ok(
            match op {
                Arith::Sum => sum_of(a, b),
                Arith::Difference => exact_difference(a, b),
                Arith::Product => decimal_product(a, b),
                Arith::Quotient => decimal_quotient(a, b),
                Arith::Remainder => exact_remainder(a, b),
            },
        )
    }
}

/// A nested evaluation: it takes one unit of depth.
pub open spec fn descend(world: World, term: Term, depth: nat) -> Outcome
    decreases depth, 0int, 0int,
{
    if depth == 0 {
        (Err(Failure::DepthExceeded), world)
    } else {
        simplify(world, term, (depth - 1) as nat)
    }
}

/// The value of a term. A list is a call, a symbol stands for the value of
/// what it is bound to, and any other atom is its own value.
pub open spec fn simplify(world: World, term: Term, depth: nat) -> Outcome
    decreases depth, 10int, 0int,
{
    match term {
        Term::List(items) => eval_list(world, items, depth),
        Term::Symbol(name) => get_symbol(world, name, depth),
        _ => (Ok(term), world),
    }
}

/// The value of what a symbol is bound to.
pub open spec fn get_symbol(world: World, name: Seq<char>, depth: nat) -> Outcome
    decreases depth, 9int, 0int,
{
    match resolve(world, name) {
        Some(bound) => descend(world, bound, depth),
        None => (Err(Failure::UnboundSymbol(name)), world),
    }
}

/// The value of a call. Its first item is evaluated where it is a list, and
/// has to name the function; the other items are the arguments.
pub open spec fn eval_list(world: World, items: Seq<Term>, depth: nat) -> Outcome
    decreases depth, 9int, 0int,
{
    if items.len() == 0 {
        (Err(Failure::EmptyExpression), world)
    } else if items[0] is List {
        let (head, after) = descend(world, items[0], depth);
        match head {
            Ok(value) => eval_car_cdr(after, value, items.skip(1), depth),
            Err(failure) => (Err(failure), after),
        }
    } else {
        eval_car_cdr(world, items[0], items.skip(1), depth)
    }
}

/// The value of a call whose first item has been evaluated: the item has to
/// be a symbol.
pub open spec fn eval_car_cdr(world: World, car: Term, cdr: Seq<Term>, depth: nat) -> Outcome
    decreases depth, 8int, 0int,
{
    match car {
        Term::Symbol(name) => apply(world, name, cdr, depth),
        _ => (Err(Failure::NotAFunctionName), world),
    }
}

/// The value of a function applied to arguments that are not evaluated yet.
/// A keyword names a primitive; any other name has to be bound to a lambda.
pub open spec fn apply(world: World, func: Seq<char>, args: Seq<Term>, depth: nat) -> Outcome
    decreases depth, 7int, 0int,
{
    match keyword_of(func) {
        Some(keyword) => apply_keyword(world, keyword, args, depth),
        None => match resolve(world, func) {
            Some(bound) => {
                let (value, after) = descend(world, bound, depth);
                match value {
                    Ok(Term::Lambda(params, body)) => execute_lambda(
                        after,
                        params,
                        *body,
                        args,
                        depth,
                    ),
                    Ok(_) => (Err(Failure::SymbolCannotBeUsedAsFunction), after),
                    Err(failure) => (Err(failure), after),
                }
            },
            None => (Err(Failure::UnrecognizedFunction(func)), world),
        },
    }
}

/// The value of a primitive applied to arguments.
pub open spec fn apply_keyword(world: World, keyword: Keyword, args: Seq<Term>, depth: nat) -> Outcome
    decreases depth, 6int, 0int,
{
    match keyword {
        Keyword::Equal => eq(world, args, depth),
        Keyword::Add => self::add(world, args, depth),
        Keyword::Subtract => self::sub(world, args, depth),
        Keyword::Multiply => self::mul(world, args, depth),
        Keyword::Divide => div(world, args, depth),
        Keyword::Modulo => modulo(world, args, depth),
        Keyword::Car => car(world, args, depth),
        Keyword::Cdr => cdr(world, args, depth),
        Keyword::Quote => quote(world, args),
        Keyword::StringOf => string(world, args, depth),
        Keyword::Define => define(world, args),
        Keyword::Lambda => lambda(world, args),
        Keyword::Load => load(world, args, depth),
        Keyword::If => if_op(world, args, depth),
        Keyword::And => and(world, args, depth),
        Keyword::Or => or(world, args, depth),
        Keyword::Not => not(world, args, depth),
        Keyword::Atom => atom(world, args, depth),
        Keyword::Slurp => slurp(world, args, depth),
        Keyword::Write => write(world, args, depth),
        Keyword::Print => print(world, args, depth),
        Keyword::Println => println(world, args, depth),
    }
}

/// A lambda applied to arguments. There have to be as many arguments as
/// parameters. In a new scope each parameter is bound to the value of its
/// argument; there the body is evaluated. The scope is left again whether or
/// not that succeeds.
pub open spec fn execute_lambda(
    world: World,
    params: Seq<Term>,
    body: Term,
    args: Seq<Term>,
    depth: nat,
) -> Outcome
    decreases depth, 4int, 0int,
{
    if params.len() != args.len() {
        (Err(Failure::ArityMismatch), world)
    } else {
        let (bound, inside) = bind_params(pushed(world), params, args, 0, depth);
        match bound {
            Some(failure) => (Err(failure), popped(inside)),
            None => {
                let (value, after) = descend(inside, body, depth);
                (value, popped(after))
            },
        }
    }
}

/// Binds the parameters from index `from` on, in order. A parameter has to
/// be a symbol. An argument that is the symbol of its own parameter is
/// passed over; any other is evaluated in the scope as it stands.
pub open spec fn bind_params(
    world: World,
    params: Seq<Term>,
    args: Seq<Term>,
    from: int,
    depth: nat,
) -> (Option<Failure>, World)
    decreases depth, 3int, params.len() - from,
{
    if from < 0 || from >= params.len() {
        (None, world)
    } else {
        match params[from] {
            Term::Symbol(name) => if args[from] == Term::Symbol(name) {
                bind_params(world, params, args, from + 1, depth)
            } else {
                let (value, after) = descend(world, args[from], depth);
                match value {
                    Ok(term) => bind_params(
                        bound_local(after, name, term),
                        params,
                        args,
                        from + 1,
                        depth,
                    ),
                    Err(failure) => (Some(failure), after),
                }
            },
            _ => (Some(Failure::InvalidParameterName), world),
        }
    }
}

/// The conjunction or the disjunction of the arguments from index `from`
/// on with what was gathered before them. Every argument is evaluated, and
/// each has to be a boolean.
pub open spec fn fold_bool(
    world: World,
    args: Seq<Term>,
    from: int,
    gathered: bool,
    all: bool,
    depth: nat,
) -> Outcome
    decreases depth, 3int, args.len() - from,
{
    if from < 0 || from >= args.len() {
        (Ok(Term::Boolean(gathered)), world)
    } else {
        let (value, after) = descend(world, args[from], depth);
        match value {
            Ok(Term::Boolean(b)) => fold_bool(
                after,
                args,
                from + 1,
                if all {
                    gathered && b
                } else {
                    gathered || b
                },
                all,
                depth,
            ),
            Ok(_) => (Err(Failure::TypeError), after),
            Err(failure) => (Err(failure), after),
        }
    }
}

/// Whether all arguments are true; true where there is none.
pub open spec fn and(world: World, args: Seq<Term>, depth: nat) -> Outcome
    decreases depth, 4int, 0int,
{
    fold_bool(world, args, 0, true, true, depth)
}

/// Whether any argument is true; false where there is none.
pub open spec fn or(world: World, args: Seq<Term>, depth: nat) -> Outcome
    decreases depth, 4int, 0int,
{
    fold_bool(world, args, 0, false, false, depth)
}

/// The negation of the one argument, which has to be a boolean.
pub open spec fn not(world: World, args: Seq<Term>, depth: nat) -> Outcome
    decreases depth, 4int, 0int,
{
    if args.len() != 1 {
        (Err(Failure::ArityMismatch), world)
    } else {
        let (value, after) = descend(world, args[0], depth);
        match value {
            Ok(Term::Boolean(b)) => (Ok(Term::Boolean(!b)), after),
            Ok(_) => (Err(Failure::TypeError), after),
            Err(failure) => (Err(failure), after),
        }
    }
}

/// Whether the value of the one argument is an atom.
pub open spec fn atom(world: World, args: Seq<Term>, depth: nat) -> Outcome
    decreases depth, 4int, 0int,
{
    if args.len() != 1 {
        (Err(Failure::ArityMismatch), world)
    } else {
        let (value, after) = descend(world, args[0], depth);
        match value {
            Ok(term) => (Ok(Term::Boolean(!(term is List))), after),
            Err(failure) => (Err(failure), after),
        }
    }
}

/// The value of the second argument where the first is true, of the third
/// where it is false. The first has to be a boolean.
pub open spec fn if_op(world: World, args: Seq<Term>, depth: nat) -> Outcome
    decreases depth, 4int, 0int,
{
    if args.len() != 3 {
        (Err(Failure::ArityMismatch), world)
    } else {
        let (value, after) = descend(world, args[0], depth);
        match value {
            Ok(Term::Boolean(b)) => descend(
                after,
                if b {
                    args[1]
                } else {
                    args[2]
                },
                depth,
            ),
            Ok(_) => (Err(Failure::TypeError), after),
            Err(failure) => (Err(failure), after),
        }
    }
}

/// Binds the symbol that is the first argument to the second argument, as it
/// stands, in the global scope. To define a symbol as itself changes nothing.
pub open spec fn define(world: World, args: Seq<Term>) -> Outcome {
    if args.len() != 2 {
        (Err(Failure::ArityMismatch), world)
    } else {
        match args[0] {
            Term::Symbol(name) => (
                Ok(Term::Symbol(name)),
                if args[1] == Term::Symbol(name) {
                    world
                } else {
                    bound_global(world, name, args[1])
                },
            ),
            _ => (Err(Failure::TypeError), world),
        }
    }
}

/// The one argument, as it stands.
pub open spec fn quote(world: World, args: Seq<Term>) -> Outcome {
    if args.len() != 1 {
        (Err(Failure::ArityMismatch), world)
    } else {
        (Ok(args[0]), world)
    }
}

/// The printed form of an atom, as a text.
pub open spec fn string_exp(term: Term) -> Result<Term, Failure> {
    match term {
        Term::List(_) => Err(Failure::TypeError),
        _ => Ok(Term::Text(render(term, false))),
    }
}

/// The printed form of the value of the one argument, which has to be an
/// atom, as a text.
pub open spec fn string(world: World, args: Seq<Term>, depth: nat) -> Outcome
    decreases depth, 4int, 0int,
{
    if args.len() != 1 {
        (Err(Failure::ArityMismatch), world)
    } else {
        let (value, after) = descend(world, args[0], depth);
        match value {
            Ok(term) => (string_exp(term), after),
            Err(failure) => (Err(failure), after),
        }
    }
}

/// The first item of a list.
pub open spec fn car_exp(term: Term) -> Result<Term, Failure> {
    match term {
        Term::List(items) => if items.len() == 0 {
            Err(Failure::EmptyList)
        } else {
            Ok(items[0])
        },
        _ => Err(Failure::NotAList),
    }
}

/// The list of the items after the first; of an empty list, the empty list.
pub open spec fn cdr_exp(term: Term) -> Result<Term, Failure> {
    match term {
        Term::List(items) => if items.len() == 0 {
            Ok(Term::List(items))
        } else {
            Ok(Term::List(items.skip(1)))
        },
        _ => Err(Failure::NotAList),
    }
}

/// The first item of the value of the one argument, which has to be a list
/// that is not empty.
pub open spec fn car(world: World, args: Seq<Term>, depth: nat) -> Outcome
    decreases depth, 4int, 0int,
{
    if args.len() != 1 {
        (Err(Failure::ArityMismatch), world)
    } else {
        let (value, after) = descend(world, args[0], depth);
        match value {
            Ok(term) => (car_exp(term), after),
            Err(failure) => (Err(failure), after),
        }
    }
}

/// The items after the first of the value of the one argument, which has to
/// be a list.
pub open spec fn cdr(world: World, args: Seq<Term>, depth: nat) -> Outcome
    decreases depth, 4int, 0int,
{
    if args.len() != 1 {
        (Err(Failure::ArityMismatch), world)
    } else {
        let (value, after) = descend(world, args[0], depth);
        match value {
            Ok(term) => (cdr_exp(term), after),
            Err(failure) => (Err(failure), after),
        }
    }
}

/// The parameters that the first argument of `lambda` gives: the items of a
/// list, or the one atom.
pub open spec fn lambda_params(spec: Term) -> Seq<Term> {
    match spec {
        Term::List(items) => items,
        _ => seq![spec],
    }
}

/// The lambda whose parameters the first argument gives and whose body is
/// the second. Nothing is evaluated.
pub open spec fn lambda(world: World, args: Seq<Term>) -> Outcome {
    if args.len() != 2 {
        (Err(Failure::ArityMismatch), world)
    } else {
        (Ok(Term::Lambda(lambda_params(args[0]), Box::new(args[1]))), world)
    }
}

/// Whether the values of the arguments from index `from` on all equal
/// `first`, and `gathered` holds. Every argument is evaluated.
pub open spec fn fold_equal(
    world: World,
    args: Seq<Term>,
    from: int,
    first: Term,
    gathered: bool,
    depth: nat,
) -> Outcome
    decreases depth, 3int, args.len() - from,
{
    if from < 0 || from >= args.len() {
        (Ok(Term::Boolean(gathered)), world)
    } else {
        let (value, after) = descend(world, args[from], depth);
        match value {
            Ok(term) => fold_equal(
                after,
                args,
                from + 1,
                first,
                gathered && equal_terms(first, term),
                depth,
            ),
            Err(failure) => (Err(failure), after),
        }
    }
}

/// Whether the values of all arguments equal that of the first. There has to
/// be an argument.
pub open spec fn eq(world: World, args: Seq<Term>, depth: nat) -> Outcome
    decreases depth, 4int, 0int,
{
    if args.len() == 0 {
        (Err(Failure::ArityMismatch), world)
    } else {
        let (value, after) = descend(world, args[0], depth);
        match value {
            Ok(first) => fold_equal(after, args, 1, first, true, depth),
            Err(failure) => (Err(failure), after),
        }
    }
}

/// What an operation makes of `gathered` and the values of the arguments
/// from index `from` on, taken from left to right. Each has to be a number.
pub open spec fn fold_numbers(
    world: World,
    args: Seq<Term>,
    from: int,
    gathered: (int, int),
    op: Arith,
    depth: nat,
) -> Outcome
    decreases depth, 3int, args.len() - from,
{
    if from < 0 || from >= args.len() {
        (Ok(Term::Number(gathered)), world)
    } else {
        let (value, after) = descend(world, args[from], depth);
        match value {
            Ok(Term::Number(n)) => match combine(op, gathered, n) {
                Ok(next) => fold_numbers(after, args, from + 1, next, op, depth),
                Err(failure) => (Err(failure), after),
            },
            Ok(_) => (Err(Failure::TypeError), after),
            Err(failure) => (Err(failure), after),
        }
    }
}

/// An operation that has an inverse: of one argument the operation on
/// `unit` and the argument, of several the fold from the first over the
/// others. There has to be an argument.
pub open spec fn apply_neg_op(
    world: World,
    args: Seq<Term>,
    op: Arith,
    unit: (int, int),
    depth: nat,
) -> Outcome
    decreases depth, 4int, 0int,
{
    if args.len() == 0 {
        (Err(Failure::ArityMismatch), world)
    } else {
        let (value, after) = descend(world, args[0], depth);
        match value {
            Ok(Term::Number(first)) => if args.len() > 1 {
                fold_numbers(after, args, 1, first, op, depth)
            } else {
                match combine(op, unit, first) {
                    Ok(result) => (Ok(Term::Number(result)), after),
                    Err(failure) => (Err(failure), after),
                }
            },
            Ok(_) => (Err(Failure::TypeError), after),
            Err(failure) => (Err(failure), after),
        }
    }
}

/// The sum of the arguments, from zero.
pub open spec fn add(world: World, args: Seq<Term>, depth: nat) -> Outcome
    decreases depth, 4int, 0int,
{
    fold_numbers(world, args, 0, (0, 0), Arith::Sum, depth)
}

/// The product of the arguments, from one.
pub open spec fn mul(world: World, args: Seq<Term>, depth: nat) -> Outcome
    decreases depth, 4int, 0int,
{
    fold_numbers(world, args, 0, (1, 0), Arith::Product, depth)
}

/// The first argument less the others; of one argument, zero less it.
pub open spec fn sub(world: World, args: Seq<Term>, depth: nat) -> Outcome
    decreases depth, 5int, 0int,
{
    apply_neg_op(world, args, Arith::Difference, (0, 0), depth)
}

/// The first argument divided by the others; of one argument, one divided
/// by it.
pub open spec fn div(world: World, args: Seq<Term>, depth: nat) -> Outcome
    decreases depth, 5int, 0int,
{
    apply_neg_op(world, args, Arith::Quotient, (1, 0), depth)
}

/// The remainder of the first of two arguments by the second.
pub open spec fn modulo(world: World, args: Seq<Term>, depth: nat) -> Outcome
    decreases depth, 5int, 0int,
{
    if args.len() != 2 {
        (Err(Failure::ArityMismatch), world)
    } else {
        apply_neg_op(world, args, Arith::Remainder, (0, 0), depth)
    }
}

/// The text that is the value of a term; a type error for any other value.
pub open spec fn string_or_else(world: World, term: Term, depth: nat) -> (
    Result<Seq<char>, Failure>,
    World,
)
    decreases depth, 3int, 0int,
{
    let (value, after) = descend(world, term, depth);
    match value {
        Ok(Term::Text(text)) => (Ok(text), after),
        Ok(_) => (Err(Failure::TypeError), after),
        Err(failure) => (Err(failure), after),
    }
}

/// Asks for the text that is the value of the one argument to be printed,
/// with a line feed after it where `line` holds. The value is nil.
pub open spec fn print_text(world: World, args: Seq<Term>, line: bool, depth: nat) -> Outcome
    decreases depth, 4int, 0int,
{
    if args.len() != 1 {
        (Err(Failure::ArityMismatch), world)
    } else {
        let (value, after) = string_or_else(world, args[0], depth);
        match value {
            Ok(text) => (
                Ok(Term::Nil),
                emitted(
                    after,
                    Emission::Print(
                        if line {
                            text.push('\n')
                        } else {
                            text
                        },
                    ),
                ),
            ),
            Err(failure) => (Err(failure), after),
        }
    }
}

/// Asks for a text to be printed.
pub open spec fn print(world: World, args: Seq<Term>, depth: nat) -> Outcome
    decreases depth, 5int, 0int,
{
    print_text(world, args, false, depth)
}

/// Asks for a text and a line feed to be printed.
pub open spec fn println(world: World, args: Seq<Term>, depth: nat) -> Outcome
    decreases depth, 5int, 0int,
{
    print_text(world, args, true, depth)
}

/// The text of the file that the one argument names, without its quotes, as
/// a text; a failure where the file is not at hand.
pub open spec fn slurp(world: World, args: Seq<Term>, depth: nat) -> Outcome
    decreases depth, 4int, 0int,
{
    if args.len() != 1 {
        (Err(Failure::ArityMismatch), world)
    } else {
        let (value, after) = string_or_else(world, args[0], depth);
        match value {
            Ok(text) => {
                let path = without_quotes(text);
                if after.files.contains_key(path) {
                    (Ok(Term::Text(after.files[path])), after)
                } else {
                    (Err(Failure::FileUnavailable(path)), after)
                }
            },
            Err(failure) => (Err(failure), after),
        }
    }
}

/// Asks for the text that is the second argument to be written to the file
/// that the first names, without its quotes. The value is nil.
pub open spec fn write(world: World, args: Seq<Term>, depth: nat) -> Outcome
    decreases depth, 4int, 0int,
{
    if args.len() != 2 {
        (Err(Failure::ArityMismatch), world)
    } else {
        let (target, between) = descend(world, args[0], depth);
        match target {
            Ok(Term::Text(path)) => {
                let (content, after) = descend(between, args[1], depth);
                match content {
                    Ok(Term::Text(text)) => (
                        Ok(Term::Nil),
                        emitted(after, Emission::Write(without_quotes(path), text)),
                    ),
                    Ok(_) => (Err(Failure::TypeError), after),
                    Err(failure) => (Err(failure), after),
                }
            },
            Ok(_) => (Err(Failure::TypeError), between),
            Err(failure) => (Err(failure), between),
        }
    }
}

/// Reads and evaluates the chunks from index `from` on, in order, up to the
/// first that fails.
pub open spec fn run_chunks(world: World, chunks: Seq<Seq<char>>, from: int, depth: nat) -> (
    Option<Failure>,
    World,
)
    decreases depth, 3int, chunks.len() - from,
{
    if from < 0 || from >= chunks.len() {
        (None, world)
    } else if paren_balance(chunks[from]) != 0 {
        (Some(Failure::SyntaxError), world)
    } else {
        let (value, after) = descend(world, read_model(chunks[from]), depth);
        match value {
            Ok(_) => run_chunks(after, chunks, from + 1, depth),
            Err(failure) => (Some(failure), after),
        }
    }
}

/// Evaluates, one after the other, the expressions in the file that the one
/// argument names, without its quotes. The value is the argument's.
pub open spec fn load(world: World, args: Seq<Term>, depth: nat) -> Outcome
    decreases depth, 4int, 0int,
{
    if args.len() != 1 {
        (Err(Failure::ArityMismatch), world)
    } else {
        let (value, after) = string_or_else(world, args[0], depth);
        match value {
            Ok(text) => {
                let path = without_quotes(text);
                if after.files.contains_key(path) {
                    let (failed, done) = run_chunks(
                        after,
                        chunk_texts(after.files[path]),
                        0,
                        depth,
                    );
                    match failed {
                        Some(failure) => (Err(failure), done),
                        None => (Ok(Term::Text(text)), done),
                    }
                } else {
                    (Err(Failure::FileUnavailable(path)), after)
                }
            },
            Err(failure) => (Err(failure), after),
        }
    }
}

/// The value of the expression that a text stands for; a syntax error, and
/// the world as it was, where the parentheses of the text do not balance.
pub open spec fn eval(world: World, input: Seq<char>, depth: nat) -> Outcome {
    if paren_balance(input) != 0 {
        (Err(Failure::SyntaxError), world)
    } else {
        simplify(world, read_model(input), depth)
    }
}

} // verus!
