//! What holds of reading and evaluating, for every input.

use vstd::prelude::*;
use crate::decimal::{
    decimal_parse,
    decimal_text,
    exact_sum,
    pow10,
    same_number,
};
use crate::math::exact_fold;
use crate::error::Failure;
use crate::lex::{
    chunk_state,
    chunk_texts,
    classify,
    lex_state,
    paren_balance,
    parse_model,
    quoted,
    scan_tokens,
    token_texts,
};
use crate::model;
use crate::model::{Arith, Keyword, World};
use crate::syntax::{equal_items, equal_terms, render, Term};

verus! {

/// A text whose parentheses do not balance is rejected as a syntax error,
/// and the world stays as it was: nothing of it is evaluated.
pub proof fn law_unbalanced_text_is_rejected(world: World, input: Seq<char>, depth: nat)
    requires
        paren_balance(input) != 0,
    ensures
        model::eval(world, input, depth) == (Err::<Term, Failure>(Failure::SyntaxError), world),
{
}

/// Where the text that is printed for a number is read back as a number of
/// the same value, and is no text literal, the atom that is read from the
/// printed form of the number equals the number.
pub proof fn law_printed_number_reads_back(number: (int, int), back: (int, int))
    requires
        decimal_parse(decimal_text(number)) == Some(back),
        same_number(number, back),
        !quoted(decimal_text(number)),
    ensures
        classify(render(Term::Number(number), false)) == Term::Number(back),
        equal_terms(Term::Number(number), classify(render(Term::Number(number), false))),
{
}

/// While tokens are scanned, the buffer holds fewer tokens than the whole
/// sequence: a child of several tokens is always parsed as a list of its own.
pub proof fn law_buffer_is_shorter(tokens: Seq<Seq<char>>, upto: int)
    requires
        1 <= upto <= tokens.len(),
    ensures
        scan_tokens(tokens, upto).buffer.len() <= upto - 1,
        scan_tokens(tokens, upto).buffer.len() < tokens.len(),
    decreases upto,
{
    if upto > 1 {
        law_buffer_is_shorter(tokens, upto - 1);
    }
}

/// The conjunction of no arguments is true and their disjunction is false,
/// in every world and at every depth.
pub proof fn law_and_or_of_nothing(world: World, depth: nat)
    ensures
        model::and(world, Seq::empty(), depth) == (Ok::<Term, Failure>(Term::Boolean(true)), world),
        model::or(world, Seq::empty(), depth) == (Ok::<Term, Failure>(Term::Boolean(false)), world),
{
}

/// A primitive that takes a fixed number of arguments fails with an arity
/// error on any other number, and leaves the world as it was.
pub proof fn law_arity_is_checked(world: World, args: Seq<Term>, depth: nat)
    ensures
        args.len() != 1 ==> model::not(world, args, depth) == (
            Err::<Term, Failure>(Failure::ArityMismatch),
            world,
        ),
        args.len() != 1 ==> model::atom(world, args, depth) == (
            Err::<Term, Failure>(Failure::ArityMismatch),
            world,
        ),
        args.len() != 1 ==> model::quote(world, args) == (
            Err::<Term, Failure>(Failure::ArityMismatch),
            world,
        ),
        args.len() != 1 ==> model::car(world, args, depth) == (
            Err::<Term, Failure>(Failure::ArityMismatch),
            world,
        ),
        args.len() != 1 ==> model::cdr(world, args, depth) == (
            Err::<Term, Failure>(Failure::ArityMismatch),
            world,
        ),
        args.len() != 2 ==> model::define(world, args) == (
            Err::<Term, Failure>(Failure::ArityMismatch),
            world,
        ),
        args.len() != 2 ==> model::lambda(world, args) == (
            Err::<Term, Failure>(Failure::ArityMismatch),
            world,
        ),
        args.len() != 3 ==> model::if_op(world, args, depth) == (
            Err::<Term, Failure>(Failure::ArityMismatch),
            world,
        ),
        args.len() != 2 ==> model::modulo(world, args, depth) == (
            Err::<Term, Failure>(Failure::ArityMismatch),
            world,
        ),
        args.len() == 0 ==> model::eq(world, args, depth) == (
            Err::<Term, Failure>(Failure::ArityMismatch),
            world,
        ),
        args.len() == 0 ==> model::sub(world, args, depth) == (
            Err::<Term, Failure>(Failure::ArityMismatch),
            world,
        ),
        args.len() == 0 ==> model::div(world, args, depth) == (
            Err::<Term, Failure>(Failure::ArityMismatch),
            world,
        ),
{
}

/// `if` gives the value of its second argument where its first is true, of
/// its third where that is false, and a type error where it is no boolean.
pub proof fn law_if_chooses_by_its_condition(
    world: World,
    condition: Term,
    first: Term,
    second: Term,
    depth: nat,
)
    ensures
        ({
            let (value, after) = model::descend(world, condition, depth);
            let chosen = model::if_op(world, seq![condition, first, second], depth);
            match value {
                Ok(Term::Boolean(true)) => chosen == model::descend(after, first, depth),
                Ok(Term::Boolean(false)) => chosen == model::descend(after, second, depth),
                Ok(_) => chosen == (Err::<Term, Failure>(Failure::TypeError), after),
                Err(failure) => chosen == (Err::<Term, Failure>(failure), after),
            }
        }),
{
}

/// After a symbol was defined, and where no local scope binds it, the symbol
/// stands for the value of the expression that it was defined as.
pub proof fn law_defined_symbol_stands_for_its_expression(
    world: World,
    name: Seq<char>,
    expression: Term,
    depth: nat,
)
    requires
        expression != Term::Symbol(name),
        model::resolve_local(world.locals, name) is None,
    ensures
        ({
            let (value, defined) = model::define(world, seq![Term::Symbol(name), expression]);
            &&& value == Ok::<Term, Failure>(Term::Symbol(name))
            &&& model::resolve(defined, name) == Some(expression)
            &&& model::simplify(defined, Term::Symbol(name), depth) == model::descend(
                defined,
                expression,
                depth,
            )
        }),
{
}

/// The exact sum of two numbers that stand as arguments is their sum from
/// zero, in every world and at any depth that lets them be evaluated; that
/// of one and one is two.
pub proof fn law_sum_of_two_numbers(world: World, a: (int, int), b: (int, int), depth: nat)
    requires
        depth >= 1,
    ensures
        exact_fold(
            world,
            seq![Term::Number(a), Term::Number(b)],
            0,
            (0int, 0int),
            Arith::Sum,
            depth,
        ) == Some(exact_sum(exact_sum((0int, 0int), a), b)),
        exact_sum(exact_sum((0int, 0int), (1int, 0int)), (1int, 0int)) == (2int, 0int),
{
    let args = seq![Term::Number(a), Term::Number(b)];
    let first = exact_sum((0int, 0int), a);
    assert(model::descend(world, args[0], depth) == (Ok::<Term, Failure>(Term::Number(a)), world));
    assert(model::descend(world, args[1], depth) == (Ok::<Term, Failure>(Term::Number(b)), world));
    assert(exact_fold(world, args, 2, exact_sum(first, b), Arith::Sum, depth) == Some(
        exact_sum(first, b),
    ));
    assert(exact_fold(world, args, 1, first, Arith::Sum, depth) == Some(exact_sum(first, b)));
    assert(pow10(0) == 1);
}

/// The word `+`.
pub open spec fn plus_word() -> Seq<char> {
    seq!['+']
}

/// The sum of one and one is two: in every world, and at any depth that
/// lets the arguments be evaluated, the call of `+` on the numbers one and
/// one evaluates to the number two, and leaves the world as it was.
pub proof fn law_one_plus_one_is_two(world: World, depth: nat)
    requires
        depth >= 2,
    ensures
        model::simplify(
            world,
            Term::List(
                seq![
                    Term::Symbol(plus_word()),
                    Term::Number((1int, 0int)),
                    Term::Number((1int, 0int)),
                ],
            ),
            depth,
        ) == (Ok::<Term, Failure>(Term::Number((2int, 0int))), world),
{
    let one = Term::Number((1int, 0int));
    let call = seq![Term::Symbol(plus_word()), one, one];
    let args = call.skip(1);
    assert(args =~= seq![one, one]);
    assert(plus_word().len() == 1);
    assert(plus_word()[0] == '+');
    assert(model::keyword_of(plus_word()) == Some(Keyword::Add));
    lemma_sum_of_numbers(world, (1int, 0int), (1int, 0int), depth);
    assert(pow10(0) == 1);
    assert(crate::decimal::scaled_to((1int, 0int), 0) == 1int * 1);
    assert(exact_sum((1int, 0int), (1int, 0int)) == (2int, 0int));
    assert(model::apply(world, plus_word(), args, depth) == model::add(world, args, depth));
}

/// The sum of two numbers that stand as arguments, where neither is zero
/// and both scales are within the limit, is their sum at the larger scale.
pub proof fn lemma_sum_of_numbers(world: World, a: (int, int), b: (int, int), depth: nat)
    requires
        depth >= 1,
        a.0 != 0,
        b.0 != 0,
        crate::decimal::within_limit(a.1),
        crate::decimal::within_limit(b.1),
    ensures
        model::add(world, seq![Term::Number(a), Term::Number(b)], depth) == (
            Ok::<Term, Failure>(Term::Number(exact_sum(a, b))),
            world,
        ),
{
    let args = seq![Term::Number(a), Term::Number(b)];
    assert(model::descend(world, args[0], depth) == (Ok::<Term, Failure>(Term::Number(a)), world));
    assert(model::descend(world, args[1], depth) == (Ok::<Term, Failure>(Term::Number(b)), world));
    assert(model::combine(Arith::Sum, (0int, 0int), a) == Ok::<(int, int), Failure>(a));
    assert(model::combine(Arith::Sum, a, b) == Ok::<(int, int), Failure>(exact_sum(a, b)));
    assert(model::fold_numbers(world, args, 2, exact_sum(a, b), Arith::Sum, depth) == (
        Ok::<Term, Failure>(Term::Number(exact_sum(a, b))),
        world,
    ));
    assert(model::fold_numbers(world, args, 1, a, Arith::Sum, depth) == (
        Ok::<Term, Failure>(Term::Number(exact_sum(a, b))),
        world,
    ));
}

/// Where `a` is bound to the number two and `b` to the number one, the call
/// of `+` on the symbols `a` and `b` evaluates to the number three.
pub proof fn law_sum_of_bound_symbols(world: World, a: Seq<char>, b: Seq<char>, depth: nat)
    requires
        depth >= 3,
        model::resolve(world, a) == Some(Term::Number((2int, 0int))),
        model::resolve(world, b) == Some(Term::Number((1int, 0int))),
    ensures
        model::simplify(
            world,
            Term::List(seq![Term::Symbol(plus_word()), Term::Symbol(a), Term::Symbol(b)]),
            depth,
        ) == (Ok::<Term, Failure>(Term::Number((3int, 0int))), world),
{
    let two = (2int, 0int);
    let one = (1int, 0int);
    let call = seq![Term::Symbol(plus_word()), Term::Symbol(a), Term::Symbol(b)];
    let args = call.skip(1);
    assert(args =~= seq![Term::Symbol(a), Term::Symbol(b)]);
    assert(plus_word().len() == 1);
    assert(plus_word()[0] == '+');
    assert(model::keyword_of(plus_word()) == Some(Keyword::Add));
    let inner = (depth - 1) as nat;
    assert(model::get_symbol(world, a, inner) == (Ok::<Term, Failure>(Term::Number(two)), world));
    assert(model::get_symbol(world, b, inner) == (Ok::<Term, Failure>(Term::Number(one)), world));
    assert(model::descend(world, args[0], depth) == (Ok::<Term, Failure>(Term::Number(two)), world));
    assert(model::descend(world, args[1], depth) == (Ok::<Term, Failure>(Term::Number(one)), world));
    assert(pow10(0) == 1);
    assert(crate::decimal::scaled_to(two, 0) == 2int * 1);
    assert(crate::decimal::scaled_to(one, 0) == 1int * 1);
    assert(exact_sum(two, one) == (3int, 0int));
    assert(model::combine(Arith::Sum, (0int, 0int), two) == Ok::<(int, int), Failure>(two));
    assert(model::combine(Arith::Sum, two, one) == Ok::<(int, int), Failure>((3int, 0int)));
    assert(model::fold_numbers(world, args, 2, (3int, 0int), Arith::Sum, depth) == (
        Ok::<Term, Failure>(Term::Number((3int, 0int))),
        world,
    ));
    assert(model::fold_numbers(world, args, 1, two, Arith::Sum, depth) == (
        Ok::<Term, Failure>(Term::Number((3int, 0int))),
        world,
    ));
    assert(model::add(world, args, depth) == (
        Ok::<Term, Failure>(Term::Number((3int, 0int))),
        world,
    ));
    assert(model::apply(world, plus_word(), args, depth) == model::add(world, args, depth));
}

/// The word `lambda`.
pub open spec fn lambda_word() -> Seq<char> {
    seq!['l', 'a', 'm', 'b', 'd', 'a']
}

/// The expression of a function that adds two to its parameter `n`.
pub open spec fn adds_two(n: Seq<char>) -> Term {
    Term::List(
        seq![
            Term::Symbol(lambda_word()),
            Term::Symbol(n),
            Term::List(
                seq![Term::Symbol(plus_word()), Term::Symbol(n), Term::Number((2int, 0int))],
            ),
        ],
    )
}

/// Where a name that is no keyword is bound to the expression of a function
/// that adds two to its parameter, its call on the number three evaluates to
/// the number five, and leaves the world as it was.
pub proof fn law_call_of_a_function_that_adds_two(
    world: World,
    name: Seq<char>,
    n: Seq<char>,
    depth: nat,
)
    requires
        depth >= 3,
        model::keyword_of(name) is None,
        model::resolve(world, name) == Some(adds_two(n)),
    ensures
        model::simplify(
            world,
            Term::List(seq![Term::Symbol(name), Term::Number((3int, 0int))]),
            depth,
        ) == (Ok::<Term, Failure>(Term::Number((5int, 0int))), world),
{
    let three = Term::Number((3int, 0int));
    let two = Term::Number((2int, 0int));
    let body = Term::List(seq![Term::Symbol(plus_word()), Term::Symbol(n), two]);
    let call = seq![Term::Symbol(name), three];
    let args = call.skip(1);
    assert(args =~= seq![three]);
    // The bound expression evaluates to the lambda.
    let made = seq![Term::Symbol(lambda_word()), Term::Symbol(n), body];
    let parts = made.skip(1);
    assert(parts =~= seq![Term::Symbol(n), body]);
    assert(lambda_word().len() == 6);
    assert(lambda_word()[0] == 'l');
    assert(lambda_word()[1] == 'a');
    assert(model::keyword_of(lambda_word()) == Some(Keyword::Lambda));
    let params = seq![Term::Symbol(n)];
    assert(model::lambda_params(Term::Symbol(n)) == params);
    let function = Term::Lambda(params, Box::new(body));
    assert(model::lambda(world, parts) == (Ok::<Term, Failure>(function), world));
    assert(model::apply(world, lambda_word(), parts, (depth - 1) as nat) == model::lambda(
        world,
        parts,
    ));
    assert(model::eval_list(world, made, (depth - 1) as nat) == model::lambda(world, parts));
    assert(model::descend(world, adds_two(n), depth) == (Ok::<Term, Failure>(function), world));
    // The parameter is bound to three in a new scope.
    let opened = model::pushed(world);
    assert(model::descend(opened, three, depth) == (Ok::<Term, Failure>(three), opened));
    let inside = model::bound_local(opened, n, three);
    assert(model::bind_params(inside, params, args, 1, depth) == (None::<Failure>, inside));
    assert(model::bind_params(opened, params, args, 0, depth) == (None::<Failure>, inside));
    assert(inside.locals.last().contains_key(n));
    assert(model::resolve_local(inside.locals, n) == Some(three));
    assert(model::resolve(inside, n) == Some(three));
    // The body evaluates to five there.
    let inner = (depth - 1) as nat;
    let sum = body->List_0.skip(1);
    assert(sum =~= seq![Term::Symbol(n), two]);
    assert(model::get_symbol(inside, n, (inner - 1) as nat) == (
        Ok::<Term, Failure>(three),
        inside,
    ));
    assert(model::descend(inside, sum[0], inner) == (Ok::<Term, Failure>(three), inside));
    assert(model::descend(inside, sum[1], inner) == (Ok::<Term, Failure>(two), inside));
    assert(pow10(0) == 1);
    assert(crate::decimal::scaled_to((3int, 0int), 0) == 3int * 1);
    assert(crate::decimal::scaled_to((2int, 0int), 0) == 2int * 1);
    assert(exact_sum((3int, 0int), (2int, 0int)) == (5int, 0int));
    assert(model::combine(Arith::Sum, (0int, 0int), (3int, 0int)) == Ok::<(int, int), Failure>(
        (3int, 0int),
    ));
    assert(model::combine(Arith::Sum, (3int, 0int), (2int, 0int)) == Ok::<(int, int), Failure>(
        (5int, 0int),
    ));
    let five = Term::Number((5int, 0int));
    assert(model::fold_numbers(inside, sum, 2, (5int, 0int), Arith::Sum, inner) == (
        Ok::<Term, Failure>(five),
        inside,
    ));
    assert(model::fold_numbers(inside, sum, 1, (3int, 0int), Arith::Sum, inner) == (
        Ok::<Term, Failure>(five),
        inside,
    ));
    assert(model::add(inside, sum, inner) == (Ok::<Term, Failure>(five), inside));
    assert(plus_word().len() == 1);
    assert(plus_word()[0] == '+');
    assert(model::keyword_of(plus_word()) == Some(Keyword::Add));
    assert(model::apply(inside, plus_word(), sum, inner) == model::add(inside, sum, inner));
    assert(model::eval_list(inside, body->List_0, inner) == (Ok::<Term, Failure>(five), inside));
    assert(model::descend(inside, body, depth) == (Ok::<Term, Failure>(five), inside));
    // The scope is left again.
    assert(model::popped(inside).locals =~= world.locals);
    assert(model::popped(inside) == world);
    assert(model::execute_lambda(world, params, body, args, depth) == (
        Ok::<Term, Failure>(five),
        world,
    ));
    assert(model::apply(world, name, args, depth) == (Ok::<Term, Failure>(five), world));
}

/// The word `quote`.
pub open spec fn quote_word() -> Seq<char> {
    seq!['q', 'u', 'o', 't', 'e']
}

/// The call of `quote` on the empty list.
pub open spec fn quoted_empty_list() -> Term {
    Term::List(seq![Term::Symbol(quote_word()), Term::List(Seq::empty())])
}

/// In every world, and at any depth that lets the argument be evaluated,
/// `car` of the quoted empty list fails because the list is empty, and `cdr`
/// of it is the empty list.
pub proof fn law_car_cdr_of_the_quoted_empty_list(world: World, depth: nat)
    requires
        depth >= 1,
    ensures
        model::car(world, seq![quoted_empty_list()], depth) == (
            Err::<Term, Failure>(Failure::EmptyList),
            world,
        ),
        model::cdr(world, seq![quoted_empty_list()], depth) == (
            Ok::<Term, Failure>(Term::List(Seq::empty())),
            world,
        ),
{
    let call = seq![Term::Symbol(quote_word()), Term::List(Seq::empty())];
    let args = call.skip(1);
    assert(quote_word().len() == 5);
    assert(quote_word()[0] == 'q');
    assert(model::keyword_of(quote_word()) == Some(Keyword::Quote));
    assert(args =~= seq![Term::List(Seq::empty())]);
    assert(model::quote(world, args) == (Ok::<Term, Failure>(Term::List(Seq::empty())), world));
    assert(model::apply(world, quote_word(), args, (depth - 1) as nat) == model::quote(world, args));
    assert(model::eval_list(world, call, (depth - 1) as nat) == model::quote(world, args));
    assert(model::descend(world, quoted_empty_list(), depth) == model::quote(world, args));
}

/// Of the empty list `car` fails and `cdr` is the empty list; of an atom both
/// fail.
pub proof fn law_car_cdr_at_the_edges(atom: Term)
    requires
        !(atom is List),
    ensures
        model::car_exp(Term::List(Seq::empty())) == Err::<Term, Failure>(Failure::EmptyList),
        model::cdr_exp(Term::List(Seq::empty())) == Ok::<Term, Failure>(Term::List(Seq::empty())),
        model::car_exp(atom) == Err::<Term, Failure>(Failure::NotAList),
        model::cdr_exp(atom) == Err::<Term, Failure>(Failure::NotAList),
{
}

/// Whether a sequence of effects goes on from another: it starts with all of
/// the other, in order.
pub open spec fn goes_on_from<A>(later: Seq<A>, earlier: Seq<A>) -> bool {
    later.len() >= earlier.len() && later.take(earlier.len() as int) == earlier
}

/// Whether a world is one that evaluation may leave behind: the local scopes
/// and the files are those of the world before, and nothing that was asked
/// of the outside is taken back.
pub open spec fn settled(before: World, after: World) -> bool {
    &&& after.locals == before.locals
    &&& after.files == before.files
    &&& goes_on_from(after.effects, before.effects)
}

/// Whether a world is one that the binding of parameters may leave behind:
/// as `settled`, but that the innermost local scope may have changed.
pub open spec fn settled_below(before: World, after: World) -> bool {
    &&& after.locals.len() == before.locals.len()
    &&& forall|i: int| 0 <= i < before.locals.len() - 1 ==> after.locals[i] == before.locals[i]
    &&& after.files == before.files
    &&& goes_on_from(after.effects, before.effects)
}

/// What may be left behind after what may be left behind may be left behind.
pub proof fn lemma_settled_chain(first: World, second: World, third: World)
    requires
        settled(first, second),
        settled(second, third),
    ensures
        settled(first, third),
{
    assert(third.effects.take(first.effects.len() as int) =~= second.effects.take(
        first.effects.len() as int,
    ));
}

/// The binding of parameters goes on from an evaluation, and further
/// bindings go on from it.
proof fn lemma_settled_below_chain(first: World, second: World, third: World)
    requires
        settled(first, second) || settled_below(first, second),
        settled_below(second, third),
    ensures
        settled_below(first, third),
{
    assert(third.effects.take(first.effects.len() as int) =~= second.effects.take(
        first.effects.len() as int,
    ));
}

/// A nested evaluation leaves the local scopes and the files as it found
/// them, and takes no effect back.
pub proof fn law_descend_settles(world: World, term: Term, depth: nat)
    ensures
        settled(world, model::descend(world, term, depth).1),
    decreases depth, 0int, 0int,
{
    if depth > 0 {
        law_simplify_settles(world, term, (depth - 1) as nat);
    } else {
        assert(world.effects.take(world.effects.len() as int) =~= world.effects);
    }
}

/// Evaluation leaves the local scopes and the files as it found them, and
/// takes no effect back: each scope that a call opens is left again, whether
/// the call succeeds or fails.
pub proof fn law_simplify_settles(world: World, term: Term, depth: nat)
    ensures
        settled(world, model::simplify(world, term, depth).1),
    decreases depth, 10int, 0int,
{
    assert(world.effects.take(world.effects.len() as int) =~= world.effects);
    match term {
        Term::List(items) => {
            lemma_eval_list_settles(world, items, depth);
        },
        Term::Symbol(name) => {
            match model::resolve(world, name) {
                Some(bound) => {
                    law_descend_settles(world, bound, depth);
                },
                None => {},
            }
        },
        _ => {},
    }
}

proof fn lemma_eval_list_settles(world: World, items: Seq<Term>, depth: nat)
    ensures
        settled(world, model::eval_list(world, items, depth).1),
    decreases depth, 9int, 0int,
{
    assert(world.effects.take(world.effects.len() as int) =~= world.effects);
    if items.len() > 0 {
        if items[0] is List {
            law_descend_settles(world, items[0], depth);
            let (head, after) = model::descend(world, items[0], depth);
            match head {
                Ok(value) => {
                    lemma_eval_car_cdr_settles(after, value, items.skip(1), depth);
                    lemma_settled_chain(
                        world,
                        after,
                        model::eval_car_cdr(after, value, items.skip(1), depth).1,
                    );
                },
                Err(_) => {},
            }
        } else {
            lemma_eval_car_cdr_settles(world, items[0], items.skip(1), depth);
        }
    }
}

proof fn lemma_eval_car_cdr_settles(world: World, car: Term, cdr: Seq<Term>, depth: nat)
    ensures
        settled(world, model::eval_car_cdr(world, car, cdr, depth).1),
    decreases depth, 8int, 0int,
{
    assert(world.effects.take(world.effects.len() as int) =~= world.effects);
    match car {
        Term::Symbol(name) => {
            law_apply_settles(world, name, cdr, depth);
        },
        _ => {},
    }
}

/// The application of a function leaves the local scopes and the files as it
/// found them, and takes no effect back.
pub proof fn law_apply_settles(world: World, func: Seq<char>, args: Seq<Term>, depth: nat)
    ensures
        settled(world, model::apply(world, func, args, depth).1),
    decreases depth, 7int, 0int,
{
    assert(world.effects.take(world.effects.len() as int) =~= world.effects);
    match model::keyword_of(func) {
        Some(keyword) => {
            lemma_apply_keyword_settles(world, keyword, args, depth);
        },
        None => match model::resolve(world, func) {
            Some(bound) => {
                law_descend_settles(world, bound, depth);
                let (value, after) = model::descend(world, bound, depth);
                match value {
                    Ok(Term::Lambda(params, body)) => {
                        law_execute_lambda_settles(after, params, *body, args, depth);
                        lemma_settled_chain(
                            world,
                            after,
                            model::execute_lambda(after, params, *body, args, depth).1,
                        );
                    },
                    _ => {},
                }
            },
            None => {},
        },
    }
}

proof fn lemma_apply_keyword_settles(world: World, keyword: Keyword, args: Seq<Term>, depth: nat)
    ensures
        settled(world, model::apply_keyword(world, keyword, args, depth).1),
    decreases depth, 6int, 0int,
{
    assert(world.effects.take(world.effects.len() as int) =~= world.effects);
    match keyword {
        Keyword::Equal => {
            if args.len() > 0 {
                law_descend_settles(world, args[0], depth);
                let (value, after) = model::descend(world, args[0], depth);
                match value {
                    Ok(first) => {
                        lemma_fold_equal_settles(after, args, 1, first, true, depth);
                        lemma_settled_chain(
                            world,
                            after,
                            model::fold_equal(after, args, 1, first, true, depth).1,
                        );
                    },
                    Err(_) => {},
                }
            }
        },
        Keyword::Add => {
            lemma_fold_numbers_settles(world, args, 0, (0, 0), Arith::Sum, depth);
        },
        Keyword::Subtract => {
            lemma_apply_neg_op_settles(world, args, Arith::Difference, (0, 0), depth);
        },
        Keyword::Multiply => {
            lemma_fold_numbers_settles(world, args, 0, (1, 0), Arith::Product, depth);
        },
        Keyword::Divide => {
            lemma_apply_neg_op_settles(world, args, Arith::Quotient, (1, 0), depth);
        },
        Keyword::Modulo => {
            if args.len() == 2 {
                lemma_apply_neg_op_settles(world, args, Arith::Remainder, (0, 0), depth);
            }
        },
        Keyword::Car | Keyword::Cdr | Keyword::StringOf | Keyword::Not | Keyword::Atom => {
            if args.len() == 1 {
                law_descend_settles(world, args[0], depth);
            }
        },
        Keyword::Quote | Keyword::Define | Keyword::Lambda => {},
        Keyword::Load => {
            if args.len() == 1 {
                law_descend_settles(world, args[0], depth);
                let (value, after) = model::string_or_else(world, args[0], depth);
                match value {
                    Ok(text) => {
                        let path = crate::lex::without_quotes(text);
                        if after.files.contains_key(path) {
                            let chunks = crate::lex::chunk_texts(after.files[path]);
                            lemma_run_chunks_settles(after, chunks, 0, depth);
                            lemma_settled_chain(
                                world,
                                after,
                                model::run_chunks(after, chunks, 0, depth).1,
                            );
                        }
                    },
                    Err(_) => {},
                }
            }
        },
        Keyword::If => {
            if args.len() == 3 {
                law_descend_settles(world, args[0], depth);
                let (value, after) = model::descend(world, args[0], depth);
                match value {
                    Ok(Term::Boolean(b)) => {
                        let branch = if b {
                            args[1]
                        } else {
                            args[2]
                        };
                        law_descend_settles(after, branch, depth);
                        lemma_settled_chain(world, after, model::descend(after, branch, depth).1);
                    },
                    _ => {},
                }
            }
        },
        Keyword::And => {
            lemma_fold_bool_settles(world, args, 0, true, true, depth);
        },
        Keyword::Or => {
            lemma_fold_bool_settles(world, args, 0, false, false, depth);
        },
        Keyword::Slurp => {
            if args.len() == 1 {
                law_descend_settles(world, args[0], depth);
            }
        },
        Keyword::Write => {
            if args.len() == 2 {
                law_descend_settles(world, args[0], depth);
                let (target, between) = model::descend(world, args[0], depth);
                match target {
                    Ok(Term::Text(path)) => {
                        law_descend_settles(between, args[1], depth);
                        let (content, after) = model::descend(between, args[1], depth);
                        lemma_settled_chain(world, between, after);
                        match content {
                            Ok(Term::Text(text)) => {
                                lemma_emitted_settles(
                                    after,
                                    model::Emission::Write(crate::lex::without_quotes(path), text),
                                );
                                lemma_settled_chain(
                                    world,
                                    after,
                                    model::write(world, args, depth).1,
                                );
                            },
                            _ => {},
                        }
                    },
                    _ => {},
                }
            }
        },
        Keyword::Print => {
            lemma_print_text_settles(world, args, false, depth);
        },
        Keyword::Println => {
            lemma_print_text_settles(world, args, true, depth);
        },
    }
}

/// One more effect goes on from those before it.
proof fn lemma_emitted_settles(world: World, emission: model::Emission)
    ensures
        settled(world, model::emitted(world, emission)),
{
    assert(world.effects.push(emission).take(world.effects.len() as int) =~= world.effects);
}

proof fn lemma_print_text_settles(world: World, args: Seq<Term>, line: bool, depth: nat)
    ensures
        settled(world, model::print_text(world, args, line, depth).1),
    decreases depth, 4int, 0int,
{
    assert(world.effects.take(world.effects.len() as int) =~= world.effects);
    if args.len() == 1 {
        law_descend_settles(world, args[0], depth);
        let (value, after) = model::string_or_else(world, args[0], depth);
        match value {
            Ok(text) => {
                let emission = model::Emission::Print(
                    if line {
                        text.push('\n')
                    } else {
                        text
                    },
                );
                lemma_emitted_settles(after, emission);
                lemma_settled_chain(world, after, model::emitted(after, emission));
            },
            Err(_) => {},
        }
    }
}

/// The application of a lambda leaves the local scopes as it found them: the
/// scope that it opens is left again, whether binding and body succeed or
/// fail.
pub proof fn law_execute_lambda_settles(
    world: World,
    params: Seq<Term>,
    body: Term,
    args: Seq<Term>,
    depth: nat,
)
    ensures
        settled(world, model::execute_lambda(world, params, body, args, depth).1),
    decreases depth, 4int, 0int,
{
    assert(world.effects.take(world.effects.len() as int) =~= world.effects);
    if params.len() == args.len() {
        let opened = model::pushed(world);
        lemma_bind_params_settles(opened, params, args, 0, depth);
        let (bound, inside) = model::bind_params(opened, params, args, 0, depth);
        assert(opened.locals.drop_last() =~= world.locals);
        match bound {
            Some(_) => {
                assert(model::popped(inside).locals =~= world.locals);
            },
            None => {
                law_descend_settles(inside, body, depth);
                let (value, after) = model::descend(inside, body, depth);
                assert(model::popped(after).locals =~= world.locals);
                assert(after.effects.take(world.effects.len() as int) =~= inside.effects.take(
                    world.effects.len() as int,
                ));
            },
        }
    }
}

proof fn lemma_bind_params_settles(
    world: World,
    params: Seq<Term>,
    args: Seq<Term>,
    from: int,
    depth: nat,
)
    ensures
        settled_below(world, model::bind_params(world, params, args, from, depth).1),
    decreases depth, 3int, params.len() - from,
{
    assert(world.effects.take(world.effects.len() as int) =~= world.effects);
    if 0 <= from < params.len() {
        match params[from] {
            Term::Symbol(name) => {
                if args[from] == Term::Symbol(name) {
                    lemma_bind_params_settles(world, params, args, from + 1, depth);
                } else {
                    law_descend_settles(world, args[from], depth);
                    let (value, after) = model::descend(world, args[from], depth);
                    match value {
                        Ok(term) => {
                            let next = model::bound_local(after, name, term);
                            assert(settled_below(world, next)) by {
                                assert(next.effects == after.effects);
                            }
                            lemma_bind_params_settles(next, params, args, from + 1, depth);
                            lemma_settled_below_chain(
                                world,
                                next,
                                model::bind_params(next, params, args, from + 1, depth).1,
                            );
                        },
                        Err(_) => {},
                    }
                }
            },
            _ => {},
        }
    }
}

proof fn lemma_fold_bool_settles(
    world: World,
    args: Seq<Term>,
    from: int,
    gathered: bool,
    all: bool,
    depth: nat,
)
    ensures
        settled(world, model::fold_bool(world, args, from, gathered, all, depth).1),
    decreases depth, 3int, args.len() - from,
{
    assert(world.effects.take(world.effects.len() as int) =~= world.effects);
    if 0 <= from < args.len() {
        law_descend_settles(world, args[from], depth);
        let (value, after) = model::descend(world, args[from], depth);
        match value {
            Ok(Term::Boolean(b)) => {
                let next = if all {
                    gathered && b
                } else {
                    gathered || b
                };
                lemma_fold_bool_settles(after, args, from + 1, next, all, depth);
                lemma_settled_chain(
                    world,
                    after,
                    model::fold_bool(after, args, from + 1, next, all, depth).1,
                );
            },
            _ => {},
        }
    }
}

proof fn lemma_fold_equal_settles(
    world: World,
    args: Seq<Term>,
    from: int,
    first: Term,
    gathered: bool,
    depth: nat,
)
    ensures
        settled(world, model::fold_equal(world, args, from, first, gathered, depth).1),
    decreases depth, 3int, args.len() - from,
{
    assert(world.effects.take(world.effects.len() as int) =~= world.effects);
    if 0 <= from < args.len() {
        law_descend_settles(world, args[from], depth);
        let (value, after) = model::descend(world, args[from], depth);
        match value {
            Ok(term) => {
                let next = gathered && equal_terms(first, term);
                lemma_fold_equal_settles(after, args, from + 1, first, next, depth);
                lemma_settled_chain(
                    world,
                    after,
                    model::fold_equal(after, args, from + 1, first, next, depth).1,
                );
            },
            _ => {},
        }
    }
}

proof fn lemma_fold_numbers_settles(
    world: World,
    args: Seq<Term>,
    from: int,
    gathered: (int, int),
    op: Arith,
    depth: nat,
)
    ensures
        settled(world, model::fold_numbers(world, args, from, gathered, op, depth).1),
    decreases depth, 3int, args.len() - from,
{
    assert(world.effects.take(world.effects.len() as int) =~= world.effects);
    if 0 <= from < args.len() {
        law_descend_settles(world, args[from], depth);
        let (value, after) = model::descend(world, args[from], depth);
        match value {
            Ok(Term::Number(n)) => match model::combine(op, gathered, n) {
                Ok(next) => {
                    lemma_fold_numbers_settles(after, args, from + 1, next, op, depth);
                    lemma_settled_chain(
                        world,
                        after,
                        model::fold_numbers(after, args, from + 1, next, op, depth).1,
                    );
                },
                Err(_) => {},
            },
            _ => {},
        }
    }
}

proof fn lemma_apply_neg_op_settles(
    world: World,
    args: Seq<Term>,
    op: Arith,
    unit: (int, int),
    depth: nat,
)
    ensures
        settled(world, model::apply_neg_op(world, args, op, unit, depth).1),
    decreases depth, 4int, 0int,
{
    assert(world.effects.take(world.effects.len() as int) =~= world.effects);
    if args.len() > 0 {
        law_descend_settles(world, args[0], depth);
        let (value, after) = model::descend(world, args[0], depth);
        match value {
            Ok(Term::Number(first)) => {
                if args.len() > 1 {
                    lemma_fold_numbers_settles(after, args, 1, first, op, depth);
                    lemma_settled_chain(
                        world,
                        after,
                        model::fold_numbers(after, args, 1, first, op, depth).1,
                    );
                }
            },
            _ => {},
        }
    }
}

proof fn lemma_run_chunks_settles(world: World, chunks: Seq<Seq<char>>, from: int, depth: nat)
    ensures
        settled(world, model::run_chunks(world, chunks, from, depth).1),
    decreases depth, 3int, chunks.len() - from,
{
    assert(world.effects.take(world.effects.len() as int) =~= world.effects);
    if 0 <= from < chunks.len() && paren_balance(chunks[from]) == 0 {
        let term = crate::lex::read_model(chunks[from]);
        law_descend_settles(world, term, depth);
        let (value, after) = model::descend(world, term, depth);
        match value {
            Ok(_) => {
                lemma_run_chunks_settles(after, chunks, from + 1, depth);
                lemma_settled_chain(
                    world,
                    after,
                    model::run_chunks(after, chunks, from + 1, depth).1,
                );
            },
            Err(_) => {},
        }
    }
}

/// The evaluation of a text leaves the local scopes and the files as it
/// found them, and takes no effect back.
pub proof fn law_eval_settles(world: World, input: Seq<char>, depth: nat)
    ensures
        settled(world, model::eval(world, input, depth).1),
{
    assert(world.effects.take(world.effects.len() as int) =~= world.effects);
    if paren_balance(input) == 0 {
        law_simplify_settles(world, crate::lex::read_model(input), depth);
    }
}

/// Whether an outcome is that of an evaluation that ran out of depth.
pub open spec fn cut_off<T>(result: Result<T, Failure>) -> bool {
    result == Err::<T, Failure>(Failure::DepthExceeded)
}

/// Whether one more unit of depth leaves an outcome as it is.
pub open spec fn stable<T>(less: (Result<T, Failure>, World), more: (Result<T, Failure>, World)) -> bool {
    !cut_off(less.0) ==> more == less
}

/// Whether one more unit of depth leaves the outcome of a sequence of steps
/// as it is.
pub open spec fn stable_steps(less: (Option<Failure>, World), more: (Option<Failure>, World)) -> bool {
    less.0 != Some(Failure::DepthExceeded) ==> more == less
}

/// The depth limit only cuts evaluations off: a nested evaluation that does
/// not run out of depth has the same outcome at any greater depth.
pub proof fn law_descend_is_stable(world: World, term: Term, depth: nat)
    ensures
        stable(model::descend(world, term, depth), model::descend(world, term, depth + 1)),
    decreases depth, 0int, 0int,
{
    if depth > 0 {
        law_simplify_is_stable(world, term, (depth - 1) as nat);
    }
}

/// The depth limit only cuts evaluations off: an evaluation that does not
/// run out of depth has the same outcome at any greater depth.
pub proof fn law_simplify_is_stable(world: World, term: Term, depth: nat)
    ensures
        stable(model::simplify(world, term, depth), model::simplify(world, term, depth + 1)),
    decreases depth, 10int, 0int,
{
    match term {
        Term::List(items) => {
            lemma_eval_list_is_stable(world, items, depth);
        },
        Term::Symbol(name) => {
            match model::resolve(world, name) {
                Some(bound) => {
                    law_descend_is_stable(world, bound, depth);
                },
                None => {},
            }
        },
        _ => {},
    }
}

proof fn lemma_eval_list_is_stable(world: World, items: Seq<Term>, depth: nat)
    ensures
        stable(model::eval_list(world, items, depth), model::eval_list(world, items, depth + 1)),
    decreases depth, 9int, 0int,
{
    if items.len() > 0 {
        if items[0] is List {
            law_descend_is_stable(world, items[0], depth);
            let (head, after) = model::descend(world, items[0], depth);
            match head {
                Ok(value) => {
                    lemma_eval_car_cdr_is_stable(after, value, items.skip(1), depth);
                },
                Err(_) => {},
            }
        } else {
            lemma_eval_car_cdr_is_stable(world, items[0], items.skip(1), depth);
        }
    }
}

proof fn lemma_eval_car_cdr_is_stable(world: World, car: Term, cdr: Seq<Term>, depth: nat)
    ensures
        stable(
            model::eval_car_cdr(world, car, cdr, depth),
            model::eval_car_cdr(world, car, cdr, depth + 1),
        ),
    decreases depth, 8int, 0int,
{
    match car {
        Term::Symbol(name) => {
            lemma_apply_is_stable(world, name, cdr, depth);
        },
        _ => {},
    }
}

proof fn lemma_apply_is_stable(world: World, func: Seq<char>, args: Seq<Term>, depth: nat)
    ensures
        stable(model::apply(world, func, args, depth), model::apply(world, func, args, depth + 1)),
    decreases depth, 7int, 0int,
{
    match model::keyword_of(func) {
        Some(keyword) => {
            lemma_apply_keyword_is_stable(world, keyword, args, depth);
        },
        None => match model::resolve(world, func) {
            Some(bound) => {
                law_descend_is_stable(world, bound, depth);
                let (value, after) = model::descend(world, bound, depth);
                match value {
                    Ok(Term::Lambda(params, body)) => {
                        lemma_execute_lambda_is_stable(after, params, *body, args, depth);
                    },
                    _ => {},
                }
            },
            None => {},
        },
    }
}

proof fn lemma_apply_keyword_is_stable(world: World, keyword: Keyword, args: Seq<Term>, depth: nat)
    ensures
        stable(
            model::apply_keyword(world, keyword, args, depth),
            model::apply_keyword(world, keyword, args, depth + 1),
        ),
    decreases depth, 6int, 0int,
{
    match keyword {
        Keyword::Equal => {
            if args.len() > 0 {
                law_descend_is_stable(world, args[0], depth);
                let (value, after) = model::descend(world, args[0], depth);
                match value {
                    Ok(first) => {
                        lemma_fold_equal_is_stable(after, args, 1, first, true, depth);
                    },
                    Err(_) => {},
                }
            }
        },
        Keyword::Add => {
            lemma_fold_numbers_is_stable(world, args, 0, (0, 0), Arith::Sum, depth);
        },
        Keyword::Subtract => {
            lemma_apply_neg_op_is_stable(world, args, Arith::Difference, (0, 0), depth);
        },
        Keyword::Multiply => {
            lemma_fold_numbers_is_stable(world, args, 0, (1, 0), Arith::Product, depth);
        },
        Keyword::Divide => {
            lemma_apply_neg_op_is_stable(world, args, Arith::Quotient, (1, 0), depth);
        },
        Keyword::Modulo => {
            if args.len() == 2 {
                lemma_apply_neg_op_is_stable(world, args, Arith::Remainder, (0, 0), depth);
            }
        },
        Keyword::Car | Keyword::Cdr | Keyword::StringOf | Keyword::Not | Keyword::Atom
        | Keyword::Slurp | Keyword::Print | Keyword::Println => {
            if args.len() == 1 {
                law_descend_is_stable(world, args[0], depth);
            }
        },
        Keyword::Quote | Keyword::Define | Keyword::Lambda => {},
        Keyword::Load => {
            if args.len() == 1 {
                law_descend_is_stable(world, args[0], depth);
                let (value, after) = model::string_or_else(world, args[0], depth);
                match value {
                    Ok(text) => {
                        let path = crate::lex::without_quotes(text);
                        if after.files.contains_key(path) {
                            let chunks = crate::lex::chunk_texts(after.files[path]);
                            lemma_run_chunks_is_stable(after, chunks, 0, depth);
                        }
                    },
                    Err(_) => {},
                }
            }
        },
        Keyword::If => {
            if args.len() == 3 {
                law_descend_is_stable(world, args[0], depth);
                let (value, after) = model::descend(world, args[0], depth);
                match value {
                    Ok(Term::Boolean(b)) => {
                        let branch = if b {
                            args[1]
                        } else {
                            args[2]
                        };
                        law_descend_is_stable(after, branch, depth);
                    },
                    _ => {},
                }
            }
        },
        Keyword::And => {
            lemma_fold_bool_is_stable(world, args, 0, true, true, depth);
        },
        Keyword::Or => {
            lemma_fold_bool_is_stable(world, args, 0, false, false, depth);
        },
        Keyword::Write => {
            if args.len() == 2 {
                law_descend_is_stable(world, args[0], depth);
                let (target, between) = model::descend(world, args[0], depth);
                match target {
                    Ok(Term::Text(_)) => {
                        law_descend_is_stable(between, args[1], depth);
                    },
                    _ => {},
                }
            }
        },
    }
}

proof fn lemma_execute_lambda_is_stable(
    world: World,
    params: Seq<Term>,
    body: Term,
    args: Seq<Term>,
    depth: nat,
)
    ensures
        stable(
            model::execute_lambda(world, params, body, args, depth),
            model::execute_lambda(world, params, body, args, depth + 1),
        ),
    decreases depth, 4int, 0int,
{
    if params.len() == args.len() {
        let opened = model::pushed(world);
        lemma_bind_params_is_stable(opened, params, args, 0, depth);
        let (bound, inside) = model::bind_params(opened, params, args, 0, depth);
        match bound {
            Some(_) => {},
            None => {
                law_descend_is_stable(inside, body, depth);
            },
        }
    }
}

proof fn lemma_bind_params_is_stable(
    world: World,
    params: Seq<Term>,
    args: Seq<Term>,
    from: int,
    depth: nat,
)
    ensures
        stable_steps(
            model::bind_params(world, params, args, from, depth),
            model::bind_params(world, params, args, from, depth + 1),
        ),
    decreases depth, 3int, params.len() - from,
{
    if 0 <= from < params.len() {
        match params[from] {
            Term::Symbol(name) => {
                if args[from] == Term::Symbol(name) {
                    lemma_bind_params_is_stable(world, params, args, from + 1, depth);
                } else {
                    law_descend_is_stable(world, args[from], depth);
                    let (value, after) = model::descend(world, args[from], depth);
                    match value {
                        Ok(term) => {
                            lemma_bind_params_is_stable(
                                model::bound_local(after, name, term),
                                params,
                                args,
                                from + 1,
                                depth,
                            );
                        },
                        Err(_) => {},
                    }
                }
            },
            _ => {},
        }
    }
}

proof fn lemma_fold_bool_is_stable(
    world: World,
    args: Seq<Term>,
    from: int,
    gathered: bool,
    all: bool,
    depth: nat,
)
    ensures
        stable(
            model::fold_bool(world, args, from, gathered, all, depth),
            model::fold_bool(world, args, from, gathered, all, depth + 1),
        ),
    decreases depth, 3int, args.len() - from,
{
    if 0 <= from < args.len() {
        law_descend_is_stable(world, args[from], depth);
        let (value, after) = model::descend(world, args[from], depth);
        match value {
            Ok(Term::Boolean(b)) => {
                let next = if all {
                    gathered && b
                } else {
                    gathered || b
                };
                lemma_fold_bool_is_stable(after, args, from + 1, next, all, depth);
            },
            _ => {},
        }
    }
}

proof fn lemma_fold_equal_is_stable(
    world: World,
    args: Seq<Term>,
    from: int,
    first: Term,
    gathered: bool,
    depth: nat,
)
    ensures
        stable(
            model::fold_equal(world, args, from, first, gathered, depth),
            model::fold_equal(world, args, from, first, gathered, depth + 1),
        ),
    decreases depth, 3int, args.len() - from,
{
    if 0 <= from < args.len() {
        law_descend_is_stable(world, args[from], depth);
        let (value, after) = model::descend(world, args[from], depth);
        match value {
            Ok(term) => {
                lemma_fold_equal_is_stable(
                    after,
                    args,
                    from + 1,
                    first,
                    gathered && equal_terms(first, term),
                    depth,
                );
            },
            _ => {},
        }
    }
}

proof fn lemma_fold_numbers_is_stable(
    world: World,
    args: Seq<Term>,
    from: int,
    gathered: (int, int),
    op: Arith,
    depth: nat,
)
    ensures
        stable(
            model::fold_numbers(world, args, from, gathered, op, depth),
            model::fold_numbers(world, args, from, gathered, op, depth + 1),
        ),
    decreases depth, 3int, args.len() - from,
{
    if 0 <= from < args.len() {
        law_descend_is_stable(world, args[from], depth);
        let (value, after) = model::descend(world, args[from], depth);
        match value {
            Ok(Term::Number(n)) => match model::combine(op, gathered, n) {
                Ok(next) => {
                    lemma_fold_numbers_is_stable(after, args, from + 1, next, op, depth);
                },
                Err(_) => {},
            },
            _ => {},
        }
    }
}

proof fn lemma_apply_neg_op_is_stable(
    world: World,
    args: Seq<Term>,
    op: Arith,
    unit: (int, int),
    depth: nat,
)
    ensures
        stable(
            model::apply_neg_op(world, args, op, unit, depth),
            model::apply_neg_op(world, args, op, unit, depth + 1),
        ),
    decreases depth, 4int, 0int,
{
    if args.len() > 0 {
        law_descend_is_stable(world, args[0], depth);
        let (value, after) = model::descend(world, args[0], depth);
        match value {
            Ok(Term::Number(first)) => {
                if args.len() > 1 {
                    lemma_fold_numbers_is_stable(after, args, 1, first, op, depth);
                }
            },
            _ => {},
        }
    }
}

proof fn lemma_run_chunks_is_stable(world: World, chunks: Seq<Seq<char>>, from: int, depth: nat)
    ensures
        stable_steps(
            model::run_chunks(world, chunks, from, depth),
            model::run_chunks(world, chunks, from, depth + 1),
        ),
    decreases depth, 3int, chunks.len() - from,
{
    if 0 <= from < chunks.len() && paren_balance(chunks[from]) == 0 {
        let term = crate::lex::read_model(chunks[from]);
        law_descend_is_stable(world, term, depth);
        let (value, after) = model::descend(world, term, depth);
        match value {
            Ok(_) => {
                lemma_run_chunks_is_stable(after, chunks, from + 1, depth);
            },
            Err(_) => {},
        }
    }
}

/// The depth limit only cuts evaluations off: the evaluation of a text that
/// does not run out of depth has the same outcome at any greater depth.
pub proof fn law_eval_is_stable(world: World, input: Seq<char>, depth: nat, more: nat)
    requires
        depth <= more,
    ensures
        stable(model::eval(world, input, depth), model::eval(world, input, more)),
    decreases more - depth,
{
    if depth < more {
        if paren_balance(input) == 0 {
            law_simplify_is_stable(world, crate::lex::read_model(input), depth);
        }
        if !cut_off(model::eval(world, input, depth).0) {
            law_eval_is_stable(world, input, depth + 1, more);
        }
    }
}

/// The tokens of the text `(+ 1 1)` are the two parentheses, the sign and the
/// two digits.
pub proof fn law_tokens_of_a_sum()
    ensures
        token_texts(seq!['(', '+', ' ', '1', ' ', '1', ')']) == seq![
            seq!['('],
            seq!['+'],
            seq!['1'],
            seq!['1'],
            seq![')'],
        ],
        paren_balance(seq!['(', '+', ' ', '1', ' ', '1', ')']) == 0,
{
    let text = seq!['(', '+', ' ', '1', ' ', '1', ')'];
    let none = Seq::<char>::empty();
    assert(text.take(0) =~= none);
    assert(text.take(7) =~= text);
    assert(text.take(1).drop_last() =~= text.take(0));
    assert(text.take(2).drop_last() =~= text.take(1));
    assert(text.take(3).drop_last() =~= text.take(2));
    assert(text.take(4).drop_last() =~= text.take(3));
    assert(text.take(5).drop_last() =~= text.take(4));
    assert(text.take(6).drop_last() =~= text.take(5));
    assert(text.take(7).drop_last() =~= text.take(6));
    assert(!crate::text::whitespace('('));
    assert(!crate::text::whitespace('+'));
    assert(crate::text::whitespace(' '));
    assert(!crate::text::whitespace('1'));
    assert(!crate::text::whitespace(')'));
    let s0 = lex_state(text.take(0));
    assert(s0.tokens =~= Seq::<Seq<char>>::empty() && s0.current =~= none && !s0.in_quotes
        && !s0.escaped);
    let s1 = lex_state(text.take(1));
    assert(s1 == crate::lex::lex_step(s0, '(', false));
    assert(s1.tokens =~= seq![seq!['(']] && s1.current =~= none);
    let s2 = lex_state(text.take(2));
    assert(s2 == crate::lex::lex_step(s1, '+', false));
    assert(s2.tokens =~= seq![seq!['(']] && s2.current =~= seq!['+']);
    let s3 = lex_state(text.take(3));
    assert(s3 == crate::lex::lex_step(s2, ' ', true));
    assert(s3.tokens =~= seq![seq!['('], seq!['+']] && s3.current =~= none);
    let s4 = lex_state(text.take(4));
    assert(s4 == crate::lex::lex_step(s3, '1', false));
    assert(s4.tokens =~= seq![seq!['('], seq!['+']] && s4.current =~= seq!['1']);
    let s5 = lex_state(text.take(5));
    assert(s5 == crate::lex::lex_step(s4, ' ', true));
    assert(s5.tokens =~= seq![seq!['('], seq!['+'], seq!['1']] && s5.current =~= none);
    let s6 = lex_state(text.take(6));
    assert(s6 == crate::lex::lex_step(s5, '1', false));
    assert(s6.tokens =~= seq![seq!['('], seq!['+'], seq!['1']] && s6.current =~= seq!['1']);
    let s7 = lex_state(text.take(7));
    assert(s7 == crate::lex::lex_step(s6, ')', false));
    assert(s7.tokens =~= seq![seq!['('], seq!['+'], seq!['1'], seq!['1'], seq![')']]
        && s7.current =~= none);
    assert(paren_balance(text.take(0)) == 0);
    assert(paren_balance(text.take(1)) == 1);
    assert(paren_balance(text.take(2)) == 1);
    assert(paren_balance(text.take(3)) == 1);
    assert(paren_balance(text.take(4)) == 1);
    assert(paren_balance(text.take(5)) == 1);
    assert(paren_balance(text.take(6)) == 1);
    assert(paren_balance(text.take(7)) == 0);
}

/// Whether no token of a sequence is empty.
pub open spec fn none_empty(tokens: Seq<Seq<char>>) -> bool {
    forall|i: int| 0 <= i < tokens.len() ==> (#[trigger] tokens[i]).len() > 0
}

/// While a text is scanned, no token that is complete is empty.
proof fn lemma_scanned_tokens_are_not_empty(text: Seq<char>)
    ensures
        none_empty(lex_state(text).tokens),
    decreases text.len(),
{
    if text.len() > 0 {
        lemma_scanned_tokens_are_not_empty(text.drop_last());
    }
}

/// No token of a text is empty.
pub proof fn law_tokens_are_not_empty(text: Seq<char>)
    ensures
        none_empty(token_texts(text)),
{
    lemma_scanned_tokens_are_not_empty(text);
}

/// Whether a text starts with an opening parenthesis and holds no line feed.
pub open spec fn one_line_in_parentheses(chunk: Seq<char>) -> bool {
    &&& chunk.len() > 0
    &&& chunk[0] == '('
    &&& forall|i: int| 0 <= i < chunk.len() ==> chunk[i] != '\n'
}

/// While a text is divided, each chunk that is complete is one line in
/// parentheses, and so is the chunk that is being built, unless it is empty;
/// and nothing is being built while no parenthesis is open.
proof fn lemma_chunks_are_lines(text: Seq<char>)
    ensures
        forall|i: int|
            0 <= i < chunk_state(text).chunks.len() ==> one_line_in_parentheses(
                #[trigger] chunk_state(text).chunks[i],
            ),
        chunk_state(text).chunk.len() > 0 ==> one_line_in_parentheses(chunk_state(text).chunk),
    decreases text.len(),
{
    if text.len() > 0 {
        lemma_chunks_are_lines(text.drop_last());
    }
}

/// Each chunk of a text starts with an opening parenthesis and holds no line
/// feed: it is never empty, and never a comment.
pub proof fn law_chunks_are_lines(text: Seq<char>)
    ensures
        forall|i: int|
            0 <= i < chunk_texts(text).len() ==> one_line_in_parentheses(
                #[trigger] chunk_texts(text)[i],
            ),
        forall|i: int|
            0 <= i < chunk_texts(text).len() ==> crate::env::is_code(#[trigger] chunk_texts(text)[i]),
{
    lemma_chunks_are_lines(text);
}

/// A token between a pair of parentheses is read as the atom that it stands
/// for, not as a list of one item, unless it is a parenthesis itself.
pub proof fn law_single_token_is_read_as_atom(token: Seq<char>)
    requires
        crate::lex::token_weight(token) == 0,
    ensures
        parse_model(seq![seq!['('], token, seq![')']]) == classify(token),
{
    crate::lex::lemma_single_token(token);
}

/// Every term equals itself.
pub proof fn law_equality_is_reflexive(term: Term)
    ensures
        equal_terms(term, term),
    decreases term, 0int,
{
    match term {
        Term::List(items) => {
            lemma_items_equal_themselves(items, 0);
        },
        Term::Lambda(params, body) => {
            lemma_items_equal_themselves(params, 0);
            law_equality_is_reflexive(*body);
        },
        Term::Number(n) => {
            assert(pow10(0) == 1);
            assert(n.0 * 1 == n.0);
            assert(same_number(n, n));
        },
        _ => {},
    }
}

proof fn lemma_items_equal_themselves(items: Seq<Term>, from: int)
    ensures
        equal_items(items, items, from),
    decreases items, items.len() - from,
{
    if 0 <= from < items.len() {
        law_equality_is_reflexive(items[from]);
        lemma_items_equal_themselves(items, from + 1);
    }
}

/// Where a term equals another, the other equals it.
pub proof fn law_equality_is_symmetric(a: Term, b: Term)
    requires
        equal_terms(a, b),
    ensures
        equal_terms(b, a),
    decreases a, 0int,
{
    match a {
        Term::List(xs) => {
            let ys = b->List_0;
            assert(b == Term::List(ys));
            lemma_items_equal_both_ways(xs, ys, 0);
            assert(equal_terms(b, a));
        },
        Term::Lambda(xs, x) => {
            let ys = b->Lambda_0;
            let y = b->Lambda_1;
            assert(b == Term::Lambda(ys, y));
            lemma_items_equal_both_ways(xs, ys, 0);
            law_equality_is_symmetric(*x, *y);
            assert(equal_terms(b, a));
        },
        Term::Number(x) => {
            let y = b->Number_0;
            assert(b == Term::Number(y));
            lemma_same_number_both_ways(x, y);
        },
        _ => {},
    }
}

/// Where a number has the value of another, the other has its value.
proof fn lemma_same_number_both_ways(a: (int, int), b: (int, int))
    requires
        same_number(a, b),
    ensures
        same_number(b, a),
{
    if a.1 == b.1 {
        assert(pow10(0) == 1);
        assert(b.0 * 1 == b.0);
        assert(a.0 * 1 == a.0);
    }
}

proof fn lemma_items_equal_both_ways(xs: Seq<Term>, ys: Seq<Term>, from: int)
    requires
        equal_items(xs, ys, from),
    ensures
        equal_items(ys, xs, from),
    decreases xs, xs.len() - from,
{
    if 0 <= from < xs.len() {
        law_equality_is_symmetric(xs[from], ys[from]);
        lemma_items_equal_both_ways(xs, ys, from + 1);
    }
}

} // verus!
