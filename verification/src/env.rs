//! The environment of an evaluation, and the evaluator itself.

use vstd::prelude::*;
use crate::boolean;
use crate::built_in;
use crate::error::{EvalError, Failure};
use crate::lex::{chunk_file, chunk_texts, paren_balance, parse, texts};
use crate::math;
use crate::model;
use crate::model::{Emission, Keyword, Outcome, World};
use crate::scope::{Scope, Table};
use crate::syntax::{duplicate, lemma_lambda_term, lemma_list_term, terms, Atom, Expr, LambdaDef, Term};
use crate::sys;
use crate::text::{chars_of, str_equal};

verus! {

/// How deep an evaluation may nest in an environment that was not told
/// otherwise.
pub const DEFAULT_DEPTH: usize = 1000;

/// Something that evaluation asks the outside to do.
#[derive(Debug)]
pub enum Effect {
    /// A text for the standard output.
    Print(String),
    /// A path and the text to be written to it.
    Write(String, String),
}

impl View for Effect {
    type V = Emission;

    open spec fn view(&self) -> Emission {
        match *self {
            Effect::Print(text) => Emission::Print(text@),
            Effect::Write(path, text) => Emission::Write(path@, text@),
        }
    }
}

/// All that evaluation reads and changes: the bindings, the files at hand,
/// what was asked of the outside, and how deep evaluation may nest.
pub struct Env {
    globals: Scope,
    locals: Vec<Scope>,
    files: Table<String>,
    effects: Vec<Effect>,
    depth_limit: usize,
}

impl View for Env {
    type V = World;

    closed spec fn view(&self) -> World {
        World {
            globals: self.globals@,
            locals: Seq::new(self.locals@.len(), |i: int| self.locals@[i]@),
            files: self.files@,
            effects: Seq::new(self.effects@.len(), |i: int| self.effects@[i]@),
        }
    }
}

/// The term or the failure that a result holds.
pub open spec fn outcome(r: Result<Expr, EvalError>) -> Result<Term, Failure> {
    match r {
        Ok(expr) => Ok(expr@),
        Err(error) => Err(error@),
    }
}

/// The failure that an optional error holds.
pub open spec fn failure(r: Option<EvalError>) -> Option<Failure> {
    match r {
        Some(error) => Some(error@),
        None => None,
    }
}

/// What holds after a step of evaluation that the model describes: the
/// result and the environment are those that the model gives.
pub open spec fn meets(
    r: Result<Expr, EvalError>,
    before: Env,
    after: Env,
    expected: Outcome,
) -> bool {
    outcome(r) == expected.0 && follows(before, after, expected.1)
}

/// What holds of an environment after a step of evaluation that the model
/// describes: it stands for the world that the model gives, it has as many
/// local scopes as before, and its depth limit is unchanged.
pub open spec fn follows(before: Env, after: Env, expected: World) -> bool {
    &&& after@ == expected
    &&& after@.locals.len() == before@.locals.len()
    &&& after.limit() == before.limit()
}

impl Env {
    /// How deep evaluation may nest.
    pub closed spec fn limit(&self) -> usize {
        self.depth_limit
    }

    /// An environment without bindings, files or effects.
    pub fn new() -> (r: Env)
        ensures
            r@ == (World {
                globals: Map::empty(),
                locals: Seq::empty(),
                files: Map::empty(),
                effects: Seq::empty(),
            }),
            r.limit() == DEFAULT_DEPTH,
    {
        let r = Env {
            globals: Table::new(),
            locals: Vec::new(),
            files: Table::new(),
            effects: Vec::new(),
            depth_limit: DEFAULT_DEPTH,
        };
        proof {
            assert(r@.locals =~= Seq::empty());
            assert(r@.effects =~= Seq::empty());
        }
        r
    }

    /// How deep evaluation may nest.
    pub fn depth_limit(&self) -> (r: usize)
        ensures
            r == self.limit(),
    {
        self.depth_limit
    }

    /// Sets how deep evaluation may nest.
    pub fn set_depth_limit(&mut self, limit: usize)
        ensures
            final(self)@ == old(self)@,
            final(self).limit() == limit,
    {
        self.depth_limit = limit;
    }

    /// Puts the text of a file at hand, in place of what was at hand for the
    /// path before.
    pub fn provide_file(&mut self, path: String, text: String)
        ensures
            final(self)@ == (World { files: old(self)@.files.insert(path@, text@), ..old(self)@ }),
            final(self).limit() == old(self).limit(),
    {
        self.files.insert(path, text);
    }

    /// Hands out what was asked of the outside, in order, and forgets it.
    pub fn take_effects(&mut self) -> (r: Vec<Effect>)
        ensures
            final(self)@ == (World { effects: Seq::empty(), ..old(self)@ }),
            final(self).limit() == old(self).limit(),
            r@.len() == old(self)@.effects.len(),
            forall|i: int| 0 <= i < r@.len() ==> r@[i]@ == old(self)@.effects[i],
    {
        let mut effects: Vec<Effect> = Vec::new();
        core::mem::swap(&mut self.effects, &mut effects);
        proof {
            assert(self@.effects =~= Seq::empty());
        }
        effects
    }

    /// A copy of what a name is bound to in the innermost scope that binds
    /// it, the global scope being the outermost.
    pub fn resolve(&self, name: &str) -> (r: Option<Expr>)
        ensures
            match r {
                Some(expr) => model::resolve(self@, name@) == Some(expr@),
                None => model::resolve(self@, name@) is None,
            },
    {
        let mut i: usize = self.locals.len();
        proof {
            assert(self@.locals.take(i as int) =~= self@.locals);
        }
        while i > 0
            invariant
                i <= self.locals.len(),
                model::resolve_local(self@.locals, name@) == model::resolve_local(
                    self@.locals.take(i as int),
                    name@,
                ),
            decreases i,
        {
            proof {
                assert(self@.locals.take(i as int).drop_last() =~= self@.locals.take(i - 1));
            }
            i -= 1;
            match self.locals[i].get(name) {
                Some(value) => {
                    return Some(duplicate(value));
                },
                None => {},
            }
        }
        match self.globals.get(name) {
            Some(value) => Some(duplicate(value)),
            None => None,
        }
    }

    /// Opens a local scope.
    pub(crate) fn push_scope(&mut self)
        ensures
            final(self)@ == model::pushed(old(self)@),
            final(self).limit() == old(self).limit(),
    {
        self.locals.push(Table::new());
        proof {
            assert(self@.locals =~= old(self)@.locals.push(Map::empty()));
        }
    }

    /// Leaves the innermost local scope.
    pub(crate) fn pop_scope(&mut self)
        ensures
            final(self)@ == model::popped(old(self)@),
            final(self).limit() == old(self).limit(),
    {
        let _ = self.locals.pop();
        proof {
            if old(self)@.locals.len() == 0 {
                assert(self@.locals =~= old(self)@.locals);
            } else {
                assert(self@.locals =~= old(self)@.locals.drop_last());
            }
        }
    }

    /// Binds a name in the innermost local scope, if there is one.
    pub(crate) fn bind_local(&mut self, name: String, value: Expr)
        ensures
            final(self)@ == model::bound_local(old(self)@, name@, value@),
            final(self).limit() == old(self).limit(),
    {
        match self.locals.pop() {
            Some(mut top) => {
                top.insert(name, value);
                self.locals.push(top);
                proof {
                    assert(self@.locals =~= old(self)@.locals.drop_last().push(
                        old(self)@.locals.last().insert(name@, value@),
                    ));
                }
            },
            None => {
                proof {
                    assert(self@.locals =~= old(self)@.locals);
                }
            },
        }
    }

    /// Binds a name in the global scope.
    pub(crate) fn bind_global(&mut self, name: String, value: Expr)
        ensures
            final(self)@ == model::bound_global(old(self)@, name@, value@),
            final(self).limit() == old(self).limit(),
    {
        self.globals.insert(name, value);
    }

    /// Notes a request to the outside.
    pub(crate) fn emit(&mut self, effect: Effect)
        ensures
            final(self)@ == model::emitted(old(self)@, effect@),
            final(self).limit() == old(self).limit(),
    {
        self.effects.push(effect);
        proof {
            assert(self@.effects =~= old(self)@.effects.push(effect@));
        }
    }

    /// Forgets the texts of all files.
    pub fn forget_files(&mut self)
        ensures
            final(self)@ == (World { files: Map::empty(), ..old(self)@ }),
            final(self).limit() == old(self).limit(),
    {
        self.files = Table::new();
    }

    /// A copy of the text of a file, if it is at hand.
    pub fn file_text(&self, path: &str) -> (r: Option<String>)
        ensures
            match r {
                Some(text) => self@.files.contains_key(path@) && text@ == self@.files[path@],
                None => !self@.files.contains_key(path@),
            },
    {
        match self.files.get(path) {
            Some(text) => Some(text.clone()),
            None => None,
        }
    }
}

impl Keyword {
    /// The primitive that a name stands for, if it is a keyword.
    pub fn of(name: &str) -> (r: Option<Keyword>)
        ensures
            r == model::keyword_of(name@),
    {
        proof {
            reveal_strlit("=");
            reveal_strlit("+");
            reveal_strlit("-");
            reveal_strlit("*");
            reveal_strlit("/");
            reveal_strlit("%");
            reveal_strlit("car");
            reveal_strlit("cdr");
            reveal_strlit("quote");
            reveal_strlit("string");
            reveal_strlit("define");
            reveal_strlit("lambda");
            reveal_strlit("load");
            reveal_strlit("if");
            reveal_strlit("and");
            reveal_strlit("or");
            reveal_strlit("not");
            reveal_strlit("atom");
            reveal_strlit("slurp");
            reveal_strlit("write");
            reveal_strlit("print");
            reveal_strlit("println");
            assert("="@ =~= seq!['=']);
            assert("+"@ =~= seq!['+']);
            assert("-"@ =~= seq!['-']);
            assert("*"@ =~= seq!['*']);
            assert("/"@ =~= seq!['/']);
            assert("%"@ =~= seq!['%']);
            assert("car"@ =~= seq!['c', 'a', 'r']);
            assert("cdr"@ =~= seq!['c', 'd', 'r']);
            assert("quote"@ =~= seq!['q', 'u', 'o', 't', 'e']);
            assert("string"@ =~= seq!['s', 't', 'r', 'i', 'n', 'g']);
            assert("define"@ =~= seq!['d', 'e', 'f', 'i', 'n', 'e']);
            assert("lambda"@ =~= seq!['l', 'a', 'm', 'b', 'd', 'a']);
            assert("load"@ =~= seq!['l', 'o', 'a', 'd']);
            assert("if"@ =~= seq!['i', 'f']);
            assert("and"@ =~= seq!['a', 'n', 'd']);
            assert("or"@ =~= seq!['o', 'r']);
            assert("not"@ =~= seq!['n', 'o', 't']);
            assert("atom"@ =~= seq!['a', 't', 'o', 'm']);
            assert("slurp"@ =~= seq!['s', 'l', 'u', 'r', 'p']);
            assert("write"@ =~= seq!['w', 'r', 'i', 't', 'e']);
            assert("print"@ =~= seq!['p', 'r', 'i', 'n', 't']);
            assert("println"@ =~= seq!['p', 'r', 'i', 'n', 't', 'l', 'n']);
        }
        if str_equal(name, "=") {
            Some(Keyword::Equal)
        } else if str_equal(name, "+") {
            Some(Keyword::Add)
        } else if str_equal(name, "-") {
            Some(Keyword::Subtract)
        } else if str_equal(name, "*") {
            Some(Keyword::Multiply)
        } else if str_equal(name, "/") {
            Some(Keyword::Divide)
        } else if str_equal(name, "%") {
            Some(Keyword::Modulo)
        } else if str_equal(name, "car") {
            Some(Keyword::Car)
        } else if str_equal(name, "cdr") {
            Some(Keyword::Cdr)
        } else if str_equal(name, "quote") {
            Some(Keyword::Quote)
        } else if str_equal(name, "string") {
            Some(Keyword::StringOf)
        } else if str_equal(name, "define") {
            Some(Keyword::Define)
        } else if str_equal(name, "lambda") {
            Some(Keyword::Lambda)
        } else if str_equal(name, "load") {
            Some(Keyword::Load)
        } else if str_equal(name, "if") {
            Some(Keyword::If)
        } else if str_equal(name, "and") {
            Some(Keyword::And)
        } else if str_equal(name, "or") {
            Some(Keyword::Or)
        } else if str_equal(name, "not") {
            Some(Keyword::Not)
        } else if str_equal(name, "atom") {
            Some(Keyword::Atom)
        } else if str_equal(name, "slurp") {
            Some(Keyword::Slurp)
        } else if str_equal(name, "write") {
            Some(Keyword::Write)
        } else if str_equal(name, "print") {
            Some(Keyword::Print)
        } else if str_equal(name, "println") {
            Some(Keyword::Println)
        } else {
            None
        }
    }
}

/// Whether an expression is the symbol of the given name.
pub fn expr_is_string(expr: &Expr, string: &str) -> (r: bool)
    ensures
        r == (expr@ == Term::Symbol(string@)),
{
    match expr {
        Expr::Atom(atom) => match &**atom {
            Atom::Symbol(s) => str_equal(s.as_str(), string),
            _ => false,
        },
        _ => false,
    }
}

/// Copies of the items of a list after the first.
fn rest_of(list: &Vec<Expr>) -> (r: Vec<Expr>)
    requires
        list.len() > 0,
    ensures
        terms(r@) == terms(list@).skip(1),
{
    let mut r: Vec<Expr> = Vec::new();
    let mut i: usize = 1;
    while i < list.len()
        invariant
            1 <= i <= list.len(),
            r@.len() == i - 1,
            forall|j: int| 0 <= j < r@.len() ==> r@[j]@ == list@[j + 1]@,
        decreases list.len() - i,
    {
        r.push(duplicate(&list[i]));
        i += 1;
    }
    proof {
        assert(terms(r@) =~= terms(list@).skip(1));
    }
    r
}

/// A nested evaluation: it takes one unit of depth, and fails where none is
/// left.
pub fn descend(env: &mut Env, expr: &Expr, depth: usize) -> (r: Result<Expr, EvalError>)
    ensures
        meets(r, *old(env), *final(env), model::descend(old(env)@, expr@, depth as nat)),
    decreases depth, 0int, 0int,
{
    if depth == 0 {
        Err(EvalError::DepthExceeded)
    } else {
        simplify(env, expr, depth - 1)
    }
}

/// Evaluates an expression.
pub fn simplify(env: &mut Env, expr: &Expr, depth: usize) -> (r: Result<Expr, EvalError>)
    ensures
        meets(r, *old(env), *final(env), model::simplify(old(env)@, expr@, depth as nat)),
    decreases depth, 10int, 0int,
{
    match expr {
        Expr::List(list) => {
            proof {
                lemma_list_term(*list);
            }
            eval_list(env, list, depth)
        },
        Expr::Atom(atom) => match &**atom {
            Atom::Symbol(s) => get_symbol(env, s, depth),
            _ => Ok(duplicate(expr)),
        },
    }
}

/// Evaluates what a symbol is bound to.
pub fn get_symbol(env: &mut Env, s: &String, depth: usize) -> (r: Result<Expr, EvalError>)
    ensures
        meets(r, *old(env), *final(env), model::get_symbol(old(env)@, s@, depth as nat)),
    decreases depth, 9int, 0int,
{
    match env.resolve(s.as_str()) {
        Some(bound) => descend(env, &bound, depth),
        None => Err(EvalError::UnboundSymbol(s.clone())),
    }
}

/// Evaluates a call: the first item of the list names the function, the
/// others are its arguments.
pub fn eval_list(env: &mut Env, list: &Vec<Expr>, depth: usize) -> (r: Result<Expr, EvalError>)
    ensures
        meets(r, *old(env), *final(env), model::eval_list(old(env)@, terms(list@), depth as nat)),
    decreases depth, 9int, 0int,
{
    if list.len() == 0 {
        return Err(EvalError::EmptyExpression);
    }
    let cdr = rest_of(list);
    let first = match &list[0] {
        Expr::List(_) => match descend(env, &list[0], depth) {
            Ok(value) => value,
            Err(error) => {
                return Err(error);
            },
        },
        Expr::Atom(_) => duplicate(&list[0]),
    };
    match first {
        Expr::Atom(atom) => eval_car_cdr(env, *atom, &cdr, depth),
        Expr::List(_) => Err(EvalError::NotAFunctionName),
    }
}

/// Evaluates a call whose first item has been evaluated to an atom, which
/// has to be a symbol.
pub fn eval_car_cdr(env: &mut Env, car: Atom, cdr: &Vec<Expr>, depth: usize) -> (r: Result<
    Expr,
    EvalError,
>)
    ensures
        meets(
            r,
            *old(env),
            *final(env),
            model::eval_car_cdr(old(env)@, car@, terms(cdr@), depth as nat),
        ),
    decreases depth, 8int, 0int,
{
    match car {
        Atom::Symbol(name) => apply(env, &name, cdr, depth),
        _ => Err(EvalError::NotAFunctionName),
    }
}

/// Applies a function to arguments that are not evaluated yet.
pub fn apply(env: &mut Env, func: &String, args: &Vec<Expr>, depth: usize) -> (r: Result<
    Expr,
    EvalError,
>)
    ensures
        meets(
            r,
            *old(env),
            *final(env),
            model::apply(old(env)@, func@, terms(args@), depth as nat),
        ),
    decreases depth, 7int, 0int,
{
    match Keyword::of(func.as_str()) {
        Some(keyword) => apply_keyword(env, keyword, args, depth),
        None => match env.resolve(func.as_str()) {
            Some(bound) => match descend(env, &bound, depth) {
                Ok(value) => match value {
                    Expr::Atom(atom) => match *atom {
                        Atom::Lambda(def) => {
                            proof {
                                lemma_lambda_term(def);
                            }
                            execute_lambda(env, &def, args, depth)
                        },
                        _ => Err(EvalError::SymbolCannotBeUsedAsFunction),
                    },
                    Expr::List(_) => Err(EvalError::SymbolCannotBeUsedAsFunction),
                },
                Err(error) => Err(error),
            },
            None => Err(EvalError::UnrecognizedFunction(func.clone())),
        },
    }
}

/// Applies a primitive to arguments that are not evaluated yet.
pub fn apply_keyword(env: &mut Env, keyword: Keyword, args: &Vec<Expr>, depth: usize) -> (r: Result<
    Expr,
    EvalError,
>)
    ensures
        meets(
            r,
            *old(env),
            *final(env),
            model::apply_keyword(old(env)@, keyword, terms(args@), depth as nat),
        ),
    decreases depth, 6int, 0int,
{
    match keyword {
        Keyword::Equal => math::eq(env, args, depth),
        Keyword::Add => math::add(env, args, depth),
        Keyword::Subtract => math::sub(env, args, depth),
        Keyword::Multiply => math::mul(env, args, depth),
        Keyword::Divide => math::div(env, args, depth),
        Keyword::Modulo => math::modulo(env, args, depth),
        Keyword::Car => built_in::car(env, args, depth),
        Keyword::Cdr => built_in::cdr(env, args, depth),
        Keyword::Quote => built_in::quote(env, args),
        Keyword::StringOf => built_in::string(env, args, depth),
        Keyword::Define => built_in::define(env, args),
        Keyword::Lambda => built_in::lambda(env, args),
        Keyword::Load => built_in::load(env, args, depth),
        Keyword::If => boolean::if_op(env, args, depth),
        Keyword::And => boolean::and(env, args, depth),
        Keyword::Or => boolean::or(env, args, depth),
        Keyword::Not => boolean::not(env, args, depth),
        Keyword::Atom => boolean::atom(env, args, depth),
        Keyword::Slurp => sys::slurp(env, args, depth),
        Keyword::Write => sys::write(env, args, depth),
        Keyword::Print => sys::print(env, args, depth),
        Keyword::Println => sys::println(env, args, depth),
    }
}

/// Binds the parameters of a lambda, in order, in the innermost scope.
#[verifier::loop_isolation(false)]
fn bind_params(env: &mut Env, params: &Vec<Expr>, args: &Vec<Expr>, depth: usize) -> (r: Option<
    EvalError,
>)
    requires
        params.len() == args.len(),
    ensures
        failure(r) == model::bind_params(
            old(env)@,
            terms(params@),
            terms(args@),
            0,
            depth as nat,
        ).0,
        follows(
            *old(env),
            *final(env),
            model::bind_params(old(env)@, terms(params@), terms(args@), 0, depth as nat).1,
        ),
    decreases depth, 3int, 0int,
{
    let ghost start = *env;
    let ghost names = terms(params@);
    let ghost values = terms(args@);
    let mut i: usize = 0;
    while i < params.len()
        invariant
            i <= params.len(),
            params.len() == args.len(),
            names == terms(params@),
            values == terms(args@),
            env@.locals.len() == start@.locals.len(),
            env.limit() == start.limit(),
            model::bind_params(start@, names, values, 0, depth as nat) == model::bind_params(
                env@,
                names,
                values,
                i as int,
                depth as nat,
            ),
        decreases params.len() - i,
    {
        let name = match &params[i] {
            Expr::Atom(atom) => match &**atom {
                Atom::Symbol(s) => s,
                _ => {
                    return Some(EvalError::InvalidParameterName);
                },
            },
            Expr::List(_) => {
                return Some(EvalError::InvalidParameterName);
            },
        };
        if !expr_is_string(&args[i], name.as_str()) {
            match descend(env, &args[i], depth) {
                Ok(value) => {
                    env.bind_local(name.clone(), value);
                },
                Err(error) => {
                    return Some(error);
                },
            }
        }
        i += 1;
    }
    None
}

/// Applies a lambda to arguments that are not evaluated yet.
pub fn execute_lambda(env: &mut Env, lambda_def: &LambdaDef, args: &Vec<Expr>, depth: usize) -> (r:
    Result<Expr, EvalError>)
    ensures
        meets(
            r,
            *old(env),
            *final(env),
            model::execute_lambda(
                old(env)@,
                terms(lambda_def.params@),
                lambda_def.body@,
                terms(args@),
                depth as nat,
            ),
        ),
    decreases depth, 4int, 0int,
{
    if lambda_def.params.len() != args.len() {
        return Err(EvalError::ArityMismatch);
    }
    env.push_scope();
    match bind_params(env, &lambda_def.params, args, depth) {
        Some(error) => {
            env.pop_scope();
            Err(error)
        },
        None => {
            let result = descend(env, &*lambda_def.body, depth);
            env.pop_scope();
            result
        },
    }
}

/// What holds after a step of evaluation from one world to another that the
/// model describes: the result and the world after it are those that the
/// model gives, and there are as many local scopes as before.
pub open spec fn accords(
    r: Result<Expr, EvalError>,
    before: World,
    after: World,
    expected: Outcome,
) -> bool {
    &&& outcome(r) == expected.0
    &&& after == expected.1
    &&& after.locals.len() == before.locals.len()
}

impl Clone for Env {
    fn clone(&self) -> (r: Env)
        ensures
            r@ == self@,
            r.limit() == self.limit(),
    {
        let mut locals: Vec<Scope> = Vec::new();
        let mut i: usize = 0;
        while i < self.locals.len()
            invariant
                i <= self.locals.len(),
                locals@.len() == i,
                forall|j: int| 0 <= j < i ==> locals@[j]@ == self.locals@[j]@,
            decreases self.locals.len() - i,
        {
            locals.push(self.locals[i].duplicate());
            i += 1;
        }
        let mut effects: Vec<Effect> = Vec::new();
        let mut k: usize = 0;
        while k < self.effects.len()
            invariant
                k <= self.effects.len(),
                effects@.len() == k,
                forall|j: int| 0 <= j < k ==> effects@[j]@ == self.effects@[j]@,
            decreases self.effects.len() - k,
        {
            let copy = match &self.effects[k] {
                Effect::Print(text) => Effect::Print(text.clone()),
                Effect::Write(path, text) => Effect::Write(path.clone(), text.clone()),
            };
            effects.push(copy);
            k += 1;
        }
        let r = Env {
            globals: self.globals.duplicate(),
            locals,
            files: self.files.duplicate(),
            effects,
            depth_limit: self.depth_limit,
        };
        proof {
            assert(r@.locals =~= self@.locals);
            assert(r@.effects =~= self@.effects);
        }
        r
    }
}

/// Whether a line is to be evaluated: it is not empty, and it does not start
/// with a semicolon, which would make it a comment.
pub open spec fn is_code(line: Seq<char>) -> bool {
    line.len() > 0 && line[0] != ';'
}

/// The world after the lines from index `from` on were evaluated in order,
/// whatever came of each. A line that is no code is passed over.
pub open spec fn interpreted(world: World, lines: Seq<Seq<char>>, from: int, depth: nat) -> World
    decreases lines.len() - from,
{
    if from < 0 || from >= lines.len() {
        world
    } else if is_code(lines[from]) {
        interpreted(model::eval(world, lines[from], depth).1, lines, from + 1, depth)
    } else {
        interpreted(world, lines, from + 1, depth)
    }
}

/// Whether a line is to be evaluated.
pub fn is_code_line(input: &String) -> (r: bool)
    ensures
        r == is_code(input@),
{
    let chars = chars_of(input.as_str());
    chars.len() > 0 && chars[0] != ';'
}

/// How an attempt at an evaluation ended.
#[derive(Debug)]
pub enum Step {
    /// The evaluation came to a result, and the environment is the one after
    /// it.
    Done(Result<Expr, EvalError>),
    /// The evaluation asked for a file that is not at hand. The environment
    /// is as it was before the attempt.
    Wanted(String),
}

/// Evaluates a text, unless that takes a file that is not at hand: then the
/// environment stays as it was, and the path of the file is handed out, so
/// that the file can be put at hand and the text be tried again.
pub fn attempt(env: &mut Env, input: &String) -> (r: Step)
    ensures
        final(env).limit() == old(env).limit(),
        match r {
            Step::Done(result) => !(outcome(result) matches Err(Failure::FileUnavailable(_)))
                && meets(
                result,
                *old(env),
                *final(env),
                model::eval(old(env)@, input@, old(env).limit() as nat),
            ),
            Step::Wanted(path) => model::eval(old(env)@, input@, old(env).limit() as nat).0
                == Err::<Term, Failure>(Failure::FileUnavailable(path@)) && final(env)@ == old(
                env,
            )@,
        },
{
    let mut trial = env.clone();
    match trial.eval(input) {
        Err(EvalError::FileUnavailable(path)) => Step::Wanted(path),
        result => {
            *env = trial;
            Step::Done(result)
        },
    }
}

/// Evaluates a line, unless it is empty or a comment. The result is `None`
/// where the line was passed over.
pub fn interpret_line(input: &String, env: &mut Env) -> (r: Option<Result<Expr, EvalError>>)
    ensures
        match r {
            Some(result) => is_code(input@) && meets(
                result,
                *old(env),
                *final(env),
                model::eval(old(env)@, input@, old(env).limit() as nat),
            ),
            None => !is_code(input@) && follows(*old(env), *final(env), old(env)@),
        },
{
    if is_code_line(input) {
        Some(env.eval(input))
    } else {
        None
    }
}

/// Evaluates the top-level expressions of a text in order, whatever comes of
/// each.
pub fn interpret_raw_text(text: &String, env: &mut Env)
    ensures
        follows(
            *old(env),
            *final(env),
            interpreted(old(env)@, chunk_texts(text@), 0, old(env).limit() as nat),
        ),
{
    let lines = chunk_file(text);
    let ghost start = *env;
    let ghost all = texts(lines@);
    let mut i: usize = 0;
    while i < lines.len()
        invariant
            i <= lines.len(),
            all == texts(lines@),
            env@.locals.len() == start@.locals.len(),
            env.limit() == start.limit(),
            interpreted(start@, all, 0, start.limit() as nat) == interpreted(
                env@,
                all,
                i as int,
                start.limit() as nat,
            ),
        decreases lines.len() - i,
    {
        let _ = interpret_line(&lines[i], env);
        i += 1;
    }
}

/// Evaluation in an environment, to the depth that the environment allows.
pub trait Eval {
    /// The world that the environment stands for.
    spec fn world(&self) -> World;

    /// How deep evaluation may nest.
    spec fn depth(&self) -> nat;

    /// Reads a text and evaluates the expression that it stands for. A text
    /// whose parentheses do not balance is a syntax error, and nothing is
    /// evaluated.
    fn eval(&mut self, input: &String) -> (r: Result<Expr, EvalError>)
        ensures
            accords(
                r,
                old(self).world(),
                final(self).world(),
                model::eval(old(self).world(), input@, old(self).depth()),
            ),
            final(self).depth() == old(self).depth(),
            paren_balance(input@) != 0 ==> r == Err::<Expr, EvalError>(EvalError::SyntaxError)
                && final(self).world() == old(self).world(),
    ;

    /// Evaluates a call.
    fn eval_list(&mut self, list: &Vec<Expr>) -> (r: Result<Expr, EvalError>)
        ensures
            accords(
                r,
                old(self).world(),
                final(self).world(),
                model::eval_list(old(self).world(), terms(list@), old(self).depth()),
            ),
            final(self).depth() == old(self).depth(),
    ;

    /// Evaluates a call whose first item has been evaluated to an atom.
    fn eval_car_cdr(&mut self, car: Atom, cdr: &Vec<Expr>) -> (r: Result<Expr, EvalError>)
        ensures
            accords(
                r,
                old(self).world(),
                final(self).world(),
                model::eval_car_cdr(old(self).world(), car@, terms(cdr@), old(self).depth()),
            ),
            final(self).depth() == old(self).depth(),
    ;

    /// Applies a function to arguments that are not evaluated yet.
    fn apply(&mut self, func: &String, args: &Vec<Expr>) -> (r: Result<Expr, EvalError>)
        ensures
            accords(
                r,
                old(self).world(),
                final(self).world(),
                model::apply(old(self).world(), func@, terms(args@), old(self).depth()),
            ),
            final(self).depth() == old(self).depth(),
    ;

    /// Evaluates an expression.
    fn simplify(&mut self, expr: &Expr) -> (r: Result<Expr, EvalError>)
        ensures
            accords(
                r,
                old(self).world(),
                final(self).world(),
                model::simplify(old(self).world(), expr@, old(self).depth()),
            ),
            final(self).depth() == old(self).depth(),
    ;

    /// Evaluates what a symbol is bound to.
    fn get_symbol(&mut self, s: &String) -> (r: Result<Expr, EvalError>)
        ensures
            accords(
                r,
                old(self).world(),
                final(self).world(),
                model::get_symbol(old(self).world(), s@, old(self).depth()),
            ),
            final(self).depth() == old(self).depth(),
    ;

    /// Applies a lambda to arguments that are not evaluated yet.
    fn execute_lambda(&mut self, lambda_def: &LambdaDef, args: &Vec<Expr>) -> (r: Result<
        Expr,
        EvalError,
    >)
        ensures
            accords(
                r,
                old(self).world(),
                final(self).world(),
                model::execute_lambda(
                    old(self).world(),
                    terms(lambda_def.params@),
                    lambda_def.body@,
                    terms(args@),
                    old(self).depth(),
                ),
            ),
            final(self).depth() == old(self).depth(),
    ;
}

impl Eval for Env {
    open spec fn world(&self) -> World {
        self@
    }

    open spec fn depth(&self) -> nat {
        self.limit() as nat
    }

    fn eval(&mut self, input: &String) -> (r: Result<Expr, EvalError>) {
        match parse(input) {
            Ok(expr) => simplify(self, &expr, self.depth_limit),
            Err(error) => Err(error),
        }
    }

    fn eval_list(&mut self, list: &Vec<Expr>) -> (r: Result<Expr, EvalError>) {
        eval_list(self, list, self.depth_limit)
    }

    fn eval_car_cdr(&mut self, car: Atom, cdr: &Vec<Expr>) -> (r: Result<Expr, EvalError>) {
        eval_car_cdr(self, car, cdr, self.depth_limit)
    }

    fn apply(&mut self, func: &String, args: &Vec<Expr>) -> (r: Result<Expr, EvalError>) {
        apply(self, func, args, self.depth_limit)
    }

    fn simplify(&mut self, expr: &Expr) -> (r: Result<Expr, EvalError>) {
        simplify(self, expr, self.depth_limit)
    }

    fn get_symbol(&mut self, s: &String) -> (r: Result<Expr, EvalError>) {
        get_symbol(self, s, self.depth_limit)
    }

    fn execute_lambda(&mut self, lambda_def: &LambdaDef, args: &Vec<Expr>) -> (r: Result<
        Expr,
        EvalError,
    >) {
        execute_lambda(self, lambda_def, args, self.depth_limit)
    }
}

} // verus!
