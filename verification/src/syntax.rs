//! The expression tree, its mathematical model, and its printed form.

use vstd::prelude::*;
use vstd::std_specs::cmp::PartialEqSpecImpl;
use vstd::string::StringExecFns;
use ansi_term::Colour;
use crate::decimal::{decimal_text, same_number, Decimal};
use crate::lex::{lemma_number_text_is_read, reads_as};
use crate::text::str_equal;

verus! {

/// An expression: a list of expressions, or an atom.
#[derive(Debug)]
pub enum Expr {
    List(Vec<Expr>),
    Atom(Box<Atom>),
}

/// A leaf of the tree.
#[derive(Debug)]
pub enum Atom {
    Boolean(bool),
    /// A text, with the quote characters that delimit it in the source.
    StringLiteral(String),
    Number(Decimal),
    Symbol(String),
    Lambda(LambdaDef),
    Nil,
}

/// A function value: its parameters, each of which is to be a symbol, and
/// the one expression that is its body.
#[derive(Debug)]
pub struct LambdaDef {
    pub params: Vec<Expr>,
    pub body: Box<Expr>,
}

/// The mathematical model of an [`Expr`].
pub ghost enum Term {
    List(Seq<Term>),
    Boolean(bool),
    Text(Seq<char>),
    /// A number, as unscaled integer and scale.
    Number((int, int)),
    Symbol(Seq<char>),
    Lambda(Seq<Term>, Box<Term>),
    Nil,
}

impl Expr {
    /// The term that an expression stands for.
    pub open spec fn term(self) -> Term
        decreases self,
    {
        match self {
            Expr::List(items) => Term::List(
                Seq::new(
                    items@.len(),
                    |i: int|
                        if 0 <= i < items@.len() {
                            items@[i].term()
                        } else {
                            Term::Nil
                        },
                ),
            ),
            Expr::Atom(atom) => match *atom {
                Atom::Boolean(b) => Term::Boolean(b),
                Atom::StringLiteral(s) => Term::Text(s@),
                Atom::Number(n) => Term::Number(n@),
                Atom::Symbol(s) => Term::Symbol(s@),
                Atom::Lambda(def) => Term::Lambda(
                    Seq::new(
                        def.params@.len(),
                        |i: int|
                            if 0 <= i < def.params@.len() {
                                def.params@[i].term()
                            } else {
                                Term::Nil
                            },
                    ),
                    Box::new((*def.body).term()),
                ),
                Atom::Nil => Term::Nil,
            },
        }
    }
}

impl Expr {
    /// The atom of a boolean.
    pub fn boolean(value: bool) -> (r: Expr)
        ensures
            r@ == Term::Boolean(value),
    {
        Expr::Atom(Box::new(Atom::Boolean(value)))
    }

    /// The atom of a text.
    pub fn text(value: String) -> (r: Expr)
        ensures
            r@ == Term::Text(value@),
    {
        Expr::Atom(Box::new(Atom::StringLiteral(value)))
    }

    /// The atom of a number.
    pub fn number(value: Decimal) -> (r: Expr)
        ensures
            r@ == Term::Number(value@),
    {
        Expr::Atom(Box::new(Atom::Number(value)))
    }

    /// The atom of a symbol.
    pub fn symbol(name: String) -> (r: Expr)
        ensures
            r@ == Term::Symbol(name@),
    {
        Expr::Atom(Box::new(Atom::Symbol(name)))
    }

    /// The atom nil.
    pub fn nil() -> (r: Expr)
        ensures
            r@ == Term::Nil,
    {
        Expr::Atom(Box::new(Atom::Nil))
    }

    /// The list of the given items.
    pub fn list(items: Vec<Expr>) -> (r: Expr)
        ensures
            r@ == Term::List(terms(items@)),
    {
        proof {
            lemma_list_term(items);
        }
        Expr::List(items)
    }

    /// The atom of a lambda.
    pub fn lambda(params: Vec<Expr>, body: Expr) -> (r: Expr)
        ensures
            r@ == Term::Lambda(terms(params@), Box::new(body@)),
    {
        let def = LambdaDef { params, body: Box::new(body) };
        proof {
            lemma_lambda_term(def);
        }
        Expr::Atom(Box::new(Atom::Lambda(def)))
    }
}

impl View for Expr {
    type V = Term;

    open spec fn view(&self) -> Term {
        self.term()
    }
}

/// The terms that a sequence of expressions stands for.
pub open spec fn terms(items: Seq<Expr>) -> Seq<Term> {
    Seq::new(items.len(), |i: int| items[i]@)
}

impl View for Atom {
    type V = Term;

    open spec fn view(&self) -> Term {
        Expr::Atom(Box::new(*self))@
    }
}

impl View for LambdaDef {
    type V = Term;

    open spec fn view(&self) -> Term {
        Term::Lambda(terms(self.params@), Box::new(self.body@))
    }
}

/// The term of a list is the list of the terms of its items.
pub proof fn lemma_list_term(items: Vec<Expr>)
    ensures
        Expr::List(items)@ == Term::List(terms(items@)),
{
    assert(Expr::List(items).term()->List_0 =~= terms(items@));
}

/// The term of a lambda atom is the lambda of the terms of its parts.
pub proof fn lemma_lambda_term(def: LambdaDef)
    ensures
        Expr::Atom(Box::new(Atom::Lambda(def)))@ == def@,
{
    assert(Expr::Atom(Box::new(Atom::Lambda(def))).term()->Lambda_0 =~= terms(def.params@));
}

/// Whether two terms are equal, numbers being compared by their value.
pub open spec fn equal_terms(a: Term, b: Term) -> bool
    decreases a,
{
    match a {
        Term::List(xs) => b matches Term::List(ys) && equal_items(xs, ys, 0),
        Term::Boolean(x) => b matches Term::Boolean(y) && x == y,
        Term::Text(x) => b matches Term::Text(y) && x == y,
        Term::Number(x) => b matches Term::Number(y) && same_number(x, y),
        Term::Symbol(x) => b matches Term::Symbol(y) && x == y,
        Term::Lambda(xs, x) => b matches Term::Lambda(ys, y) && equal_items(xs, ys, 0)
            && equal_terms(*x, *y),
        Term::Nil => b is Nil,
    }
}

/// Whether two sequences of terms have the same length and are equal item
/// by item from index `from` on.
pub open spec fn equal_items(xs: Seq<Term>, ys: Seq<Term>, from: int) -> bool
    decreases xs, xs.len() - from,
{
    xs.len() == ys.len() && (from < 0 || from >= xs.len() || (equal_terms(xs[from], ys[from])
        && equal_items(xs, ys, from + 1)))
}

/// A copy of a sequence of expressions.
#[verifier::loop_isolation(false)]
fn duplicate_all(items: &Vec<Expr>) -> (r: Vec<Expr>)
    ensures
        terms(r@) == terms(items@),
    decreases items,
{
    let mut r: Vec<Expr> = Vec::new();
    let mut i: usize = 0;
    while i < items.len()
        invariant
            i <= items.len(),
            r@.len() == i,
            forall|j: int| 0 <= j < i ==> r@[j]@ == items@[j]@,
        decreases items.len() - i,
    {
        r.push(duplicate(&items[i]));
        i += 1;
    }
    assert(terms(r@) =~= terms(items@));
    r
}

/// A copy of an expression.
pub fn duplicate(expr: &Expr) -> (r: Expr)
    ensures
        r@ == expr@,
    decreases expr,
{
    match expr {
        Expr::List(items) => {
            let copies = duplicate_all(items);
            proof {
                lemma_list_term(*items);
                lemma_list_term(copies);
            }
            Expr::List(copies)
        },
        Expr::Atom(atom) => match &**atom {
            Atom::Boolean(b) => Expr::Atom(Box::new(Atom::Boolean(*b))),
            Atom::StringLiteral(s) => Expr::Atom(Box::new(Atom::StringLiteral(s.clone()))),
            Atom::Number(n) => Expr::Atom(Box::new(Atom::Number(n.clone()))),
            Atom::Symbol(s) => Expr::Atom(Box::new(Atom::Symbol(s.clone()))),
            Atom::Lambda(def) => {
                let copy = LambdaDef {
                    params: duplicate_all(&def.params),
                    body: Box::new(duplicate(&*def.body)),
                };
                proof {
                    lemma_lambda_term(*def);
                    lemma_lambda_term(copy);
                }
                Expr::Atom(Box::new(Atom::Lambda(copy)))
            },
            Atom::Nil => Expr::Atom(Box::new(Atom::Nil)),
        },
    }
}

impl Clone for Expr {
    fn clone(&self) -> (r: Expr)
        ensures
            r@ == self@,
    {
        duplicate(self)
    }
}

impl Clone for Atom {
    fn clone(&self) -> (r: Atom)
        ensures
            r@ == self@,
    {
        match self {
            Atom::Boolean(b) => Atom::Boolean(*b),
            Atom::StringLiteral(s) => Atom::StringLiteral(s.clone()),
            Atom::Number(n) => Atom::Number(n.clone()),
            Atom::Symbol(s) => Atom::Symbol(s.clone()),
            Atom::Lambda(def) => {
                let copy = def.clone();
                proof {
                    lemma_lambda_term(*def);
                    lemma_lambda_term(copy);
                }
                Atom::Lambda(copy)
            },
            Atom::Nil => Atom::Nil,
        }
    }
}

impl Clone for LambdaDef {
    fn clone(&self) -> (r: LambdaDef)
        ensures
            r@ == self@,
    {
        let params = duplicate_all(&self.params);
        LambdaDef { params, body: Box::new(duplicate(&*self.body)) }
    }
}

/// Whether two sequences of expressions are equal item by item.
#[verifier::loop_isolation(false)]
fn items_equal(xs: &Vec<Expr>, ys: &Vec<Expr>) -> (r: bool)
    ensures
        r == equal_items(terms(xs@), terms(ys@), 0),
    decreases xs,
{
    if xs.len() != ys.len() {
        return false;
    }
    let mut i: usize = 0;
    while i < xs.len()
        invariant
            i <= xs.len(),
            equal_items(terms(xs@), terms(ys@), 0) == equal_items(terms(xs@), terms(ys@), i as int),
        decreases xs.len() - i,
    {
        if !expressions_equal(&xs[i], &ys[i]) {
            return false;
        }
        i += 1;
    }
    true
}

/// Whether two expressions are equal, numbers being compared by their value.
pub fn expressions_equal(a: &Expr, b: &Expr) -> (r: bool)
    ensures
        r == equal_terms(a@, b@),
    decreases a, 1int,
{
    match a {
        Expr::List(xs) => {
            proof {
                lemma_list_term(*xs);
            }
            match b {
                Expr::List(ys) => {
                    proof {
                        lemma_list_term(*ys);
                    }
                    items_equal(xs, ys)
                },
                Expr::Atom(_) => false,
            }
        },
        Expr::Atom(x) => match b {
            Expr::List(_) => false,
            Expr::Atom(y) => atoms_equal(&**x, &**y),
        },
    }
}

/// Whether two atoms are equal, numbers being compared by their value.
pub fn atoms_equal(a: &Atom, b: &Atom) -> (r: bool)
    ensures
        r == equal_terms(a@, b@),
    decreases a, 0int,
{
    match a {
        Atom::Boolean(p) => match b {
            Atom::Boolean(q) => *p == *q,
            _ => false,
        },
        Atom::StringLiteral(p) => match b {
            Atom::StringLiteral(q) => str_equal(p.as_str(), q.as_str()),
            _ => false,
        },
        Atom::Number(p) => match b {
            Atom::Number(q) => p.same_value(q),
            _ => false,
        },
        Atom::Symbol(p) => match b {
            Atom::Symbol(q) => str_equal(p.as_str(), q.as_str()),
            _ => false,
        },
        Atom::Lambda(p) => match b {
            Atom::Lambda(q) => {
                proof {
                    lemma_lambda_term(*p);
                    lemma_lambda_term(*q);
                }
                lambdas_equal(p, q)
            },
            _ => false,
        },
        Atom::Nil => match b {
            Atom::Nil => true,
            _ => false,
        },
    }
}

/// Whether two lambdas have equal parameters and equal bodies.
pub fn lambdas_equal(a: &LambdaDef, b: &LambdaDef) -> (r: bool)
    ensures
        r == equal_terms(a@, b@),
    decreases a,
{
    items_equal(&a.params, &b.params) && expressions_equal(&*a.body, &*b.body)
}

impl PartialEq for Expr {
    fn eq(&self, other: &Expr) -> (r: bool) {
        expressions_equal(self, other)
    }
}

impl PartialEqSpecImpl for Expr {
    open spec fn obeys_eq_spec() -> bool {
        true
    }

    open spec fn eq_spec(&self, other: &Expr) -> bool {
        equal_terms(self@, other@)
    }
}

impl PartialEq for Atom {
    fn eq(&self, other: &Atom) -> (r: bool) {
        atoms_equal(self, other)
    }
}

impl PartialEqSpecImpl for Atom {
    open spec fn obeys_eq_spec() -> bool {
        true
    }

    open spec fn eq_spec(&self, other: &Atom) -> bool {
        equal_terms(self@, other@)
    }
}

impl PartialEq for LambdaDef {
    fn eq(&self, other: &LambdaDef) -> (r: bool) {
        lambdas_equal(self, other)
    }
}

impl PartialEqSpecImpl for LambdaDef {
    open spec fn obeys_eq_spec() -> bool {
        true
    }

    open spec fn eq_spec(&self, other: &LambdaDef) -> bool {
        equal_terms(self@, other@)
    }
}

/// A colour in which an atom is printed.
#[derive(Clone, Copy, Debug)]
pub enum Tint {
    Red,
    Yellow,
}

impl Tint {
    /// The digit that selects the colour in its escape sequence.
    pub open spec fn digit(self) -> char {
        match self {
            Tint::Red => '1',
            Tint::Yellow => '3',
        }
    }
}

/// A text between the escape sequences that switch a colour on and off.
pub open spec fn painted(tint: Tint, text: Seq<char>) -> Seq<char> {
    seq!['\u{1b}', '[', '3', tint.digit(), 'm'] + text + seq!['\u{1b}', '[', '0', 'm']
}

/// A text as it is printed: painted where colour is asked for.
pub open spec fn tinted(tint: Tint, text: Seq<char>, color: bool) -> Seq<char> {
    if color {
        painted(tint, text)
    } else {
        text
    }
}

/// Calls `Colour::paint` of `ansi_term`, on the colour of that crate that
/// the tint stands for, and `to_string` on what it returns. The result is
/// the text, with the escape sequence that selects the colour before it and
/// the sequence that resets it after it.
#[verifier::external_body]
fn paint(tint: Tint, text: &str) -> (r: String)
    ensures
        r@ == painted(tint, text@),
{
    let colour = match tint {
        Tint::Red => Colour::Red,
        Tint::Yellow => Colour::Yellow,
    };
    colour.paint(text).to_string()
}

/// The printed form of a term.
pub open spec fn render(t: Term, color: bool) -> Seq<char>
    decreases t, 0int,
{
    match t {
        Term::List(items) => render_list(items, color),
        Term::Boolean(b) => tinted(
            Tint::Red,
            if b {
                seq!['#', 't']
            } else {
                seq!['#', 'f']
            },
            color,
        ),
        Term::Text(s) => tinted(Tint::Yellow, s, color),
        Term::Number(n) => tinted(Tint::Red, decimal_text(n), color),
        Term::Symbol(s) => s,
        Term::Lambda(params, body) => seq!['(', 'l', 'a', 'm', 'b', 'd', 'a', ' '] + render_list(
            params,
            color,
        ) + seq![' '] + render(*body, color) + seq![')'],
        Term::Nil => tinted(Tint::Red, seq!['n', 'i', 'l'], color),
    }
}

/// The printed form of a list: its items between parentheses.
pub open spec fn render_list(items: Seq<Term>, color: bool) -> Seq<char>
    decreases items, items.len() + 1,
{
    seq!['('] + render_items(items, 0, color) + seq![')']
}

/// The printed forms of the items from index `from` on, each but the first
/// of the list after a space.
pub open spec fn render_items(items: Seq<Term>, from: int, color: bool) -> Seq<char>
    decreases items, items.len() - from,
{
    if from < 0 || from >= items.len() {
        Seq::empty()
    } else {
        (if from > 0 {
            seq![' ']
        } else {
            Seq::empty()
        }) + render(items[from], color) + render_items(items, from + 1, color)
    }
}

/// Whether the printed form of a term, where the term is a number, is read
/// back without a syntax error as a number of the same value.
pub open spec fn reads_back(t: Term, printed: Seq<char>) -> bool {
    t matches Term::Number(n) ==> reads_as(printed, n)
}

/// The printed form of an expression, with or without colour. The printed
/// form of a number, without colour, is read back as a number of the same
/// value.
pub fn print_tree(expr_tree: &Expr, color: &bool) -> (r: String)
    ensures
        r@ == render(expr_tree@, *color),
        !*color ==> reads_back(expr_tree@, r@),
    decreases expr_tree, 1int,
{
    match expr_tree {
        Expr::List(items) => {
            proof {
                lemma_list_term(*items);
            }
            print_list(items, color)
        },
        Expr::Atom(atom) => print_atom(&**atom, color),
    }
}

/// The printed form of a lambda: the word `lambda`, its parameters and its
/// body, between parentheses.
fn print_lambda(lambda: &LambdaDef, color: &bool) -> (r: String)
    ensures
        r@ == render(lambda@, *color),
    decreases lambda, 0int,
{
    let mut acc = String::from_str("(lambda ");
    proof {
        reveal_strlit("(lambda ");
        reveal_strlit(" ");
        reveal_strlit(")");
        assert(acc@ =~= seq!['(', 'l', 'a', 'm', 'b', 'd', 'a', ' ']);
        assert(" "@ =~= seq![' ']);
        assert(")"@ =~= seq![')']);
    }
    let params = print_list(&lambda.params, color);
    acc.append(params.as_str());
    acc.append(" ");
    let body = print_tree(&*lambda.body, color);
    acc.append(body.as_str());
    acc.append(")");
    acc
}

/// The printed form of a list of expressions.
#[verifier::loop_isolation(false)]
fn print_list(expr_list: &Vec<Expr>, color: &bool) -> (r: String)
    ensures
        r@ == render_list(terms(expr_list@), *color),
    decreases expr_list, 0int,
{
    let mut acc = String::from_str("(");
    proof {
        reveal_strlit("(");
        reveal_strlit(" ");
        reveal_strlit(")");
        assert(acc@ =~= seq!['(']);
        assert(" "@ =~= seq![' ']);
        assert(")"@ =~= seq![')']);
    }
    let ghost all = terms(expr_list@);
    let mut i: usize = 0;
    while i < expr_list.len()
        invariant
            i <= expr_list.len(),
            acc@ + render_items(all, i as int, *color) == seq!['('] + render_items(all, 0, *color),
        decreases expr_list.len() - i,
    {
        let ghost before = acc@;
        if i > 0 {
            acc.append(" ");
        }
        let item = print_tree(&expr_list[i], color);
        acc.append(item.as_str());
        proof {
            assert(all[i as int] == expr_list@[i as int]@);
            assert(acc@ + render_items(all, i + 1, *color) =~= before + render_items(
                all,
                i as int,
                *color,
            ));
        }
        i += 1;
    }
    proof {
        assert(acc@ + render_items(all, i as int, *color) =~= acc@);
    }
    acc.append(")");
    acc
}

/// The printed form of an atom, with or without colour.
fn print_atom(expr_atom: &Atom, color: &bool) -> (r: String)
    ensures
        r@ == render(expr_atom@, *color),
        !*color ==> reads_back(expr_atom@, r@),
    decreases expr_atom, 1int,
{
    if *color {
        print_atom_colored(expr_atom)
    } else {
        print_atom_without_color(expr_atom)
    }
}

/// The printed form of an atom, without colour.
fn print_atom_without_color(expr_atom: &Atom) -> (r: String)
    ensures
        r@ == render(expr_atom@, false),
        reads_back(expr_atom@, r@),
    decreases expr_atom, 0int,
{
    match expr_atom {
        Atom::Boolean(b) => {
            proof {
                reveal_strlit("#t");
                reveal_strlit("#f");
                assert("#t"@ =~= seq!['#', 't']);
                assert("#f"@ =~= seq!['#', 'f']);
            }
            if *b {
                String::from_str("#t")
            } else {
                String::from_str("#f")
            }
        },
        Atom::StringLiteral(s) => s.clone(),
        Atom::Number(n) => {
            let text = n.to_text();
            proof {
                lemma_number_text_is_read(text@);
            }
            text
        },
        Atom::Symbol(s) => s.clone(),
        Atom::Nil => {
            proof {
                reveal_strlit("nil");
                assert("nil"@ =~= seq!['n', 'i', 'l']);
            }
            String::from_str("nil")
        },
        Atom::Lambda(def) => {
            proof {
                lemma_lambda_term(*def);
            }
            print_lambda(def, &false)
        },
    }
}

/// The printed form of an atom, in colour.
fn print_atom_colored(expr_atom: &Atom) -> (r: String)
    ensures
        r@ == render(expr_atom@, true),
    decreases expr_atom, 0int,
{
    match expr_atom {
        Atom::Boolean(b) => {
            proof {
                reveal_strlit("#t");
                reveal_strlit("#f");
                assert("#t"@ =~= seq!['#', 't']);
                assert("#f"@ =~= seq!['#', 'f']);
            }
            if *b {
                paint(Tint::Red, "#t")
            } else {
                paint(Tint::Red, "#f")
            }
        },
        Atom::StringLiteral(s) => paint(Tint::Yellow, s.as_str()),
        Atom::Number(n) => {
            let text = n.to_text();
            paint(Tint::Red, text.as_str())
        },
        Atom::Symbol(s) => s.clone(),
        Atom::Nil => {
            proof {
                reveal_strlit("nil");
                assert("nil"@ =~= seq!['n', 'i', 'l']);
            }
            paint(Tint::Red, "nil")
        },
        Atom::Lambda(def) => {
            proof {
                lemma_lambda_term(*def);
            }
            print_lambda(def, &true)
        },
    }
}

} // verus!
