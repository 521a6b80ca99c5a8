//! The reader: from source text to tokens, and from tokens to an expression.

use vstd::prelude::*;
use vstd::string::StringExecFns;
use crate::decimal::{
    decimal_option,
    decimal_parse,
    number_char,
    number_text,
    same_number,
    Decimal,
};
use crate::error::EvalError;
use crate::syntax::{lemma_list_term, terms, Atom, Expr, Term};
use crate::text::{chars_of, is_whitespace, push_char, str_equal, whitespace};

verus! {

/// The character that opens and closes a text literal.
pub const QUOTE: char = '\'';

/// The character that lets a quote stand inside a text literal.
pub const BACKSLASH: char = '\\';

/// The texts of a sequence of strings.
pub open spec fn texts(items: Seq<String>) -> Seq<Seq<char>> {
    Seq::new(items.len(), |i: int| items[i]@)
}

/// What a character adds to the count of open parentheses.
pub open spec fn paren_weight(c: char) -> int {
    if c == '(' {
        1
    } else if c == ')' {
        -1
    } else {
        0
    }
}

/// The opening parentheses of a text less its closing ones.
pub open spec fn paren_balance(text: Seq<char>) -> int
    decreases text.len(),
{
    if text.len() == 0 {
        0
    } else {
        paren_balance(text.drop_last()) + paren_weight(text.last())
    }
}

/// What a token adds to the count of open parentheses.
pub open spec fn token_weight(token: Seq<char>) -> int {
    if token == seq!['('] {
        1
    } else if token == seq![')'] {
        -1
    } else {
        0
    }
}

/// The tokens that are an opening parenthesis less those that are a closing
/// one.
pub open spec fn token_balance(tokens: Seq<Seq<char>>) -> int
    decreases tokens.len(),
{
    if tokens.len() == 0 {
        0
    } else {
        token_balance(tokens.drop_last()) + token_weight(tokens.last())
    }
}

/// The balance of a text lies between minus its length and its length.
proof fn lemma_paren_balance_bound(text: Seq<char>)
    ensures
        -text.len() <= paren_balance(text) <= text.len(),
    decreases text.len(),
{
    if text.len() > 0 {
        lemma_paren_balance_bound(text.drop_last());
    }
}

/// The balance of a token sequence lies between minus its length and its
/// length.
proof fn lemma_token_balance_bound(tokens: Seq<Seq<char>>)
    ensures
        -tokens.len() <= token_balance(tokens) <= tokens.len(),
    decreases tokens.len(),
{
    if tokens.len() > 0 {
        lemma_token_balance_bound(tokens.drop_last());
    }
}

/// Whether a text has as many opening as closing parentheses.
pub fn parens_match_and_exist(code: &String) -> (r: bool)
    ensures
        r == (paren_balance(code@) == 0),
{
    let chars = chars_of(code.as_str());
    let mut unclosed_opens: i128 = 0;
    let mut i: usize = 0;
    while i < chars.len()
        invariant
            i <= chars.len(),
            chars@ == code@,
            unclosed_opens == paren_balance(code@.take(i as int)),
        decreases chars.len() - i,
    {
        proof {
            lemma_paren_balance_bound(code@.take(i as int));
            assert(code@.take(i + 1).drop_last() =~= code@.take(i as int));
        }
        let c = chars[i];
        if c == '(' {
            unclosed_opens += 1;
        } else if c == ')' {
            unclosed_opens -= 1;
        }
        i += 1;
    }
    proof {
        assert(code@.take(i as int) =~= code@);
    }
    unclosed_opens == 0
}

/// Whether a text has as many opening as closing parentheses.
pub fn has_matching_parens(code: &String) -> (r: bool)
    ensures
        r == (paren_balance(code@) == 0),
{
    parens_match_and_exist(code)
}

/// Whether a sequence of tokens has as many opening as closing parentheses.
pub fn tokens_match_parens(tokens: &Vec<String>) -> (r: bool)
    ensures
        r == (token_balance(texts(tokens@)) == 0),
{
    let mut unclosed_opens: i128 = 0;
    let mut i: usize = 0;
    let ghost all = texts(tokens@);
    proof {
        reveal_strlit("(");
        reveal_strlit(")");
        assert("("@ =~= seq!['(']);
        assert(")"@ =~= seq![')']);
    }
    while i < tokens.len()
        invariant
            i <= tokens.len(),
            all == texts(tokens@),
            "("@ == seq!['('],
            ")"@ == seq![')'],
            unclosed_opens == token_balance(all.take(i as int)),
        decreases tokens.len() - i,
    {
        proof {
            lemma_token_balance_bound(all.take(i as int));
            assert(all.take(i + 1).drop_last() =~= all.take(i as int));
            assert(all.take(i + 1).last() == tokens@[i as int]@);
        }
        if str_equal(tokens[i].as_str(), "(") {
            unclosed_opens += 1;
        } else if str_equal(tokens[i].as_str(), ")") {
            unclosed_opens -= 1;
        }
        i += 1;
    }
    proof {
        assert(all.take(i as int) =~= all);
    }
    unclosed_opens == 0
}

/// Where the tokenizer stands after some characters: the tokens that are
/// complete, the token that is being built, whether a text literal is open,
/// and whether the last character was a backslash.
pub ghost struct LexState {
    pub tokens: Seq<Seq<char>>,
    pub current: Seq<char>,
    pub in_quotes: bool,
    pub escaped: bool,
}

/// The state with the token that is being built, if any, made complete.
pub open spec fn flushed(state: LexState) -> LexState {
    if state.current.len() > 0 {
        LexState { tokens: state.tokens.push(state.current), current: Seq::empty(), ..state }
    } else {
        state
    }
}

/// The state after one more character.
///
/// Outside a text literal, whitespace ends the token that is being built and
/// a parenthesis is a token of its own. A quote that does not follow a
/// backslash opens a literal, or closes the open one and ends the token.
/// Inside a literal, whitespace and parentheses are characters like any
/// other, and so is a quote that follows a backslash, inside or outside.
/// Whether the character is whitespace is told by `space`.
pub open spec fn lex_step(state: LexState, c: char, space: bool) -> LexState {
    let escaped = c == BACKSLASH;
    if space {
        if state.in_quotes {
            LexState { current: state.current.push(c), escaped, ..state }
        } else {
            LexState { escaped, ..flushed(state) }
        }
    } else if c == QUOTE && !state.escaped {
        if state.in_quotes {
            LexState {
                tokens: state.tokens.push(state.current.push(c)),
                current: Seq::empty(),
                in_quotes: false,
                escaped,
            }
        } else {
            LexState { tokens: flushed(state).tokens, current: seq![c], in_quotes: true, escaped }
        }
    } else if c == '(' || c == ')' {
        if state.in_quotes {
            LexState { current: state.current.push(c), escaped, ..state }
        } else {
            LexState {
                tokens: flushed(state).tokens.push(seq![c]),
                current: Seq::empty(),
                in_quotes: false,
                escaped,
            }
        }
    } else {
        LexState { current: state.current.push(c), escaped, ..state }
    }
}

/// The state after all characters of a text.
pub open spec fn lex_state(text: Seq<char>) -> LexState
    decreases text.len(),
{
    if text.len() == 0 {
        LexState {
            tokens: Seq::empty(),
            current: Seq::empty(),
            in_quotes: false,
            escaped: false,
        }
    } else {
        lex_step(lex_state(text.drop_last()), text.last(), whitespace(text.last()))
    }
}

/// A single token is put between a pair of parentheses; other token
/// sequences stay as they are.
pub open spec fn wrapped(tokens: Seq<Seq<char>>) -> Seq<Seq<char>> {
    if tokens.len() == 1 {
        seq![seq!['('], tokens[0], seq![')']]
    } else {
        tokens
    }
}

/// The tokens of a text.
pub open spec fn token_texts(text: Seq<char>) -> Seq<Seq<char>> {
    wrapped(flushed(lex_state(text)).tokens)
}

/// A tokenizer that is fed one character after the other.
pub struct Lexer {
    tokens: Vec<String>,
    current: String,
    in_quotes: bool,
    escaped: bool,
}

impl View for Lexer {
    type V = LexState;

    closed spec fn view(&self) -> LexState {
        LexState {
            tokens: texts(self.tokens@),
            current: self.current@,
            in_quotes: self.in_quotes,
            escaped: self.escaped,
        }
    }
}

impl Lexer {
    /// A tokenizer that has seen no character.
    pub fn new() -> (r: Lexer)
        ensures
            r@ == lex_state(Seq::empty()),
    {
        let r = Lexer {
            tokens: Vec::new(),
            current: String::new(),
            in_quotes: false,
            escaped: false,
        };
        proof {
            assert(texts(r.tokens@) =~= Seq::<Seq<char>>::empty());
        }
        r
    }

    /// Makes the token that is being built, if any, complete.
    fn flush(&mut self)
        ensures
            final(self)@ == flushed(old(self)@),
    {
        if !self.current.as_str().is_empty() {
            let mut token = String::new();
            core::mem::swap(&mut self.current, &mut token);
            let ghost before = self.tokens@;
            self.tokens.push(token);
            proof {
                assert(texts(self.tokens@) =~= texts(before).push(token@));
            }
        }
    }

    /// Takes one more character; `space` tells whether it is whitespace.
    pub fn feed(&mut self, c: char, space: bool)
        ensures
            final(self)@ == lex_step(old(self)@, c, space),
    {
        if space {
            if !self.in_quotes {
                self.flush();
            } else {
                push_char(&mut self.current, c);
            }
        } else if c == QUOTE && !self.escaped {
            if self.in_quotes {
                self.in_quotes = false;
                push_char(&mut self.current, c);
                let mut token = String::new();
                core::mem::swap(&mut self.current, &mut token);
                let ghost before = self.tokens@;
                self.tokens.push(token);
                proof {
                    assert(texts(self.tokens@) =~= texts(before).push(token@));
                }
            } else {
                self.flush();
                self.in_quotes = true;
                push_char(&mut self.current, c);
                proof {
                    assert(self.current@ =~= seq![c]);
                }
            }
        } else if c == '(' || c == ')' {
            if !self.in_quotes {
                self.flush();
                let mut paren = String::new();
                push_char(&mut paren, c);
                let ghost before = self.tokens@;
                self.tokens.push(paren);
                proof {
                    assert(paren@ =~= seq![c]);
                    assert(texts(self.tokens@) =~= texts(before).push(paren@));
                }
            } else {
                push_char(&mut self.current, c);
            }
        } else {
            push_char(&mut self.current, c);
        }
        self.escaped = c == BACKSLASH;
        proof {
            let after = lex_step(old(self)@, c, space);
            assert(self@.tokens =~= after.tokens);
            assert(self@.current =~= after.current);
        }
    }

    /// The tokens of all that was fed: the token that is being built is
    /// made complete, and a single token is put between parentheses.
    pub fn finish(self) -> (r: Vec<String>)
        ensures
            texts(r@) == wrapped(flushed(self@).tokens),
    {
        let mut lexer = self;
        lexer.flush();
        let mut tokens = lexer.tokens;
        if tokens.len() == 1 {
            let only = tokens.pop().unwrap();
            let mut wrapped_tokens: Vec<String> = Vec::new();
            wrapped_tokens.push(String::from_str("("));
            wrapped_tokens.push(only);
            wrapped_tokens.push(String::from_str(")"));
            proof {
                reveal_strlit("(");
                reveal_strlit(")");
                assert("("@ =~= seq!['(']);
                assert(")"@ =~= seq![')']);
                assert(texts(wrapped_tokens@) =~= wrapped(flushed(self@).tokens));
            }
            wrapped_tokens
        } else {
            tokens
        }
    }
}

/// Splits a text into its tokens.
pub fn tokenize(source: &String) -> (r: Vec<String>)
    ensures
        texts(r@) == token_texts(source@),
{
    let char_list = chars_of(source.as_str());
    let mut lexer = Lexer::new();
    let mut position: usize = 0;
    proof {
        assert(source@.take(0) =~= Seq::<char>::empty());
    }
    while position < char_list.len()
        invariant
            position <= char_list.len(),
            char_list@ == source@,
            lexer@ == lex_state(source@.take(position as int)),
        decreases char_list.len() - position,
    {
        let v = char_list[position];
        proof {
            assert(source@.take(position + 1).drop_last() =~= source@.take(position as int));
            assert(source@.take(position + 1).last() == v);
        }
        lexer.feed(v, is_whitespace(v));
        position += 1;
    }
    proof {
        assert(source@.take(position as int) =~= source@);
    }
    lexer.finish()
}

/// The tokens of a text whose parentheses balance; a syntax error for any
/// other text.
pub fn lexical_analysis(code: &String) -> (r: Result<Vec<String>, EvalError>)
    ensures
        match r {
            Ok(tokens) => paren_balance(code@) == 0 && texts(tokens@) == token_texts(code@),
            Err(e) => paren_balance(code@) != 0 && e == EvalError::SyntaxError,
        },
{
    if parens_match_and_exist(code) {
        Ok(tokenize(code))
    } else {
        Err(EvalError::SyntaxError)
    }
}

/// Whether a token is one of the two boolean literals.
pub fn is_boolean(atom: &String) -> (r: bool)
    ensures
        r == (atom@ == seq!['#', 'f'] || atom@ == seq!['#', 't']),
{
    proof {
        reveal_strlit("#f");
        reveal_strlit("#t");
        assert("#f"@ =~= seq!['#', 'f']);
        assert("#t"@ =~= seq!['#', 't']);
    }
    str_equal(atom.as_str(), "#f") || str_equal(atom.as_str(), "#t")
}

/// What is asked of the character at index `i` of a text literal: the first
/// and the last are quotes, and a quote between them follows a backslash.
pub open spec fn quote_rule(text: Seq<char>, i: int) -> bool {
    if i == 0 || i == text.len() - 1 {
        text[i] == QUOTE
    } else {
        text[i] == QUOTE ==> text[i - 1] == BACKSLASH
    }
}

/// Whether a token is a text literal.
pub open spec fn quoted(text: Seq<char>) -> bool {
    text.len() > 0 && forall|i: int| 0 <= i < text.len() ==> quote_rule(text, i)
}

/// Whether a token is a text literal: it begins and ends with a quote, and
/// every quote in between follows a backslash.
pub fn is_string(atom: &String) -> (r: bool)
    ensures
        r == quoted(atom@),
{
    let chars = chars_of(atom.as_str());
    if chars.len() == 0 {
        return false;
    }
    let mut i: usize = 0;
    while i < chars.len()
        invariant
            i <= chars.len(),
            chars@ == atom@,
            forall|j: int| 0 <= j < i ==> quote_rule(atom@, j),
        decreases chars.len() - i,
    {
        let c = chars[i];
        if i == 0 || i == chars.len() - 1 {
            if c != QUOTE {
                assert(!quote_rule(atom@, i as int));
                return false;
            }
        } else if c == QUOTE {
            if chars[i - 1] != BACKSLASH {
                assert(!quote_rule(atom@, i as int));
                return false;
            }
        }
        i += 1;
    }
    true
}

/// The atom that a token stands for, where `number` is the number that the
/// token is read as, if it is read as one: a text literal, else a number,
/// else a boolean, else nil, else a symbol.
pub open spec fn classified(text: Seq<char>, number: Option<(int, int)>) -> Term {
    if quoted(text) {
        Term::Text(text)
    } else if number is Some {
        Term::Number(number->0)
    } else if text == seq!['#', 't'] {
        Term::Boolean(true)
    } else if text == seq!['#', 'f'] {
        Term::Boolean(false)
    } else if text == seq!['n', 'i', 'l'] {
        Term::Nil
    } else {
        Term::Symbol(text)
    }
}

/// The atom that a token stands for: a text literal, else the number that
/// it is read as, else a boolean, else nil, else a symbol.
pub open spec fn classify(text: Seq<char>) -> Term {
    classified(text, decimal_parse(text))
}

/// The atom that a token stands for.
pub fn parse_atom(atom: &String) -> (r: Expr)
    ensures
        r@ == classify(atom@),
{
    atom_of(atom, Decimal::parse(atom.as_str()))
}

/// The atom that a token stands for, where `number` is the number that the
/// token is read as, if it is read as one.
pub fn atom_of(atom: &String, number: Option<Decimal>) -> (r: Expr)
    ensures
        r@ == classified(atom@, decimal_option(number)),
{
    if is_string(atom) {
        return Expr::Atom(Box::new(Atom::StringLiteral(atom.clone())));
    }
    match number {
        Some(number) => Expr::Atom(Box::new(Atom::Number(number))),
        None => {
            proof {
                reveal_strlit("#t");
                reveal_strlit("nil");
                assert("#t"@ =~= seq!['#', 't']);
                assert("nil"@ =~= seq!['n', 'i', 'l']);
            }
            if is_boolean(atom) {
                Expr::Atom(Box::new(Atom::Boolean(str_equal(atom.as_str(), "#t"))))
            } else if str_equal(atom.as_str(), "nil") {
                Expr::Atom(Box::new(Atom::Nil))
            } else {
                Expr::Atom(Box::new(Atom::Symbol(atom.clone())))
            }
        },
    }
}

/// Where the parser stands after some tokens: the children that are
/// complete, and the tokens of the child that is being gathered.
pub ghost struct ScanState {
    pub children: Seq<Term>,
    pub buffer: Seq<Seq<char>>,
}

/// The state after the tokens before index `upto`, the first token left out.
///
/// Before a token is taken, a buffer that is not empty and whose parentheses
/// balance is closed off as a child: one token is an atom, several are parsed
/// as a list of their own. The token then goes into the buffer.
pub open spec fn scan_tokens(tokens: Seq<Seq<char>>, upto: int) -> ScanState
    decreases tokens.len(), upto,
{
    if upto <= 1 {
        ScanState { children: Seq::empty(), buffer: Seq::empty() }
    } else {
        let before = scan_tokens(tokens, upto - 1);
        let token = tokens[upto - 1];
        if before.buffer.len() > 0 && token_balance(before.buffer) == 0 {
            let child = if before.buffer.len() == 1 {
                classify(before.buffer[0])
            } else if before.buffer.len() < tokens.len() {
                parse_model(before.buffer)
            } else {
                Term::Nil
            };
            ScanState { children: before.children.push(child), buffer: seq![token] }
        } else {
            ScanState { children: before.children, buffer: before.buffer.push(token) }
        }
    }
}

/// The expression that a token sequence stands for: the one child where
/// there is exactly one, else the list of the children. What is left in the
/// buffer after the last token, the closing parenthesis of a well-formed
/// sequence, is no child.
pub open spec fn parse_model(tokens: Seq<Seq<char>>) -> Term
    decreases tokens.len(), tokens.len() + 1,
{
    let children = scan_tokens(tokens, tokens.len() as int).children;
    if children.len() == 1 {
        children[0]
    } else {
        Term::List(children)
    }
}

/// The children of the expression that a token sequence stands for: the
/// trees of its items, in order.
pub fn to_trees(tokens: &Vec<String>) -> (r: Vec<Expr>)
    ensures
        terms(r@) == scan_tokens(texts(tokens@), tokens.len() as int).children,
    decreases tokens.len(), 0int,
{
    let ghost all = texts(tokens@);
    let mut local_expr: Vec<Expr> = Vec::new();
    let mut current_expr: Vec<String> = Vec::new();
    let mut i: usize = 1;
    proof {
        assert(terms(local_expr@) =~= Seq::<Term>::empty());
        assert(texts(current_expr@) =~= Seq::<Seq<char>>::empty());
    }
    while i < tokens.len()
        invariant
            1 <= i,
            i <= tokens.len() || i == 1,
            all == texts(tokens@),
            current_expr.len() <= i - 1,
            scan_tokens(all, i as int) == (ScanState {
                children: terms(local_expr@),
                buffer: texts(current_expr@),
            }),
        decreases tokens.len() - i,
    {
        if current_expr.len() > 0 && tokens_match_parens(&current_expr) {
            let expr = if current_expr.len() == 1 {
                parse_atom(&current_expr[0])
            } else {
                parse_tokens(&current_expr)
            };
            let ghost children = local_expr@;
            local_expr.push(expr);
            current_expr = Vec::new();
            proof {
                assert(terms(local_expr@) =~= terms(children).push(expr@));
            }
        }
        let ghost buffer = current_expr@;
        current_expr.push(tokens[i].clone());
        proof {
            assert(texts(current_expr@) =~= texts(buffer).push(all[i as int]));
            assert(texts(current_expr@) =~= scan_tokens(all, i + 1).buffer);
        }
        i += 1;
    }
    proof {
        assert(all.len() == tokens.len());
        if tokens.len() == 0 {
            assert(scan_tokens(all, 0) == scan_tokens(all, 1));
        }
    }
    local_expr
}

/// Builds the expression that a token sequence stands for.
pub fn parse_tokens(tokens: &Vec<String>) -> (r: Expr)
    ensures
        r@ == parse_model(texts(tokens@)),
    decreases tokens.len(), 1int,
{
    let mut local_expr = to_trees(tokens);
    if local_expr.len() == 1 {
        let ghost only = local_expr@[0];
        assert(terms(local_expr@)[0] == only@);
        local_expr.pop().unwrap()
    } else {
        proof {
            lemma_list_term(local_expr);
        }
        Expr::List(local_expr)
    }
}

/// The expression that a text stands for.
pub open spec fn read_model(text: Seq<char>) -> Term {
    parse_model(token_texts(text))
}

/// Whether a text is read, without a syntax error, as a number of the given
/// value.
pub open spec fn reads_as(text: Seq<char>, value: (int, int)) -> bool {
    &&& paren_balance(text) == 0
    &&& read_model(text) is Number
    &&& same_number(read_model(text)->Number_0, value)
}

/// A token that is no parenthesis, between a pair of parentheses, stands for
/// its atom.
pub proof fn lemma_single_token(token: Seq<char>)
    requires
        token_weight(token) == 0,
    ensures
        parse_model(seq![seq!['('], token, seq![')']]) == classify(token),
{
    let tokens = seq![seq!['('], token, seq![')']];
    assert(scan_tokens(tokens, 1).buffer =~= Seq::<Seq<char>>::empty());
    assert(scan_tokens(tokens, 2).buffer =~= seq![token]);
    assert(seq![token].drop_last() =~= Seq::<Seq<char>>::empty());
    assert(token_balance(seq![token].drop_last()) == 0);
    assert(token_balance(seq![token]) == 0);
    assert(scan_tokens(tokens, 3).children =~= seq![classify(token)]);
}

/// A text of the characters of numbers is scanned as one token that is
/// being built, and holds no parenthesis.
proof fn lemma_number_chars_are_one_token(text: Seq<char>)
    requires
        forall|i: int| 0 <= i < text.len() ==> number_char(#[trigger] text[i]),
    ensures
        lex_state(text) == (LexState {
            tokens: Seq::empty(),
            current: text,
            in_quotes: false,
            escaped: false,
        }),
        paren_balance(text) == 0,
    decreases text.len(),
{
    if text.len() > 0 {
        let before = text.drop_last();
        let c = text.last();
        assert forall|i: int| 0 <= i < before.len() implies number_char(#[trigger] before[i]) by {
            assert(before[i] == text[i]);
        }
        lemma_number_chars_are_one_token(before);
        assert(number_char(text[text.len() - 1]));
        assert(!whitespace(c));
        assert(c != QUOTE && c != BACKSLASH && c != '(' && c != ')');
        assert(before.push(c) =~= text);
    } else {
        assert(text =~= Seq::<char>::empty());
    }
}

/// A text that is written as numbers are, and is read as a number, is read
/// as that number by the reader: it is one token, no text literal, and no
/// syntax error.
pub proof fn lemma_number_text_is_read(text: Seq<char>)
    requires
        number_text(text),
        decimal_parse(text) is Some,
    ensures
        paren_balance(text) == 0,
        token_texts(text) == seq![seq!['('], text, seq![')']],
        read_model(text) == Term::Number(decimal_parse(text)->0),
{
    lemma_number_chars_are_one_token(text);
    let state = lex_state(text);
    assert(flushed(state).tokens =~= seq![text]);
    assert(number_char(text[0]));
    assert(text[0] != '(' && text[0] != ')' && text[0] != QUOTE);
    assert(!(text =~= seq!['(']));
    assert(!(text =~= seq![')']));
    lemma_single_token(text);
    assert(!quote_rule(text, 0));
}

/// Reads a text: the expression that it stands for where its parentheses
/// balance, a syntax error where they do not.
pub fn parse(code: &String) -> (r: Result<Expr, EvalError>)
    ensures
        match r {
            Ok(expr) => paren_balance(code@) == 0 && expr@ == read_model(code@),
            Err(e) => paren_balance(code@) != 0 && e == EvalError::SyntaxError,
        },
{
    match lexical_analysis(code) {
        Ok(tokens) => Ok(parse_tokens(&tokens)),
        Err(e) => Err(e),
    }
}

/// Where the chunker stands after some characters: the chunks that are
/// complete, the chunk that is being built, and how many parentheses are
/// open.
pub ghost struct ChunkState {
    pub chunks: Seq<Seq<char>>,
    pub chunk: Seq<char>,
    pub nesting: nat,
}

/// The state after one more character.
///
/// Inside parentheses, and at an opening one, the character goes into the
/// chunk, a space in place of a line feed. Outside, a character other than an
/// opening parenthesis ends a chunk that is not empty. A closing parenthesis
/// with none open leaves the count at zero.
pub open spec fn chunk_step(state: ChunkState, c: char) -> ChunkState {
    let nesting: nat = if c == '(' {
        state.nesting + 1
    } else if c == ')' && state.nesting > 0 {
        (state.nesting - 1) as nat
    } else {
        state.nesting
    };
    if state.nesting > 0 || c == '(' {
        ChunkState {
            chunks: state.chunks,
            chunk: state.chunk.push(
                if c == '\n' {
                    ' '
                } else {
                    c
                },
            ),
            nesting,
        }
    } else if state.chunk.len() != 0 {
        ChunkState { chunks: state.chunks.push(state.chunk), chunk: Seq::empty(), nesting }
    } else {
        ChunkState { chunks: state.chunks, chunk: state.chunk, nesting }
    }
}

/// The state after all characters of a text.
pub open spec fn chunk_state(text: Seq<char>) -> ChunkState
    decreases text.len(),
{
    if text.len() == 0 {
        ChunkState { chunks: Seq::empty(), chunk: Seq::empty(), nesting: 0 }
    } else {
        chunk_step(chunk_state(text.drop_last()), text.last())
    }
}

/// The chunks of a text: its top-level parenthesized expressions. A chunk
/// that is being built when the text ends is the last chunk, unless a
/// parenthesis is still open.
pub open spec fn chunk_texts(text: Seq<char>) -> Seq<Seq<char>> {
    let state = chunk_state(text);
    if state.chunk.len() != 0 && state.nesting == 0 {
        state.chunks.push(state.chunk)
    } else {
        state.chunks
    }
}

/// No more parentheses are open than characters were read.
proof fn lemma_chunk_nesting_bound(text: Seq<char>)
    ensures
        chunk_state(text).nesting <= text.len(),
    decreases text.len(),
{
    if text.len() > 0 {
        lemma_chunk_nesting_bound(text.drop_last());
    }
}

/// Splits the text of a file into its top-level expressions.
pub fn chunk_file(text: &String) -> (r: Vec<String>)
    ensures
        texts(r@) == chunk_texts(text@),
{
    let chars = chars_of(text.as_str());
    let mut chunks: Vec<String> = Vec::new();
    let mut chunk: String = String::new();
    let mut nesting_level: usize = 0;
    let mut i: usize = 0;
    proof {
        assert(texts(chunks@) =~= Seq::<Seq<char>>::empty());
    }
    while i < chars.len()
        invariant
            i <= chars.len(),
            chars@ == text@,
            chunk_state(text@.take(i as int)) == (ChunkState {
                chunks: texts(chunks@),
                chunk: chunk@,
                nesting: nesting_level as nat,
            }),
        decreases chars.len() - i,
    {
        let c = chars[i];
        let ghost before = chunk_state(text@.take(i as int));
        proof {
            lemma_chunk_nesting_bound(text@.take(i as int));
            assert(text@.take(i + 1).drop_last() =~= text@.take(i as int));
            assert(text@.take(i + 1).last() == c);
        }
        if nesting_level > 0 || c == '(' {
            if c == '\n' {
                push_char(&mut chunk, ' ');
            } else {
                push_char(&mut chunk, c);
            }
        } else if !chunk.as_str().is_empty() {
            chunks.push(chunk);
            chunk = String::new();
        }
        if c == '(' {
            nesting_level += 1;
        } else if c == ')' && nesting_level > 0 {
            nesting_level -= 1;
        }
        proof {
            let after = chunk_step(before, c);
            assert(texts(chunks@) =~= after.chunks);
            assert(chunk@ =~= after.chunk);
        }
        i += 1;
    }
    proof {
        assert(text@.take(i as int) =~= text@);
    }
    if !chunk.as_str().is_empty() && nesting_level == 0 {
        let ghost before = texts(chunks@);
        chunks.push(chunk);
        proof {
            assert(texts(chunks@) =~= before.push(chunk@));
        }
    }
    chunks
}

/// The characters of a range of a vector, as a string.
fn substring(chars: &Vec<char>, from: usize, to: usize) -> (r: String)
    requires
        from <= to <= chars.len(),
    ensures
        r@ == chars@.subrange(from as int, to as int),
{
    let mut r = String::new();
    let mut i: usize = from;
    while i < to
        invariant
            from <= i <= to,
            to <= chars.len(),
            r@ == chars@.subrange(from as int, i as int),
        decreases to - i,
    {
        push_char(&mut r, chars[i]);
        proof {
            assert(chars@.subrange(from as int, i + 1) =~= chars@.subrange(
                from as int,
                i as int,
            ).push(chars@[i as int]));
        }
        i += 1;
    }
    r
}

/// A text without the quote at its end and, where that one was there, without
/// the quote at its start.
pub open spec fn without_quotes(text: Seq<char>) -> Seq<char> {
    if text.len() > 0 && text.last() == QUOTE {
        let rest = text.drop_last();
        if rest.len() > 0 && rest[0] == QUOTE {
            rest.drop_first()
        } else {
            rest
        }
    } else {
        text
    }
}

/// Takes the quotes off a text literal.
pub fn trim_quotes(s: &String) -> (r: String)
    ensures
        r@ == without_quotes(s@),
{
    let chars = chars_of(s.as_str());
    let n = chars.len();
    if n > 0 && chars[n - 1] == QUOTE {
        let start: usize = if n > 1 && chars[0] == QUOTE {
            1
        } else {
            0
        };
        let r = substring(&chars, start, n - 1);
        proof {
            assert(r@ =~= without_quotes(s@));
        }
        r
    } else {
        s.clone()
    }
}

/// A text without the line feed at its end and, where that one was there,
/// without the carriage return before it.
pub open spec fn without_newline(text: Seq<char>) -> Seq<char> {
    if text.len() > 0 && text.last() == '\n' {
        let rest = text.drop_last();
        if rest.len() > 0 && rest.last() == '\r' {
            rest.drop_last()
        } else {
            rest
        }
    } else {
        text
    }
}

/// Takes the line ending off a line. The line itself stays as it is.
pub fn trim_newline(s: &mut String) -> (r: String)
    ensures
        *final(s) == *old(s),
        r@ == without_newline(old(s)@),
{
    let chars = chars_of(s.as_str());
    let n = chars.len();
    if n > 0 && chars[n - 1] == '\n' {
        let end: usize = if n > 1 && chars[n - 2] == '\r' {
            n - 2
        } else {
            n - 1
        };
        let r = substring(&chars, 0, end);
        proof {
            assert(r@ =~= without_newline(s@));
        }
        r
    } else {
        s.clone()
    }
}

/// A text with a space before and after each parenthesis.
pub open spec fn padded(text: Seq<char>) -> Seq<char>
    decreases text.len(),
{
    if text.len() == 0 {
        Seq::empty()
    } else if text.last() == '(' || text.last() == ')' {
        padded(text.drop_last()) + seq![' ', text.last(), ' ']
    } else {
        padded(text.drop_last()).push(text.last())
    }
}

/// The pieces into which the spaces of a text divide it, the last piece left
/// out: a text with `n` spaces has `n` of them.
pub open spec fn pieces_before_last(text: Seq<char>) -> Seq<Seq<char>>
    decreases text.len(),
{
    if text.len() == 0 {
        Seq::empty()
    } else if text.last() == ' ' {
        pieces_before_last(text.drop_last()).push(last_piece(text.drop_last()))
    } else {
        pieces_before_last(text.drop_last())
    }
}

/// What follows the last space of a text.
pub open spec fn last_piece(text: Seq<char>) -> Seq<char>
    decreases text.len(),
{
    if text.len() == 0 || text.last() == ' ' {
        Seq::empty()
    } else {
        last_piece(text.drop_last()).push(text.last())
    }
}

/// The pieces into which the spaces of a text divide it; between two spaces
/// that follow each other lies an empty piece.
pub open spec fn split_at_spaces(text: Seq<char>) -> Seq<Seq<char>> {
    pieces_before_last(text).push(last_piece(text))
}

/// Puts a space before and after each parenthesis.
fn pad_parens(chars: &Vec<char>) -> (r: Vec<char>)
    ensures
        r@ == padded(chars@),
{
    let mut r: Vec<char> = Vec::new();
    let mut i: usize = 0;
    while i < chars.len()
        invariant
            i <= chars.len(),
            r@ == padded(chars@.take(i as int)),
        decreases chars.len() - i,
    {
        let c = chars[i];
        proof {
            assert(chars@.take(i + 1).drop_last() =~= chars@.take(i as int));
        }
        let ghost before = r@;
        if c == '(' || c == ')' {
            r.push(' ');
            r.push(c);
            r.push(' ');
            proof {
                assert(r@ =~= before + seq![' ', c, ' ']);
            }
        } else {
            r.push(c);
        }
        i += 1;
    }
    proof {
        assert(chars@.take(i as int) =~= chars@);
    }
    r
}

/// Divides a text at its spaces.
fn split_spaces(chars: &Vec<char>) -> (r: Vec<String>)
    ensures
        texts(r@) == split_at_spaces(chars@),
{
    let mut pieces: Vec<String> = Vec::new();
    let mut piece = String::new();
    let mut i: usize = 0;
    proof {
        assert(texts(pieces@) =~= Seq::<Seq<char>>::empty());
    }
    while i < chars.len()
        invariant
            i <= chars.len(),
            texts(pieces@) == pieces_before_last(chars@.take(i as int)),
            piece@ == last_piece(chars@.take(i as int)),
        decreases chars.len() - i,
    {
        let c = chars[i];
        proof {
            assert(chars@.take(i + 1).drop_last() =~= chars@.take(i as int));
        }
        let ghost before = texts(pieces@);
        if c == ' ' {
            let ghost ended = piece@;
            pieces.push(piece);
            piece = String::new();
            proof {
                assert(texts(pieces@) =~= before.push(ended));
            }
        } else {
            push_char(&mut piece, c);
        }
        i += 1;
    }
    let ghost before = texts(pieces@);
    let ghost ended = piece@;
    pieces.push(piece);
    proof {
        assert(chars@.take(i as int) =~= chars@);
        assert(texts(pieces@) =~= before.push(ended));
    }
    pieces
}

/// The pieces of a text that its spaces divide, each parenthesis being a
/// piece of its own.
pub fn split_with_parens(code: &String) -> (r: Vec<String>)
    ensures
        texts(r@) == split_at_spaces(padded(code@)),
{
    let chars = chars_of(code.as_str());
    let spaced = pad_parens(&chars);
    split_spaces(&spaced)
}

} // verus!
