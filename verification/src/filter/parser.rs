//! Recursive-descent parser of the filter language.
//!
//! Grammar (`&` and `|` share one precedence level and group to the left):
//!
//! ```text
//! expr      := unary (('&' | '|') unary)*
//! unary     := '!' unary | primary
//! primary   := '(' expr ')' | predicate
//! predicate := IDENT | IDENT '(' IDENT ')'
//! ```
use vstd::prelude::*;

use crate::error::NinetyNineError;
use crate::filter::ast::{
    compile_pattern, regex_builds, PATTERN_DFA_SIZE_LIMIT, regex_error_text, shape, shapes, FilterExpr, Predicate,
    SpecExpr, SpecPredicate,
};
use crate::filter::lexer::{tokens_view, SpecToken, Token};
use crate::runner::binary::BinaryKind;
use crate::text::{chars_of, decimal, decimal_of, extend_str, string_of};
use crate::report::expand;
use crate::types::str_equal;

verus! {

/// Spec-level names of the bare and call predicates.
pub open spec fn word_flaky() -> Seq<char> {
    seq!['f', 'l', 'a', 'k', 'y']
}

pub open spec fn word_quarantined() -> Seq<char> {
    seq!['q', 'u', 'a', 'r', 'a', 'n', 't', 'i', 'n', 'e', 'd']
}

pub open spec fn word_all() -> Seq<char> {
    seq!['a', 'l', 'l']
}

pub open spec fn word_test() -> Seq<char> {
    seq!['t', 'e', 's', 't']
}

pub open spec fn word_package() -> Seq<char> {
    seq!['p', 'a', 'c', 'k', 'a', 'g', 'e']
}

pub open spec fn word_binary() -> Seq<char> {
    seq!['b', 'i', 'n', 'a', 'r', 'y']
}

pub open spec fn word_kind() -> Seq<char> {
    seq!['k', 'i', 'n', 'd']
}

pub open spec fn word_lib() -> Seq<char> {
    seq!['l', 'i', 'b']
}

pub open spec fn word_bin() -> Seq<char> {
    seq!['b', 'i', 'n']
}

pub open spec fn word_example() -> Seq<char> {
    seq!['e', 'x', 'a', 'm', 'p', 'l', 'e']
}

/// The binary kind named by a `kind(..)` argument.
pub open spec fn kind_named(arg: Seq<char>) -> Option<BinaryKind> {
    if arg == word_lib() {
        Some(BinaryKind::Lib)
    } else if arg == word_bin() {
        Some(BinaryKind::Bin)
    } else if arg == word_test() {
        Some(BinaryKind::Test)
    } else if arg == word_example() {
        Some(BinaryKind::Example)
    } else {
        None
    }
}

/// The predicate `func(arg)` denotes, if any.
pub open spec fn call_predicate(func: Seq<char>, arg: Seq<char>) -> Option<SpecPredicate> {
    if func == word_test() {
        if regex_builds(arg, PATTERN_DFA_SIZE_LIMIT) {
            Some(SpecPredicate::Test(arg))
        } else {
            None
        }
    } else if func == word_package() {
        Some(SpecPredicate::Package(arg))
    } else if func == word_binary() {
        Some(SpecPredicate::Binary(arg))
    } else if func == word_kind() {
        match kind_named(arg) {
            Some(k) => Some(SpecPredicate::Kind(k)),
            None => None,
        }
    } else {
        None
    }
}

/// The predicate a bare identifier denotes, if any.
pub open spec fn bare_predicate(field: Seq<char>) -> Option<SpecPredicate> {
    if field == word_flaky() {
        Some(SpecPredicate::Flaky)
    } else if field == word_quarantined() {
        Some(SpecPredicate::Quarantined)
    } else if field == word_all() {
        Some(SpecPredicate::All)
    } else if regex_builds(field, PATTERN_DFA_SIZE_LIMIT) {
        Some(SpecPredicate::Test(field))
    } else {
        None
    }
}

/// A predicate at `pos`, which holds an identifier; with the position
/// after it.
pub open spec fn p_predicate(t: Seq<SpecToken>, pos: int) -> Option<(SpecExpr, int)> {
    if !(0 <= pos < t.len()) || !(t[pos] is Ident) {
        None
    } else {
        let field = t[pos]->Ident_0;
        if pos + 1 < t.len() && t[pos + 1] is LParen {
            if pos + 2 < t.len() && t[pos + 2] is Ident {
                if pos + 3 < t.len() && t[pos + 3] is RParen {
                    match call_predicate(field, t[pos + 2]->Ident_0) {
                        Some(p) => Some((SpecExpr::Pred(p), pos + 4)),
                        None => None,
                    }
                } else {
                    None
                }
            } else {
                None
            }
        } else {
            match bare_predicate(field) {
                Some(p) => Some((SpecExpr::Pred(p), pos + 1)),
                None => None,
            }
        }
    }
}

/// `expr` at `pos`.
pub open spec fn p_expr(t: Seq<SpecToken>, pos: int) -> Option<(SpecExpr, int)>
    decreases t.len() - pos, 3int,
{
    if !(0 <= pos <= t.len()) {
        None
    } else {
        match p_unary(t, pos) {
            None => None,
            Some((left, p2)) => {
                if pos < p2 <= t.len() {
                    p_binary(t, left, p2)
                } else {
                    None
                }
            },
        }
    }
}

/// The `('&' | '|') unary` tail after `left`, at `pos`.
pub open spec fn p_binary(t: Seq<SpecToken>, left: SpecExpr, pos: int) -> Option<(SpecExpr, int)>
    decreases t.len() - pos, 0int,
{
    if !(0 <= pos <= t.len()) {
        None
    } else if pos < t.len() && (t[pos] is And || t[pos] is Or) {
        match p_unary(t, pos + 1) {
            None => None,
            Some((right, p3)) => {
                if pos + 1 < p3 <= t.len() {
                    let combined = if t[pos] is And {
                        SpecExpr::And(seq![left, right])
                    } else {
                        SpecExpr::Or(seq![left, right])
                    };
                    p_binary(t, combined, p3)
                } else {
                    None
                }
            },
        }
    } else {
        Some((left, pos))
    }
}

/// `unary` at `pos`.
pub open spec fn p_unary(t: Seq<SpecToken>, pos: int) -> Option<(SpecExpr, int)>
    decreases t.len() - pos, 2int,
{
    if !(0 <= pos <= t.len()) {
        None
    } else if pos < t.len() && t[pos] is Not {
        match p_unary(t, pos + 1) {
            None => None,
            Some((e, p)) => Some((SpecExpr::Not(Box::new(e)), p)),
        }
    } else {
        p_primary(t, pos)
    }
}

/// `primary` at `pos`.
pub open spec fn p_primary(t: Seq<SpecToken>, pos: int) -> Option<(SpecExpr, int)>
    decreases t.len() - pos, 1int,
{
    if !(0 <= pos < t.len()) {
        None
    } else if t[pos] is LParen {
        match p_expr(t, pos + 1) {
            None => None,
            Some((e, p)) => {
                if 0 <= p < t.len() && t[p] is RParen {
                    Some((e, p + 1))
                } else {
                    None
                }
            },
        }
    } else if t[pos] is Ident {
        p_predicate(t, pos)
    } else {
        None
    }
}

/// The expression a whole token sequence denotes, if it parses.
pub open spec fn parse_tokens(t: Seq<SpecToken>) -> Option<SpecExpr> {
    if t.len() == 0 {
        None
    } else {
        match p_expr(t, 0) {
            Some((e, p)) => {
                if p < t.len() {
                    None
                } else {
                    Some(e)
                }
            },
            None => None,
        }
    }
}

/// The lower-case hexadecimal digits.
pub open spec fn hex_digits() -> Seq<char> {
    seq!['0', '1', '2', '3', '4', '5', '6', '7', '8', '9', 'a', 'b', 'c', 'd', 'e', 'f']
}

/// A value below 256 in hexadecimal, without leading zeros.
pub open spec fn hex_text(v: int) -> Seq<char> {
    if v < 16 {
        seq![hex_digits()[v]]
    } else {
        seq![hex_digits()[v / 16], hex_digits()[v % 16]]
    }
}

/// One character of a quoted identifier in an error message, escaped as
/// Rust's debug text escapes it: quote and backslash get a backslash, the
/// usual control characters their short escapes, other ASCII control
/// characters a `\u{..}` escape; everything else stands as it is.
pub open spec fn debug_char(c: char) -> Seq<char> {
    if c == '"' {
        seq!['\\', '"']
    } else if c == '\\' {
        seq!['\\', '\\']
    } else if c == '\0' {
        seq!['\\', '0']
    } else if c == '\t' {
        seq!['\\', 't']
    } else if c == '\n' {
        seq!['\\', 'n']
    } else if c == '\r' {
        seq!['\\', 'r']
    } else if (c as int) < 32 || (c as int) == 127 {
        seq!['\\', 'u', '{'] + hex_text(c as int) + seq!['}']
    } else {
        seq![c]
    }
}

/// How an error message names a token: its variant, an identifier with its
/// text quoted.
pub open spec fn token_text_spec(t: SpecToken) -> Seq<char> {
    match t {
        SpecToken::LParen => seq!['L', 'P', 'a', 'r', 'e', 'n'],
        SpecToken::RParen => seq!['R', 'P', 'a', 'r', 'e', 'n'],
        SpecToken::And => seq!['A', 'n', 'd'],
        SpecToken::Or => seq!['O', 'r'],
        SpecToken::Not => seq!['N', 'o', 't'],
        SpecToken::Ident(s) => seq!['I', 'd', 'e', 'n', 't', '(', '"'] + expand(s, |c: char| debug_char(c))
            + seq!['"', ')'],
    }
}

fn hex_digit(v: u32) -> (r: char)
    requires
        v < 16,
    ensures
        r == hex_digits()[v as int],
{
    let digits = vec!['0', '1', '2', '3', '4', '5', '6', '7', '8', '9', 'a', 'b', 'c', 'd', 'e', 'f'];
    assert(digits@ =~= hex_digits());
    digits[v as usize]
}

/// Appends the escaped text of one identifier character.
fn push_debug_char(out: &mut Vec<char>, c: char)
    ensures
        final(out)@ == old(out)@ + debug_char(c),
{
    let v = c as u32;
    if c == '"' {
        out.push('\\');
        out.push('"');
    } else if c == '\\' {
        out.push('\\');
        out.push('\\');
    } else if c == '\0' {
        out.push('\\');
        out.push('0');
    } else if c == '\t' {
        out.push('\\');
        out.push('t');
    } else if c == '\n' {
        out.push('\\');
        out.push('n');
    } else if c == '\r' {
        out.push('\\');
        out.push('r');
    } else if v < 32 || v == 127 {
        out.push('\\');
        out.push('u');
        out.push('{');
        if v >= 16 {
            out.push(hex_digit(v / 16));
            out.push(hex_digit(v % 16));
        } else {
            out.push(hex_digit(v));
        }
        out.push('}');
    } else {
        out.push(c);
    }
    assert(final(out)@ =~= old(out)@ + debug_char(c));
}

/// The text that names a token in error messages.
fn token_text(t: &Token) -> (r: String)
    ensures
        r@ == token_text_spec(t@),
{
    let mut out: Vec<char> = Vec::new();
    match t {
        Token::LParen => {
            out.push('L');
            out.push('P');
            out.push('a');
            out.push('r');
            out.push('e');
            out.push('n');
        },
        Token::RParen => {
            out.push('R');
            out.push('P');
            out.push('a');
            out.push('r');
            out.push('e');
            out.push('n');
        },
        Token::And => {
            out.push('A');
            out.push('n');
            out.push('d');
        },
        Token::Or => {
            out.push('O');
            out.push('r');
        },
        Token::Not => {
            out.push('N');
            out.push('o');
            out.push('t');
        },
        Token::Ident(s) => {
            out.push('I');
            out.push('d');
            out.push('e');
            out.push('n');
            out.push('t');
            out.push('(');
            out.push('"');
            let cs = chars_of(s.as_str());
            let ghost head = out@;
            let mut i: usize = 0;
            while i < cs.len()
                invariant
                    i <= cs@.len(),
                    cs@ == s@,
                    head == seq!['I', 'd', 'e', 'n', 't', '(', '"'],
                    out@ == head + expand(cs@.take(i as int), |c: char| debug_char(c)),
                decreases cs@.len() - i,
            {
                let c = cs[i];
                push_debug_char(&mut out, c);
                proof {
                    assert(cs@.take(i + 1).drop_last() =~= cs@.take(i as int));
                    assert(cs@.take(i + 1).last() == c);
                }
                i += 1;
            }
            assert(cs@.take(cs@.len() as int) =~= cs@);
            out.push('"');
            out.push(')');
        },
    }
    assert(out@ =~= token_text_spec(t@));
    string_of(&out)
}

fn parse_error(message: String) -> (r: NinetyNineError)
    ensures
        r == (NinetyNineError::FilterParse { message }),
{
    NinetyNineError::FilterParse { message }
}

fn message2(a: &str, b: &str) -> (r: String)
    ensures
        r@ == a@ + b@,
{
    let mut v = chars_of(a);
    extend_str(&mut v, b);
    string_of(&v)
}

fn message3(a: &str, b: &str, c: &str) -> (r: String)
    ensures
        r@ == a@ + b@ + c@,
{
    let mut v = chars_of(a);
    extend_str(&mut v, b);
    extend_str(&mut v, c);
    string_of(&v)
}

fn message4(a: &str, b: &str, c: &str, d: &str) -> (r: String)
    ensures
        r@ == a@ + b@ + c@ + d@,
{
    let mut v = chars_of(a);
    extend_str(&mut v, b);
    extend_str(&mut v, c);
    extend_str(&mut v, d);
    string_of(&v)
}

/// Whether two tokens are equal.
fn token_eq(a: &Token, b: &Token) -> (r: bool)
    ensures
        r == (a@ == b@),
{
    match (a, b) {
        (Token::LParen, Token::LParen) => true,
        (Token::RParen, Token::RParen) => true,
        (Token::And, Token::And) => true,
        (Token::Or, Token::Or) => true,
        (Token::Not, Token::Not) => true,
        (Token::Ident(x), Token::Ident(y)) => str_equal(x.as_str(), y.as_str()),
        _ => false,
    }
}

/// Builds the predicate `func(arg)`.
fn make_call_predicate(func: &str, arg: &str) -> (r: Result<FilterExpr, NinetyNineError>)
    ensures
        r is Ok <==> call_predicate(func@, arg@) is Some,
        r matches Ok(e) ==> shape(e) == SpecExpr::Pred(call_predicate(func@, arg@)->0),
        r matches Err(e) ==> e is FilterParse,
{
    proof {
        reveal_strlit("test");
        reveal_strlit("package");
        reveal_strlit("binary");
        reveal_strlit("kind");
        reveal_strlit("lib");
        reveal_strlit("bin");
        reveal_strlit("example");
        assert("test"@ =~= word_test());
        assert("package"@ =~= word_package());
        assert("binary"@ =~= word_binary());
        assert("kind"@ =~= word_kind());
        assert("lib"@ =~= word_lib());
        assert("bin"@ =~= word_bin());
        assert("example"@ =~= word_example());
    }
    if str_equal(func, "test") {
        let p = build_regex(arg)?;
        Ok(FilterExpr::Predicate(Predicate::Test(p)))
    } else if str_equal(func, "package") {
        Ok(FilterExpr::Predicate(Predicate::Package(arg.to_owned())))
    } else if str_equal(func, "binary") {
        Ok(FilterExpr::Predicate(Predicate::Binary(arg.to_owned())))
    } else if str_equal(func, "kind") {
        let kind = if str_equal(arg, "lib") {
            BinaryKind::Lib
        } else if str_equal(arg, "bin") {
            BinaryKind::Bin
        } else if str_equal(arg, "test") {
            BinaryKind::Test
        } else if str_equal(arg, "example") {
            BinaryKind::Example
        } else {
            return Err(parse_error(message2("unknown binary kind: ", arg)));
        };
        Ok(FilterExpr::Predicate(Predicate::Kind(kind)))
    } else {
        Err(parse_error(message2("unknown function: ", func)))
    }
}

/// Compiles a test-name pattern; an invalid one is refused as
/// `invalid regex '<pattern>': <reason>`.
fn build_regex(pattern: &str) -> (r: Result<crate::filter::ast::TestPattern, NinetyNineError>)
    ensures
        r is Ok <==> regex_builds(pattern@, PATTERN_DFA_SIZE_LIMIT),
        r matches Ok(p) ==> p@ == pattern@,
        r matches Err(e) ==> e is FilterParse,
{
    match compile_pattern(pattern, PATTERN_DFA_SIZE_LIMIT) {
        Ok(p) => Ok(p),
        Err(e) => {
            let reason = regex_error_text(&e);
            Err(parse_error(message4("invalid regex '", pattern, "': ", reason.as_str())))
        },
    }
}

struct Parser {
    tokens: Vec<Token>,
    pos: usize,
}

impl Parser {
    spec fn tv(&self) -> Seq<SpecToken> {
        tokens_view(self.tokens@)
    }

    fn new(tokens: Vec<Token>) -> (r: Parser)
        ensures
            r.tokens == tokens,
            r.pos == 0,
    {
        Parser { tokens, pos: 0 }
    }

    fn peek(&self) -> (r: Option<&Token>)
        ensures
            self.pos < self.tokens.len() ==> r == Some(&self.tokens@[self.pos as int]),
            self.pos >= self.tokens.len() ==> r is None,
    {
        if self.pos < self.tokens.len() {
            Some(&self.tokens[self.pos])
        } else {
            None
        }
    }

    fn advance(&mut self) -> (r: Option<Token>)
        ensures
            final(self).tokens == old(self).tokens,
            old(self).pos < usize::MAX ==> final(self).pos == old(self).pos + 1,
            old(self).pos == usize::MAX ==> final(self).pos == old(self).pos,
            old(self).pos < old(self).tokens.len() ==> (r matches Some(t) && t@
                == old(self).tokens@[old(self).pos as int]@),
            old(self).pos >= old(self).tokens.len() ==> r is None,
    {
        if self.pos < self.tokens.len() {
            let tok = self.tokens[self.pos].clone();
            self.pos = self.pos + 1;
            Some(tok)
        } else {
            // Past the end the position still moves on, up to the
            // largest position there is.
            if self.pos < usize::MAX {
                self.pos = self.pos + 1;
            }
            None
        }
    }

    fn expect_token(&mut self, expected: &Token) -> (r: Result<(), NinetyNineError>)
        ensures
            final(self).tokens == old(self).tokens,
            old(self).pos < usize::MAX ==> final(self).pos == old(self).pos + 1,
            r is Ok <==> (old(self).pos < old(self).tokens.len() && old(self).tokens@[old(
                self,
            ).pos as int]@ == expected@),
            r matches Err(e) ==> e is FilterParse,
            r matches Err(NinetyNineError::FilterParse { message }) ==> message@ == "expected "@
                + token_text_spec(expected@) + if old(self).pos < old(self).tokens.len() {
                ", found "@ + token_text_spec(old(self).tokens@[old(self).pos as int]@)
            } else {
                ", found end of input"@
            },
    {
        match self.advance() {
            Some(tok) => {
                if token_eq(&tok, expected) {
                    Ok(())
                } else {
                    let e = token_text(expected);
                    let f = token_text(&tok);
                    Err(parse_error(message4("expected ", e.as_str(), ", found ", f.as_str())))
                }
            },
            None => {
                let e = token_text(expected);
                Err(parse_error(message3("expected ", e.as_str(), ", found end of input")))
            },
        }
    }

    fn parse_expr(&mut self) -> (r: Result<FilterExpr, NinetyNineError>)
        requires
            old(self).pos <= old(self).tokens.len(),
        ensures
            final(self).tokens == old(self).tokens,
            r is Ok <==> p_expr(old(self).tv(), old(self).pos as int) is Some,
            r matches Ok(e) ==> p_expr(old(self).tv(), old(self).pos as int) == Some(
                (shape(e), final(self).pos as int),
            ),
            r is Ok ==> old(self).pos < final(self).pos <= final(self).tokens.len(),
            r matches Err(e) ==> e is FilterParse,
        decreases old(self).tokens.len() - old(self).pos, 3int,
    {
        let ghost t = self.tv();
        let ghost pos0 = self.pos as int;
        let left = self.parse_unary()?;
        proof {
            assert(p_unary(t, pos0) == Some((shape(left), self.pos as int)));
        }
        self.parse_binary(left)
    }

    fn parse_binary(&mut self, left: FilterExpr) -> (r: Result<FilterExpr, NinetyNineError>)
        requires
            old(self).pos <= old(self).tokens.len(),
        ensures
            final(self).tokens == old(self).tokens,
            r is Ok <==> p_binary(old(self).tv(), shape(left), old(self).pos as int) is Some,
            r matches Ok(e) ==> p_binary(old(self).tv(), shape(left), old(self).pos as int)
                == Some((shape(e), final(self).pos as int)),
            r is Ok ==> old(self).pos <= final(self).pos <= final(self).tokens.len(),
            r matches Err(e) ==> e is FilterParse,
        decreases old(self).tokens.len() - old(self).pos, 0int,
    {
        let ghost t = self.tv();
        let ghost pos0 = self.pos as int;
        let is_and = match self.peek() {
            Some(Token::And) => true,
            _ => false,
        };
        let is_or = match self.peek() {
            Some(Token::Or) => true,
            _ => false,
        };
        if is_and || is_or {
            proof {
                assert(t[pos0] == self.tokens@[pos0]@);
            }
            self.advance();
            let right = self.parse_unary()?;
            let ghost left_shape = shape(left);
            let combined = if is_and {
                FilterExpr::And(vec![left, right])
            } else {
                FilterExpr::Or(vec![left, right])
            };
            proof {
                let v = if is_and {
                    combined->And_0
                } else {
                    combined->Or_0
                };
                let x = v@.subrange(1, 2);
                assert(x.subrange(1, 1) =~= Seq::<FilterExpr>::empty());
                assert(shapes(x.subrange(1, 1)) == Seq::<SpecExpr>::empty());
                assert(x[0] == v@[1]);
                assert(shapes(x) =~= seq![shape(v@[1])]);
                assert(shapes(v@) =~= seq![left_shape, shape(right)]);
            }
            self.parse_binary(combined)
        } else {
            proof {
                if pos0 < t.len() {
                    assert(t[pos0] == self.tokens@[pos0]@);
                }
            }
            Ok(left)
        }
    }

    fn parse_unary(&mut self) -> (r: Result<FilterExpr, NinetyNineError>)
        requires
            old(self).pos <= old(self).tokens.len(),
        ensures
            final(self).tokens == old(self).tokens,
            r is Ok <==> p_unary(old(self).tv(), old(self).pos as int) is Some,
            r matches Ok(e) ==> p_unary(old(self).tv(), old(self).pos as int) == Some(
                (shape(e), final(self).pos as int),
            ),
            r is Ok ==> old(self).pos < final(self).pos <= final(self).tokens.len(),
            r matches Err(e) ==> e is FilterParse,
        decreases old(self).tokens.len() - old(self).pos, 2int,
    {
        let ghost t = self.tv();
        let ghost pos0 = self.pos as int;
        let is_not = match self.peek() {
            Some(Token::Not) => true,
            _ => false,
        };
        if is_not {
            proof {
                assert(t[pos0] == self.tokens@[pos0]@);
            }
            self.advance();
            let expr = self.parse_unary()?;
            return Ok(FilterExpr::Not(Box::new(expr)));
        }
        proof {
            if pos0 < t.len() {
                assert(t[pos0] == self.tokens@[pos0]@);
            }
        }
        self.parse_primary()
    }

    fn parse_primary(&mut self) -> (r: Result<FilterExpr, NinetyNineError>)
        requires
            old(self).pos <= old(self).tokens.len(),
        ensures
            final(self).tokens == old(self).tokens,
            r is Ok <==> p_primary(old(self).tv(), old(self).pos as int) is Some,
            r matches Ok(e) ==> p_primary(old(self).tv(), old(self).pos as int) == Some(
                (shape(e), final(self).pos as int),
            ),
            r is Ok ==> old(self).pos < final(self).pos <= final(self).tokens.len(),
            r matches Err(e) ==> e is FilterParse,
        decreases old(self).tokens.len() - old(self).pos, 1int,
    {
        let ghost t = self.tv();
        let ghost pos0 = self.pos as int;
        proof {
            if pos0 < t.len() {
                assert(t[pos0] == self.tokens@[pos0]@);
            }
        }
        match self.peek() {
            Some(Token::LParen) => {
                self.advance();
                let expr = self.parse_expr()?;
                let ghost p = self.pos as int;
                proof {
                    if p < t.len() {
                        assert(t[p] == self.tokens@[p]@);
                    }
                }
                self.expect_token(&Token::RParen)?;
                Ok(expr)
            },
            Some(Token::Ident(_)) => self.parse_predicate(),
            Some(tok) => {
                let d = token_text(tok);
                Err(parse_error(message2("unexpected token: ", d.as_str())))
            },
            None => Err(parse_error(chars_string("unexpected end of input"))),
        }
    }

    fn parse_predicate(&mut self) -> (r: Result<FilterExpr, NinetyNineError>)
        requires
            old(self).pos < old(self).tokens.len(),
            old(self).tokens@[old(self).pos as int] is Ident,
        ensures
            final(self).tokens == old(self).tokens,
            r is Ok <==> p_predicate(old(self).tv(), old(self).pos as int) is Some,
            r matches Ok(e) ==> p_predicate(old(self).tv(), old(self).pos as int) == Some(
                (shape(e), final(self).pos as int),
            ),
            r is Ok ==> old(self).pos < final(self).pos <= final(self).tokens.len(),
            r matches Err(e) ==> e is FilterParse,
    {
        let ghost t = self.tv();
        let ghost pos0 = self.pos as int;
        let field = match self.advance() {
            Some(Token::Ident(s)) => s,
            _ => {
                return Err(parse_error(chars_string("expected identifier")));
            },
        };
        proof {
            assert(t[pos0] == self.tokens@[pos0]@);
            assert(t[pos0]->Ident_0 == field@);
            if pos0 + 1 < t.len() {
                assert(t[pos0 + 1] == self.tokens@[pos0 + 1]@);
            }
            if pos0 + 2 < t.len() {
                assert(t[pos0 + 2] == self.tokens@[pos0 + 2]@);
            }
            if pos0 + 3 < t.len() {
                assert(t[pos0 + 3] == self.tokens@[pos0 + 3]@);
            }
        }
        let lparen = match self.peek() {
            Some(Token::LParen) => true,
            _ => false,
        };
        if lparen {
            self.advance();
            let arg = match self.advance() {
                Some(Token::Ident(s)) => s,
                Some(tok) => {
                    let d = token_text(&tok);
                    return Err(parse_error(message2("expected argument, found ", d.as_str())));
                },
                None => {
                    return Err(parse_error(chars_string("expected argument, found end of input")));
                },
            };
            self.expect_token(&Token::RParen)?;
            return make_call_predicate(field.as_str(), arg.as_str());
        }
        proof {
            reveal_strlit("flaky");
            reveal_strlit("quarantined");
            reveal_strlit("all");
            assert("flaky"@ =~= word_flaky());
            assert("quarantined"@ =~= word_quarantined());
            assert("all"@ =~= word_all());
        }
        if str_equal(field.as_str(), "flaky") {
            Ok(FilterExpr::Predicate(Predicate::Flaky))
        } else if str_equal(field.as_str(), "quarantined") {
            Ok(FilterExpr::Predicate(Predicate::Quarantined))
        } else if str_equal(field.as_str(), "all") {
            Ok(FilterExpr::Predicate(Predicate::All))
        } else {
            let re = build_regex(field.as_str())?;
            Ok(FilterExpr::Predicate(Predicate::Test(re)))
        }
    }
}

fn chars_string(s: &str) -> (r: String)
    ensures
        r@ == s@,
{
    s.to_owned()
}

/// Parses a token stream into a filter expression.
///
/// Succeeds exactly when the tokens form one whole expression of the
/// grammar whose patterns all compile; the tree then has the shape that
/// `parse_tokens` gives. Every failure is a `FilterParse` error: no tokens
/// are `empty filter expression`, an expression followed by more tokens
/// is `unexpected trailing tokens at position <n>`.
pub fn parse(tokens: Vec<Token>) -> (r: Result<FilterExpr, NinetyNineError>)
    ensures
        r is Ok <==> parse_tokens(tokens_view(tokens@)) is Some,
        r matches Ok(e) ==> parse_tokens(tokens_view(tokens@)) == Some(shape(e)),
        r matches Err(e) ==> e is FilterParse,
        tokens@.len() == 0 ==> (r matches Err(NinetyNineError::FilterParse { message }) && message@
            == "empty filter expression"@),
        tokens@.len() > 0 ==> match p_expr(tokens_view(tokens@), 0) {
            Some((_, p)) => p < tokens@.len() ==> (r matches Err(NinetyNineError::FilterParse { message })
                && message@ == "unexpected trailing tokens at position "@ + decimal(p as nat)),
            None => true,
        },
{
    if tokens.len() == 0 {
        return Err(parse_error(chars_string("empty filter expression")));
    }
    let mut parser = Parser::new(tokens);
    let expr = parser.parse_expr()?;
    if parser.pos < parser.tokens.len() {
        let mut msg = chars_of("unexpected trailing tokens at position ");
        let digits = decimal_of(parser.pos as u64);
        crate::text::extend_chars(&mut msg, &digits);
        return Err(parse_error(string_of(&msg)));
    }
    Ok(expr)
}

} // verus!
