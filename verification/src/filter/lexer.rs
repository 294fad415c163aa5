//! Tokenizer of the filter language.
use vstd::prelude::*;

use crate::error::NinetyNineError;
use crate::text::{chars_of, string_of};

verus! {

/// A token of the filter language.
#[derive(Debug, PartialEq, Eq)]
pub enum Token {
    LParen,
    RParen,
    And,
    Or,
    Not,
    Ident(String),
}

/// The model of a token: identifiers by their characters.
pub enum SpecToken {
    LParen,
    RParen,
    And,
    Or,
    Not,
    Ident(Seq<char>),
}

impl View for Token {
    type V = SpecToken;

    open spec fn view(&self) -> SpecToken {
        match self {
            Token::LParen => SpecToken::LParen,
            Token::RParen => SpecToken::RParen,
            Token::And => SpecToken::And,
            Token::Or => SpecToken::Or,
            Token::Not => SpecToken::Not,
            Token::Ident(s) => SpecToken::Ident(s@),
        }
    }
}

impl Clone for Token {
    fn clone(&self) -> (r: Token)
        ensures
            r@ == self@,
    {
        match self {
            Token::LParen => Token::LParen,
            Token::RParen => Token::RParen,
            Token::And => Token::And,
            Token::Or => Token::Or,
            Token::Not => Token::Not,
            Token::Ident(s) => Token::Ident(s.clone()),
        }
    }
}

/// The models of a token sequence.
pub open spec fn tokens_view(t: Seq<Token>) -> Seq<SpecToken> {
    t.map_values(|x: Token| x@)
}

/// Characters that end a word without being part of it.
pub open spec fn is_break(c: char) -> bool {
    c == '(' || c == ')' || c == '&' || c == '|' || c == '!' || crate::text::is_ws(c)
}

/// Whitespace the tokenizer skips between tokens.
pub open spec fn is_skipped(c: char) -> bool {
    c == ' ' || c == '\t' || c == '\n' || c == '\r'
}

/// Length of the word at the start of `s`.
pub open spec fn word_len(s: Seq<char>) -> nat
    decreases s.len(),
{
    if s.len() > 0 && !is_break(s[0]) {
        1 + word_len(s.drop_first())
    } else {
        0
    }
}

/// The tokens of `s`, or `Err(c)` for the first character `c` that
/// starts no token.
pub open spec fn lex(s: Seq<char>) -> Result<Seq<SpecToken>, char>
    decreases s.len(),
{
    if s.len() == 0 {
        Ok(seq![])
    } else {
        let c = s[0];
        if is_skipped(c) {
            lex(s.drop_first())
        } else if c == '(' || c == ')' || c == '&' || c == '|' || c == '!' {
            let t = if c == '(' {
                SpecToken::LParen
            } else if c == ')' {
                SpecToken::RParen
            } else if c == '&' {
                SpecToken::And
            } else if c == '|' {
                SpecToken::Or
            } else {
                SpecToken::Not
            };
            match lex(s.drop_first()) {
                Ok(rest) => Ok(seq![t] + rest),
                Err(e) => Err(e),
            }
        } else {
            let w = word_len(s);
            if w == 0 || w > s.len() {
                Err(c)
            } else {
                match lex(s.skip(w as int)) {
                    Ok(rest) => Ok(seq![SpecToken::Ident(s.take(w as int))] + rest),
                    Err(e) => Err(e),
                }
            }
        }
    }
}

/// `unexpected character: `
pub open spec fn unexpected_prefix() -> Seq<char> {
    seq!['u', 'n', 'e', 'x', 'p', 'e', 'c', 't', 'e', 'd', ' ', 'c', 'h', 'a', 'r', 'a', 'c', 't', 'e', 'r', ':', ' ']
}

proof fn lemma_word_len_bound(s: Seq<char>)
    ensures
        word_len(s) <= s.len(),
        forall|k: int| 0 <= k < word_len(s) ==> !is_break(#[trigger] s[k]),
        word_len(s) < s.len() ==> is_break(s[word_len(s) as int]),
    decreases s.len(),
{
    if s.len() > 0 && !is_break(s[0]) {
        lemma_word_len_bound(s.drop_first());
        assert forall|k: int| 0 <= k < word_len(s) implies !is_break(#[trigger] s[k]) by {
            if k > 0 {
                assert(s[k] == s.drop_first()[k - 1]);
            }
        }
    }
}

/// Splits a filter expression into tokens.
///
/// Spaces, tabs, newlines and carriage returns separate tokens; `(`, `)`,
/// `&`, `|` and `!` are tokens of their own; any other run of characters up
/// to one of these or to whitespace is an identifier. Other whitespace where
/// a token should start is refused as `unexpected character: <c>`.
pub fn tokenize(input: &str) -> (r: Result<Vec<Token>, NinetyNineError>)
    ensures
        r matches Ok(v) ==> lex(input@) == Ok::<Seq<SpecToken>, char>(tokens_view(v@)),
        r is Err <==> lex(input@) is Err,
        r matches Err(e) ==> (e matches NinetyNineError::FilterParse { message } && lex(
            input@,
        ) matches Err(c) && message@ == unexpected_prefix() + seq![c]),
{
    let s = chars_of(input);
    let n = s.len();
    let mut tokens: Vec<Token> = Vec::new();
    let mut i: usize = 0;
    assert(s@.skip(0) =~= s@);
    while i < n
        invariant
            i <= n,
            n == s.len(),
            s@ == input@,
            lex(s@) == (match lex(s@.skip(i as int)) {
                Ok(rest) => Ok(tokens_view(tokens@) + rest),
                Err(e) => Err(e),
            }),
        decreases n - i,
    {
        let ghost rest = s@.skip(i as int);
        let ch = s[i];
        assert(rest[0] == ch);
        assert(rest.drop_first() =~= s@.skip(i + 1));
        if ch == ' ' || ch == '\t' || ch == '\n' || ch == '\r' {
            i += 1;
        } else if ch == '(' || ch == ')' || ch == '&' || ch == '|' || ch == '!' {
            let t = if ch == '(' {
                Token::LParen
            } else if ch == ')' {
                Token::RParen
            } else if ch == '&' {
                Token::And
            } else if ch == '|' {
                Token::Or
            } else {
                Token::Not
            };
            let ghost before = tokens@;
            tokens.push(t);
            proof {
                assert(tokens_view(tokens@) =~= tokens_view(before) + seq![t@]);
                match lex(s@.skip(i + 1)) {
                    Ok(r2) => {
                        assert(tokens_view(before) + (seq![t@] + r2) =~= tokens_view(tokens@)
                            + r2);
                    },
                    Err(_) => {},
                }
            }
            i += 1;
        } else {
            let start = i;
            let mut j = i;
            proof {
                lemma_word_len_bound(rest);
            }
            while j < n && !(s[j] == '(' || s[j] == ')' || s[j] == '&' || s[j] == '|' || s[j]
                == '!' || crate::text::is_whitespace(s[j]))
                invariant
                    start <= j <= n,
                    n == s.len(),
                    rest == s@.skip(start as int),
                    j - start <= word_len(rest),
                    word_len(rest) <= rest.len(),
                    forall|k: int| 0 <= k < word_len(rest) ==> !is_break(#[trigger] rest[k]),
                    word_len(rest) < rest.len() ==> is_break(rest[word_len(rest) as int]),
                decreases n - j,
            {
                assert(rest[j - start] == s@[j as int]);
                proof {
                    if j - start == word_len(rest) {
                        assert(is_break(rest[word_len(rest) as int]));
                    }
                }
                j += 1;
            }
            proof {
                if j < n {
                    assert(rest[j - start] == s@[j as int]);
                }
                assert(j - start == word_len(rest));
            }
            if j == start {
                proof {
                    assert(lex(rest) == Err::<Seq<SpecToken>, char>(ch));
                }
                let mut msg: Vec<char> = chars_of("unexpected character: ");
                proof {
                    reveal_strlit("unexpected character: ");
                }
                msg.push(ch);
                return Err(NinetyNineError::FilterParse { message: string_of(&msg) });
            }
            let mut word: Vec<char> = Vec::new();
            let mut k = start;
            while k < j
                invariant
                    start <= k <= j,
                    j <= n,
                    n == s.len(),
                    word@ == s@.subrange(start as int, k as int),
                decreases j - k,
            {
                word.push(s[k]);
                assert(s@.subrange(start as int, k + 1) =~= s@.subrange(start as int, k as int).push(s@[k as int]));
                k += 1;
            }
            let ghost before = tokens@;
            let tok = Token::Ident(string_of(&word));
            tokens.push(tok);
            proof {
                assert(word@ =~= rest.take(word_len(rest) as int));
                assert(rest.skip(word_len(rest) as int) =~= s@.skip(j as int));
                assert(tokens_view(tokens@) =~= tokens_view(before) + seq![
                    SpecToken::Ident(rest.take(word_len(rest) as int)),
                ]);
                match lex(s@.skip(j as int)) {
                    Ok(r2) => {
                        assert(tokens_view(before) + (seq![
                            SpecToken::Ident(rest.take(word_len(rest) as int)),
                        ] + r2) =~= tokens_view(tokens@) + r2);
                    },
                    Err(_) => {},
                }
            }
            i = j;
        }
    }
    proof {
        assert(s@.skip(i as int) =~= Seq::<char>::empty());
        assert(tokens_view(tokens@) + Seq::<SpecToken>::empty() =~= tokens_view(tokens@));
    }
    Ok(tokens)
}

} // verus!
