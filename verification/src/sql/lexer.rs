//! The lexer: one left-to-right pass over the input characters, producing
//! the token sequence that `lex_from` describes.

use crate::sql::Operator;
use crate::sql::SqlKeyword;
use crate::sql::SqlToken;
use crate::sql::TokenV;
use crate::strutil::all_digits;
use crate::strutil::char_is_digit;
use crate::strutil::char_is_word;
use crate::strutil::chars_to_string;
use crate::strutil::is_word_char;
use crate::strutil::slice_range_to_vec;
use crate::strutil::str_to_chars;
use vstd::prelude::*;

verus! {

/// Why lexing fails.
#[derive(Debug, Clone, Copy, PartialEq, Eq)]
pub enum LexError {
    /// A character outside the surface syntax.
    UnexpectedChar(char),
    /// A `!` not followed by `=`, or standing at the end of the input.
    UnterminatedOperator,
}

/// The whitespace the lexer skips between tokens.
pub open spec fn is_lex_ws(c: char) -> bool {
    c == ' ' || c == '\n' || c == '\t'
}

fn char_is_lex_ws(c: char) -> (r: bool)
    ensures
        r == is_lex_ws(c),
{
    c == ' ' || c == '\n' || c == '\t'
}

/// The end of the run of word characters that starts at `i`.
pub open spec fn word_end(s: Seq<char>, i: int) -> int
    decreases s.len() - i when 0 <= i <= s.len()
{
    if i < s.len() && is_word_char(s[i]) {
        word_end(s, i + 1)
    } else {
        i
    }
}

pub proof fn lemma_word_end_bounds(s: Seq<char>, i: int)
    requires
        0 <= i <= s.len(),
    ensures
        i <= word_end(s, i) <= s.len(),
        forall|k: int| i <= k < word_end(s, i) ==> is_word_char(#[trigger] s[k]),
        word_end(s, i) < s.len() ==> !is_word_char(s[word_end(s, i)]),
    decreases s.len() - i,
{
    if i < s.len() && is_word_char(s[i]) {
        lemma_word_end_bounds(s, i + 1);
    }
}

/// The position of the closing quote of a string literal whose content
/// starts at `i`, or the end of the input when the literal is unterminated.
pub open spec fn string_end(s: Seq<char>, i: int) -> int
    decreases s.len() - i when 0 <= i <= s.len()
{
    if i < s.len() && s[i] != '\'' {
        string_end(s, i + 1)
    } else {
        i
    }
}

pub proof fn lemma_string_end_bounds(s: Seq<char>, i: int)
    requires
        0 <= i <= s.len(),
    ensures
        i <= string_end(s, i) <= s.len(),
        forall|k: int| i <= k < string_end(s, i) ==> #[trigger] s[k] != '\'',
        string_end(s, i) < s.len() ==> s[string_end(s, i)] == '\'',
    decreases s.len() - i,
{
    if i < s.len() && s[i] != '\'' {
        lemma_string_end_bounds(s, i + 1);
    }
}

/// Case-insensitive match of a character against an uppercase letter.
pub open spec fn char_eq_ci(c: char, u: char) -> bool {
    c == u || c as u32 == u as u32 + 32
}

/// Case-insensitive equality of a word against an uppercase keyword.
pub open spec fn word_eq_ci(w: Seq<char>, kw: Seq<char>) -> bool {
    w.len() == kw.len() && forall|i: int| 0 <= i < w.len() ==> char_eq_ci(#[trigger] w[i], kw[i])
}

/// The keyword a word denotes, compared case-insensitively, if any.
pub open spec fn keyword_of(w: Seq<char>) -> Option<SqlKeyword> {
    if word_eq_ci(w, seq!['S', 'E', 'L', 'E', 'C', 'T']) {
        Some(SqlKeyword::Select)
    } else if word_eq_ci(w, seq!['F', 'R', 'O', 'M']) {
        Some(SqlKeyword::From)
    } else if word_eq_ci(w, seq!['I', 'N', 'S', 'E', 'R', 'T']) {
        Some(SqlKeyword::Insert)
    } else if word_eq_ci(w, seq!['I', 'N', 'T', 'O']) {
        Some(SqlKeyword::Into)
    } else if word_eq_ci(w, seq!['V', 'A', 'L', 'U', 'E', 'S']) {
        Some(SqlKeyword::Values)
    } else if word_eq_ci(w, seq!['W', 'H', 'E', 'R', 'E']) {
        Some(SqlKeyword::Where)
    } else if word_eq_ci(w, seq!['A', 'N', 'D']) {
        Some(SqlKeyword::And)
    } else if word_eq_ci(w, seq!['O', 'R']) {
        Some(SqlKeyword::Or)
    } else {
        None
    }
}

/// How a word is classified: keyword first, then number if it is all
/// digits, else identifier.
pub open spec fn classify_word(w: Seq<char>) -> TokenV {
    match keyword_of(w) {
        Some(k) => TokenV::Keyword(k),
        None => if all_digits(w) {
            TokenV::NumberLiteral(w)
        } else {
            TokenV::Identifier(w)
        },
    }
}

/// Prepends one token to the result of lexing the rest.
pub open spec fn cons_tok(t: TokenV, r: Result<Seq<TokenV>, LexError>) -> Result<
    Seq<TokenV>,
    LexError,
> {
    match r {
        Ok(ts) => Ok(seq![t] + ts),
        Err(e) => Err(e),
    }
}

/// The tokens of the input from position `i` on: whitespace is skipped,
/// single characters map to their tokens, `!=` is a two-character operator,
/// a quote starts a literal that runs to the next quote (or, silently, to
/// the end of the input), a word-character run is classified as keyword,
/// number or identifier, and the end of the input yields the `EOF`
/// sentinel.  Any other character is an error.
pub open spec fn lex_from(s: Seq<char>, i: int) -> Result<Seq<TokenV>, LexError>
    decreases s.len() - i when 0 <= i <= s.len()
    via lex_from_decreases
{
    if i >= s.len() {
        Ok(seq![TokenV::EOF])
    } else {
        let c = s[i];
        if is_lex_ws(c) {
            lex_from(s, i + 1)
        } else if c == '(' {
            cons_tok(TokenV::LeftParen, lex_from(s, i + 1))
        } else if c == ')' {
            cons_tok(TokenV::RightParen, lex_from(s, i + 1))
        } else if c == ',' {
            cons_tok(TokenV::Comma, lex_from(s, i + 1))
        } else if c == ';' {
            cons_tok(TokenV::Semicolon, lex_from(s, i + 1))
        } else if c == '=' {
            cons_tok(TokenV::Operator(Operator::Equal), lex_from(s, i + 1))
        } else if c == '<' {
            cons_tok(TokenV::Operator(Operator::Smaller), lex_from(s, i + 1))
        } else if c == '>' {
            cons_tok(TokenV::Operator(Operator::Greater), lex_from(s, i + 1))
        } else if c == '!' {
            if i + 1 < s.len() && s[i + 1] == '=' {
                cons_tok(TokenV::Operator(Operator::NotEqual), lex_from(s, i + 2))
            } else {
                Err(LexError::UnterminatedOperator)
            }
        } else if c == '\'' {
            let e = string_end(s, i + 1);
            cons_tok(
                TokenV::StringLiteral(s.subrange(i + 1, e)),
                lex_from(
                    s,
                    if e < s.len() {
                        e + 1
                    } else {
                        e
                    },
                ),
            )
        } else if is_word_char(c) {
            let e = word_end(s, i);
            cons_tok(classify_word(s.subrange(i, e)), lex_from(s, e))
        } else {
            Err(LexError::UnexpectedChar(c))
        }
    }
}

#[via_fn]
proof fn lex_from_decreases(s: Seq<char>, i: int) {
    if 0 <= i < s.len() {
        lemma_string_end_bounds(s, i + 1);
        lemma_word_end_bounds(s, i);
        if is_word_char(s[i]) {
            assert(word_end(s, i) == word_end(s, i + 1));
            lemma_word_end_bounds(s, i + 1);
        }
    }
}

/// Appends the lexed prefix to the result of lexing the rest.
pub open spec fn res_prepend(acc: Seq<TokenV>, r: Result<Seq<TokenV>, LexError>) -> Result<
    Seq<TokenV>,
    LexError,
> {
    match r {
        Ok(ts) => Ok(acc + ts),
        Err(e) => Err(e),
    }
}

proof fn lemma_prepend_cons(acc: Seq<TokenV>, t: TokenV, r: Result<Seq<TokenV>, LexError>)
    ensures
        res_prepend(acc, cons_tok(t, r)) == res_prepend(acc.push(t), r),
{
    match r {
        Ok(ts) => {
            assert(acc + (seq![t] + ts) =~= acc.push(t) + ts);
        },
        Err(_) => {},
    }
}

proof fn lemma_prepend_empty(r: Result<Seq<TokenV>, LexError>)
    ensures
        res_prepend(Seq::empty(), r) == r,
{
    match r {
        Ok(ts) => {
            assert(Seq::<TokenV>::empty() + ts =~= ts);
        },
        Err(_) => {},
    }
}

/// Compares a word against an uppercase keyword, ignoring letter case.
fn word_eq_ci_exec(w: &Vec<char>, kw: &Vec<char>) -> (r: bool)
    ensures
        r == word_eq_ci(w@, kw@),
{
    if w.len() != kw.len() {
        return false;
    }
    let mut i: usize = 0;
    while i < w.len()
        invariant
            i <= w.len(),
            w.len() == kw.len(),
            forall|k: int| 0 <= k < i ==> char_eq_ci(#[trigger] w@[k], kw@[k]),
        decreases w.len() - i,
    {
        let c = w[i];
        let u = kw[i];
        let cu = c as u32;
        let uu = u as u32;
        if !(c == u || (cu >= 32 && cu - 32 == uu)) {
            return false;
        }
        i = i + 1;
    }
    true
}

/// Classifies one word: keyword, number literal or identifier.
fn classify_word_exec(w: Vec<char>) -> (t: SqlToken)
    ensures
        t@ == classify_word(w@),
{
    let kw_select: Vec<char> = vec!['S', 'E', 'L', 'E', 'C', 'T'];
    if word_eq_ci_exec(&w, &kw_select) {
        return SqlToken::Keyword(SqlKeyword::Select);
    }
    let kw_from: Vec<char> = vec!['F', 'R', 'O', 'M'];
    if word_eq_ci_exec(&w, &kw_from) {
        return SqlToken::Keyword(SqlKeyword::From);
    }
    let kw_insert: Vec<char> = vec!['I', 'N', 'S', 'E', 'R', 'T'];
    if word_eq_ci_exec(&w, &kw_insert) {
        return SqlToken::Keyword(SqlKeyword::Insert);
    }
    let kw_into: Vec<char> = vec!['I', 'N', 'T', 'O'];
    if word_eq_ci_exec(&w, &kw_into) {
        return SqlToken::Keyword(SqlKeyword::Into);
    }
    let kw_values: Vec<char> = vec!['V', 'A', 'L', 'U', 'E', 'S'];
    if word_eq_ci_exec(&w, &kw_values) {
        return SqlToken::Keyword(SqlKeyword::Values);
    }
    let kw_where: Vec<char> = vec!['W', 'H', 'E', 'R', 'E'];
    if word_eq_ci_exec(&w, &kw_where) {
        return SqlToken::Keyword(SqlKeyword::Where);
    }
    let kw_and: Vec<char> = vec!['A', 'N', 'D'];
    if word_eq_ci_exec(&w, &kw_and) {
        return SqlToken::Keyword(SqlKeyword::And);
    }
    let kw_or: Vec<char> = vec!['O', 'R'];
    if word_eq_ci_exec(&w, &kw_or) {
        return SqlToken::Keyword(SqlKeyword::Or);
    }
    let mut digits = true;
    let mut i: usize = 0;
    while i < w.len()
        invariant
            i <= w.len(),
            digits == all_digits(w@.take(i as int)),
        decreases w.len() - i,
    {
        if !char_is_digit(w[i]) {
            digits = false;
            proof {
                assert(!all_digits(w@.take(i + 1))) by {
                    assert(w@.take(i + 1)[i as int] == w@[i as int]);
                }
            }
        } else {
            proof {
                if all_digits(w@.take(i as int)) {
                    assert forall|k: int| 0 <= k < i + 1 implies crate::strutil::is_digit_char(
                        #[trigger] w@.take(i + 1)[k],
                    ) by {
                        if k < i {
                            assert(w@.take(i + 1)[k] == w@.take(i as int)[k]);
                        } else {
                            assert(w@.take(i + 1)[k] == w@[i as int]);
                        }
                    }
                } else {
                    let k = choose|k: int|
                        0 <= k < i && !crate::strutil::is_digit_char(
                            #[trigger] w@.take(i as int)[k],
                        );
                    assert(w@.take(i + 1)[k] == w@.take(i as int)[k]);
                    assert(!all_digits(w@.take(i + 1)));
                }
            }
        }
        i = i + 1;
    }
    proof {
        assert(w@.take(w@.len() as int) =~= w@);
    }
    if digits {
        SqlToken::NumberLiteral(chars_to_string(w.as_slice()))
    } else {
        SqlToken::Identifier(chars_to_string(w.as_slice()))
    }
}

/// Holds the characters of one statement while it is lexed.
#[derive(Debug)]
pub struct Lexer {
    pub input: Vec<char>,
}

impl Lexer {
    /// A lexer over the characters of the given text.
    pub fn new(text: &str) -> (l: Lexer)
        ensures
            l.input@ == text@,
    {
        Lexer { input: str_to_chars(text) }
    }

    /// One pass over the input: exactly the tokens that `lex_from`
    /// describes, ending with `EOF`.
    pub fn lex(&self) -> (r: Result<Vec<SqlToken>, LexError>)
        ensures
            match r {
                Ok(toks) => lex_from(self.input@, 0) == Ok::<Seq<TokenV>, LexError>(
                    toks.deep_view(),
                ) && toks.len() >= 1 && toks.deep_view().last() == TokenV::EOF,
                Err(e) => lex_from(self.input@, 0) == Err::<Seq<TokenV>, LexError>(e),
            },
    {
        let s = &self.input;
        let n = s.len();
        let ghost sv = self.input@;
        let mut toks: Vec<SqlToken> = Vec::new();
        let mut i: usize = 0;
        proof {
            lemma_prepend_empty(lex_from(sv, 0));
            assert(toks.deep_view() =~= Seq::<TokenV>::empty());
        }
        while i < n
            invariant
                i <= n,
                n == sv.len(),
                s@ == sv,
                lex_from(sv, 0) == res_prepend(toks.deep_view(), lex_from(sv, i as int)),
            decreases n - i,
        {
            let ghost acc0 = toks.deep_view();
            let c = s[i];
            if char_is_lex_ws(c) {
                i = i + 1;
            } else if c == '(' {
                proof {
                    lemma_prepend_cons(acc0, TokenV::LeftParen, lex_from(sv, i + 1));
                }
                push_tok(&mut toks, SqlToken::LeftParen);
                i = i + 1;
            } else if c == ')' {
                proof {
                    lemma_prepend_cons(acc0, TokenV::RightParen, lex_from(sv, i + 1));
                }
                push_tok(&mut toks, SqlToken::RightParen);
                i = i + 1;
            } else if c == ',' {
                proof {
                    lemma_prepend_cons(acc0, TokenV::Comma, lex_from(sv, i + 1));
                }
                push_tok(&mut toks, SqlToken::Comma);
                i = i + 1;
            } else if c == ';' {
                proof {
                    lemma_prepend_cons(acc0, TokenV::Semicolon, lex_from(sv, i + 1));
                }
                push_tok(&mut toks, SqlToken::Semicolon);
                i = i + 1;
            } else if c == '=' {
                proof {
                    lemma_prepend_cons(acc0, TokenV::Operator(Operator::Equal), lex_from(sv, i + 1));
                }
                push_tok(&mut toks, SqlToken::Operator(Operator::Equal));
                i = i + 1;
            } else if c == '<' {
                proof {
                    lemma_prepend_cons(
                        acc0,
                        TokenV::Operator(Operator::Smaller),
                        lex_from(sv, i + 1),
                    );
                }
                push_tok(&mut toks, SqlToken::Operator(Operator::Smaller));
                i = i + 1;
            } else if c == '>' {
                proof {
                    lemma_prepend_cons(
                        acc0,
                        TokenV::Operator(Operator::Greater),
                        lex_from(sv, i + 1),
                    );
                }
                push_tok(&mut toks, SqlToken::Operator(Operator::Greater));
                i = i + 1;
            } else if c == '!' {
                if i + 1 < n && s[i + 1] == '=' {
                    proof {
                        lemma_prepend_cons(
                            acc0,
                            TokenV::Operator(Operator::NotEqual),
                            lex_from(sv, i + 2),
                        );
                    }
                    push_tok(&mut toks, SqlToken::Operator(Operator::NotEqual));
                    i = i + 2;
                } else {
                    return Err(LexError::UnterminatedOperator);
                }
            } else if c == '\'' {
                let mut j: usize = i + 1;
                while j < n && s[j] != '\''
                    invariant
                        i + 1 <= j <= n,
                        n == sv.len(),
                        s@ == sv,
                        string_end(sv, i + 1) == string_end(sv, j as int),
                    decreases n - j,
                {
                    j = j + 1;
                }
                proof {
                    assert(string_end(sv, i + 1) == j as int);
                }
                let content = slice_range_to_vec(s.as_slice(), i + 1, j);
                let tok = SqlToken::StringLiteral(chars_to_string(content.as_slice()));
                proof {
                    assert(tok@ == TokenV::StringLiteral(sv.subrange(i + 1, j as int)));
                    let nexti: int = if (j as int) < sv.len() {
                        j + 1
                    } else {
                        j as int
                    };
                    lemma_prepend_cons(acc0, tok@, lex_from(sv, nexti));
                }
                push_tok(&mut toks, tok);
                if j < n {
                    i = j + 1;
                } else {
                    i = j;
                }
            } else if char_is_word(c) {
                let mut j: usize = i;
                while j < n && char_is_word(s[j])
                    invariant
                        i <= j <= n,
                        n == sv.len(),
                        s@ == sv,
                        word_end(sv, i as int) == word_end(sv, j as int),
                    decreases n - j,
                {
                    j = j + 1;
                }
                proof {
                    assert(word_end(sv, i as int) == j as int);
                }
                let word = slice_range_to_vec(s.as_slice(), i, j);
                let tok = classify_word_exec(word);
                proof {
                    assert(tok@ == classify_word(sv.subrange(i as int, j as int)));
                    lemma_prepend_cons(acc0, tok@, lex_from(sv, j as int));
                }
                push_tok(&mut toks, tok);
                i = j;
            } else {
                return Err(LexError::UnexpectedChar(c));
            }
        }
        let ghost acc = toks.deep_view();
        push_tok(&mut toks, SqlToken::EOF);
        proof {
            assert(lex_from(sv, n as int) == Ok::<Seq<TokenV>, LexError>(seq![TokenV::EOF]));
            assert(acc + seq![TokenV::EOF] =~= acc.push(TokenV::EOF));
            assert(toks.deep_view() == acc.push(TokenV::EOF));
        }
        Ok(toks)
    }
}

/// Appends one token, tracking the token-value sequence.
fn push_tok(toks: &mut Vec<SqlToken>, t: SqlToken)
    ensures
        final(toks).deep_view() == old(toks).deep_view().push(t@),
{
    let ghost acc0 = toks.deep_view();
    let ghost tv = t@;
    toks.push(t);
    proof {
        assert(toks.deep_view() =~~= acc0.push(tv));
    }
}

} // verus!
