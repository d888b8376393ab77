//! Lexical analysis: a forward-only, single-pass tokenizer that turns a
//! character sequence into tokens on demand.
//!
//! The function `spec_next` is the mathematical model of one step of the
//! tokenizer; the executable `Tokenizer::next` is proved to follow it
//! exactly.

use crate::token::Token;
use crate::token::TokenView;
use vstd::prelude::*;
use vstd::string::StrSliceExecFns;

verus! {

/// An ASCII decimal digit.
pub open spec fn is_digit(c: char) -> bool {
    '0' <= c && c <= '9'
}

/// Where the numeric literal that is being scanned at position `i` ends:
/// scanning consumes digits, and a single decimal point, and stops at the
/// first character that is neither.
pub open spec fn literal_end(s: Seq<char>, i: int, seen_dot: bool) -> int
    decreases s.len() - i,
{
    if i < 0 || i >= s.len() {
        i
    } else if is_digit(s[i]) {
        literal_end(s, i + 1, seen_dot)
    } else if s[i] == '.' && !seen_dot {
        literal_end(s, i + 1, true)
    } else {
        i
    }
}

/// One step of the tokenizer on input `s` at position `pos`: the token
/// produced (`None` is a lexical failure) and the position after it.
///
/// A digit begins a numeric literal, kept as the text that was scanned.
/// If the character directly after a numeric literal is an opening
/// parenthesis, the scan of that number is abandoned and the step fails;
/// the end of the input yields `Eof` without advancing, and any
/// unrecognized character fails after consuming that character.
pub open spec fn spec_next(s: Seq<char>, pos: int) -> (Option<TokenView>, int) {
    if pos >= s.len() {
        (Some(TokenView::Eof), pos)
    } else {
        let c = s[pos];
        if is_digit(c) {
            let j = literal_end(s, pos + 1, false);
            if j < s.len() && s[j] == '(' {
                (None, j)
            } else {
                (Some(TokenView::Num(s.subrange(pos, j))), j)
            }
        } else if c == '+' {
            (Some(TokenView::Add), pos + 1)
        } else if c == '-' {
            (Some(TokenView::Subtract), pos + 1)
        } else if c == '*' {
            (Some(TokenView::Multiply), pos + 1)
        } else if c == '/' {
            (Some(TokenView::Divide), pos + 1)
        } else if c == '^' {
            (Some(TokenView::Caret), pos + 1)
        } else if c == '(' {
            (Some(TokenView::LeftParen), pos + 1)
        } else if c == ')' {
            (Some(TokenView::RightParen), pos + 1)
        } else {
            (None, pos + 1)
        }
    }
}

/// Scanning a literal never moves backwards and never leaves the input.
pub proof fn lemma_literal_end_bounds(s: Seq<char>, i: int, seen_dot: bool)
    requires
        0 <= i <= s.len(),
    ensures
        i <= literal_end(s, i, seen_dot) <= s.len(),
    decreases s.len() - i,
{
    if i < s.len() && (is_digit(s[i]) || (s[i] == '.' && !seen_dot)) {
        lemma_literal_end_bounds(s, i + 1, if is_digit(s[i]) { seen_dot } else { true });
    }
}

/// One tokenizer step stays within the input, and consumes at least one
/// character whenever any input is left.
pub proof fn lemma_spec_next_bounds(s: Seq<char>, pos: int)
    requires
        0 <= pos <= s.len(),
    ensures
        pos <= spec_next(s, pos).1 <= s.len(),
        pos < s.len() ==> pos < spec_next(s, pos).1,
        pos == s.len() ==> spec_next(s, pos) == (Some(TokenView::Eof), pos),
{
    if pos < s.len() && is_digit(s[pos]) {
        lemma_literal_end_bounds(s, pos + 1, false);
    }
}

/// A well-formed decimal literal: a digit first, then digits with at most
/// one decimal point among them.
pub open spec fn is_valid_literal(s: Seq<char>) -> bool {
    &&& s.len() >= 1
    &&& is_digit(s[0])
    &&& forall|i: int| 0 <= i < s.len() ==> is_digit(s[i]) || s[i] == '.'
    &&& forall|i: int, j: int|
        0 <= i < j < s.len() ==> !(s[i] == '.' && s[j] == '.')
}

proof fn lemma_literal_end_runs_out(s: Seq<char>, i: int, seen_dot: bool)
    requires
        0 <= i <= s.len(),
        forall|k: int| i <= k < s.len() ==> is_digit(s[k]) || s[k] == '.',
        seen_dot ==> forall|k: int| i <= k < s.len() ==> s[k] != '.',
        !seen_dot ==> forall|k: int, l: int|
            i <= k < l < s.len() ==> !(s[k] == '.' && s[l] == '.'),
    ensures
        literal_end(s, i, seen_dot) == s.len(),
    decreases s.len() - i,
{
    if i < s.len() {
        if is_digit(s[i]) {
            lemma_literal_end_runs_out(s, i + 1, seen_dot);
        } else {
            assert(s[i] == '.');
            assert(!seen_dot);
            assert forall|k: int| i + 1 <= k < s.len() implies s[k] != '.' by {
                assert(!(s[i] == '.' && s[k] == '.'));
            }
            lemma_literal_end_runs_out(s, i + 1, true);
        }
    }
}

/// Tokenizing a well-formed decimal literal on its own yields exactly one
/// numeric token, which carries the literal itself, followed by the end of
/// the input.
pub proof fn lemma_tokenize_literal(s: Seq<char>)
    requires
        is_valid_literal(s),
    ensures
        spec_next(s, 0) == (Some(TokenView::Num(s)), s.len() as int),
        spec_next(s, s.len() as int) == (Some(TokenView::Eof), s.len() as int),
{
    lemma_literal_end_runs_out(s, 1, false);
    assert(s.subrange(0, s.len() as int) =~= s);
}

/// A forward-only producer of tokens.  Each character of the input is
/// consumed at most once and the sequence is not restartable.
pub struct Tokenizer {
    chars: Vec<char>,
    pos: usize,
}

impl Tokenizer {
    /// The full input this tokenizer was built from.
    pub closed spec fn input(&self) -> Seq<char> {
        self.chars@
    }

    /// How many characters have been consumed so far.
    pub closed spec fn position(&self) -> int {
        self.pos as int
    }

    /// The scanning position never passes the end of the input.
    #[verifier::type_invariant]
    pub open spec fn wf(&self) -> bool {
        0 <= self.position() <= self.input().len()
    }

    /// A tokenizer at the start of the given text.
    pub fn new(new_expr: &str) -> (t: Tokenizer)
        ensures
            t.input() == new_expr@,
            t.position() == 0,
    {
        let n = new_expr.unicode_len();
        let mut chars: Vec<char> = Vec::new();
        let mut i: usize = 0;
        while i < n
            invariant
                i <= n,
                n == new_expr@.len(),
                chars@ == new_expr@.subrange(0, i as int),
            decreases n - i,
        {
            chars.push(new_expr.get_char(i));
            proof {
                assert(chars@ =~= new_expr@.subrange(0, i + 1 as int));
            }
            i += 1;
        }
        proof {
            assert(chars@ =~= new_expr@);
        }
        Tokenizer { chars, pos: 0 }
    }

    /// Produce the next token, following one step of `spec_next`.
    pub fn next(&mut self) -> (r: Option<Token>)
        ensures
            final(self).input() == old(self).input(),
            ({
                let (t, p) = spec_next(old(self).input(), old(self).position());
                &&& final(self).position() == p
                &&& match r {
                    Some(tok) => t == Some(tok@),
                    None => t is None,
                }
            }),
    {
        proof {
            use_type_invariant(&*self);
        }
        if self.pos >= self.chars.len() {
            return Some(Token::Eof);
        }
        let c = self.chars[self.pos];
        if c >= '0' && c <= '9' {
            let ghost s = self.chars@;
            let ghost start = self.pos as int;
            let mut lit: Vec<char> = Vec::new();
            lit.push(c);
            self.pos = self.pos + 1;
            let mut seen_dot = false;
            proof {
                assert(lit@ =~= s.subrange(start, self.pos as int));
            }
            #[verifier::loop_isolation(false)]
            loop
                invariant
                    self.chars@ == s,
                    start < self.pos <= s.len(),
                    lit@ == s.subrange(start, self.pos as int),
                    literal_end(s, start + 1, false) == literal_end(
                        s,
                        self.pos as int,
                        seen_dot,
                    ),
                decreases s.len() - self.pos,
            {
                if self.pos >= self.chars.len() {
                    break ;
                }
                let d = self.chars[self.pos];
                if d >= '0' && d <= '9' {
                    lit.push(d);
                    proof {
                        assert(lit@ =~= s.subrange(start, (self.pos + 1) as int));
                        assert(literal_end(s, self.pos as int, seen_dot) == literal_end(
                            s,
                            self.pos + 1 as int,
                            seen_dot,
                        ));
                    }
                    self.pos = self.pos + 1;
                } else if d == '.' && !seen_dot {
                    lit.push(d);
                    proof {
                        assert(lit@ =~= s.subrange(start, (self.pos + 1) as int));
                        assert(literal_end(s, self.pos as int, seen_dot) == literal_end(
                            s,
                            self.pos + 1 as int,
                            true,
                        ));
                    }
                    self.pos = self.pos + 1;
                    seen_dot = true;
                } else if d == '(' {
                    return None;
                } else {
                    break ;
                }
            }
            Some(Token::Num(lit))
        } else if c == '+' {
            self.pos = self.pos + 1;
            Some(Token::Add)
        } else if c == '-' {
            self.pos = self.pos + 1;
            Some(Token::Subtract)
        } else if c == '*' {
            self.pos = self.pos + 1;
            Some(Token::Multiply)
        } else if c == '/' {
            self.pos = self.pos + 1;
            Some(Token::Divide)
        } else if c == '^' {
            self.pos = self.pos + 1;
            Some(Token::Caret)
        } else if c == '(' {
            self.pos = self.pos + 1;
            Some(Token::LeftParen)
        } else if c == ')' {
            self.pos = self.pos + 1;
            Some(Token::RightParen)
        } else {
            self.pos = self.pos + 1;
            None
        }
    }
}

} // verus!
