//! The shared vocabulary of the pipeline: lexical tokens and the binding
//! power of the operator tokens.

use vstd::prelude::*;
use vstd::string::StringExecFns;

verus! {

/// Mathematical model of one lexical unit.  A numeric token carries the
/// literal exactly as it appeared in the input; unary minus is a syntactic
/// construct of the parser, never part of a numeric payload.
pub enum TokenView {
    Num(Seq<char>),
    Add,
    Subtract,
    Multiply,
    Divide,
    Caret,
    LeftParen,
    RightParen,
    Eof,
}

/// One lexical unit of an expression, as produced by the tokenizer.
#[derive(Debug)]
pub enum Token {
    Num(Vec<char>),
    Add,
    Subtract,
    Multiply,
    Divide,
    Caret,
    LeftParen,
    RightParen,
    Eof,
}

impl View for Token {
    type V = TokenView;

    open spec fn view(&self) -> TokenView {
        match self {
            Token::Num(lit) => TokenView::Num(lit@),
            Token::Add => TokenView::Add,
            Token::Subtract => TokenView::Subtract,
            Token::Multiply => TokenView::Multiply,
            Token::Divide => TokenView::Divide,
            Token::Caret => TokenView::Caret,
            Token::LeftParen => TokenView::LeftParen,
            Token::RightParen => TokenView::RightParen,
            Token::Eof => TokenView::Eof,
        }
    }
}

/// True when the two character vectors hold the same characters.
fn eq_chars(a: &Vec<char>, b: &Vec<char>) -> (r: bool)
    ensures
        r == (a@ == b@),
{
    if a.len() != b.len() {
        return false;
    }
    let mut i: usize = 0;
    while i < a.len()
        invariant
            i <= a.len(),
            a.len() == b.len(),
            forall|j: int| 0 <= j < i ==> a@[j] == b@[j],
        decreases a.len() - i,
    {
        if a[i] != b[i] {
            return false;
        }
        i += 1;
    }
    proof {
        assert(a@ =~= b@);
    }
    true
}

impl PartialEq for Token {
    fn eq(&self, other: &Self) -> (r: bool) {
        match (self, other) {
            (Token::Num(a), Token::Num(b)) => eq_chars(a, b),
            (Token::Add, Token::Add) => true,
            (Token::Subtract, Token::Subtract) => true,
            (Token::Multiply, Token::Multiply) => true,
            (Token::Divide, Token::Divide) => true,
            (Token::Caret, Token::Caret) => true,
            (Token::LeftParen, Token::LeftParen) => true,
            (Token::RightParen, Token::RightParen) => true,
            (Token::Eof, Token::Eof) => true,
            _ => false,
        }
    }
}

impl vstd::std_specs::cmp::PartialEqSpecImpl for Token {
    open spec fn obeys_eq_spec() -> bool {
        true
    }

    open spec fn eq_spec(&self, other: &Self) -> bool {
        self@ == other@
    }
}

/// Binding power of an operator, ordered from loosest to tightest.
/// `DefaultZero` is the entry threshold of a parse; `Negative` makes unary
/// minus bind tighter than every binary operator.
#[derive(Debug, Clone, Copy)]
pub enum OperPrec {
    DefaultZero,
    AddSub,
    MulDiv,
    Power,
    Negative,
}

/// Numeric rank of a precedence level, for comparison.
pub open spec fn prec_level(p: OperPrec) -> int {
    match p {
        OperPrec::DefaultZero => 0,
        OperPrec::AddSub => 1,
        OperPrec::MulDiv => 2,
        OperPrec::Power => 3,
        OperPrec::Negative => 4,
    }
}

impl OperPrec {
    /// The rank of this level as a machine integer.
    pub fn level(&self) -> (n: u8)
        ensures
            n as int == prec_level(*self),
    {
        match self {
            OperPrec::DefaultZero => 0,
            OperPrec::AddSub => 1,
            OperPrec::MulDiv => 2,
            OperPrec::Power => 3,
            OperPrec::Negative => 4,
        }
    }
}

/// The precedence a token binds with: every operator maps to its own
/// level, and every non-operator token maps to the weakest level so that
/// it never extends an expression.
pub open spec fn token_prec(t: TokenView) -> OperPrec {
    match t {
        TokenView::Add => OperPrec::AddSub,
        TokenView::Subtract => OperPrec::AddSub,
        TokenView::Multiply => OperPrec::MulDiv,
        TokenView::Divide => OperPrec::MulDiv,
        TokenView::Caret => OperPrec::Power,
        _ => OperPrec::DefaultZero,
    }
}

/// A short description of a token, used in error messages.
pub open spec fn token_text(t: TokenView) -> Seq<char> {
    match t {
        TokenView::Num(_) => "a number"@,
        TokenView::Add => "+"@,
        TokenView::Subtract => "-"@,
        TokenView::Multiply => "*"@,
        TokenView::Divide => "/"@,
        TokenView::Caret => "^"@,
        TokenView::LeftParen => "("@,
        TokenView::RightParen => ")"@,
        TokenView::Eof => "end of input"@,
    }
}

impl Token {
    /// A short description of this token, used in error messages.
    pub fn text(&self) -> (r: String)
        ensures
            r@ == token_text(self@),
    {
        match self {
            Token::Num(_) => String::from_str("a number"),
            Token::Add => String::from_str("+"),
            Token::Subtract => String::from_str("-"),
            Token::Multiply => String::from_str("*"),
            Token::Divide => String::from_str("/"),
            Token::Caret => String::from_str("^"),
            Token::LeftParen => String::from_str("("),
            Token::RightParen => String::from_str(")"),
            Token::Eof => String::from_str("end of input"),
        }
    }

    /// The binding power of this token.
    pub fn get_oper_prec(&self) -> (p: OperPrec)
        ensures
            p == token_prec(self@),
    {
        match self {
            Token::Add => OperPrec::AddSub,
            Token::Subtract => OperPrec::AddSub,
            Token::Multiply => OperPrec::MulDiv,
            Token::Divide => OperPrec::MulDiv,
            Token::Caret => OperPrec::Power,
            _ => OperPrec::DefaultZero,
        }
    }
}

} // verus!
