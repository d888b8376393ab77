//! Precedence-climbing construction of a syntax tree from the token
//! stream.
//!
//! The `sp_*` functions form the mathematical model of the parser: a
//! recursive relation over the input text, the scanning position and the
//! one-token lookahead, with an explicit recursion allowance (`fuel`) so
//! that the definition is total.  `None` stands only for an exhausted
//! allowance; every executable entry point is proved to agree with the
//! model whenever the allowance is at least a small multiple of the
//! input left, so the allowance never runs out on a real parse.

use crate::ast::Node;
use crate::ast::NodeView;
use crate::token::prec_level;
use crate::token::token_prec;
use crate::token::token_text;
use crate::token::OperPrec;
use crate::token::Token;
use crate::token::TokenView;
use crate::tokenizer::lemma_spec_next_bounds;
use crate::tokenizer::spec_next;
use crate::tokenizer::Tokenizer;
use vstd::prelude::*;
use vstd::string::StringExecFns;

verus! {

/// Mathematical model of a parse failure.
pub enum ErrView {
    UnableToParse(Seq<char>),
    InvalidOperator(Seq<char>),
}

/// A parse failure: either no primary expression could be formed, or an
/// unexpected token appeared where an operator, a matching parenthesis or
/// a further token was required.  Both variants carry a descriptive
/// message.
#[derive(Debug)]
pub enum ParseError {
    UnableToParse(String),
    InvalidOperator(String),
}

impl View for ParseError {
    type V = ErrView;

    open spec fn view(&self) -> ErrView {
        match self {
            ParseError::UnableToParse(m) => ErrView::UnableToParse(m@),
            ParseError::InvalidOperator(m) => ErrView::InvalidOperator(m@),
        }
    }
}

/// The message an error carries.
pub open spec fn err_message(e: ErrView) -> Seq<char> {
    match e {
        ErrView::UnableToParse(m) => m,
        ErrView::InvalidOperator(m) => m,
    }
}

impl ParseError {
    /// The error rendered as text.
    pub fn describe(&self) -> (r: String)
        ensures
            r@ == "Error in evaluation "@ + err_message(self@),
    {
        match self {
            ParseError::UnableToParse(m) => String::from_str("Error in evaluation ").concat(
                m.as_str(),
            ),
            ParseError::InvalidOperator(m) => String::from_str("Error in evaluation ").concat(
                m.as_str(),
            ),
        }
    }
}

/// Pulling the next token into the lookahead.  A lexical failure of the
/// tokenizer surfaces here as an `InvalidOperator` error.
pub open spec fn sp_advance(s: Seq<char>, pos: int) -> Result<(TokenView, int), ErrView> {
    let (t, p) = spec_next(s, pos);
    match t {
        Some(tok) => Ok((tok, p)),
        None => Err(ErrView::InvalidOperator("Invalid Character"@)),
    }
}

/// Pulling the very first token when a parser is constructed.
pub open spec fn sp_init(s: Seq<char>) -> Result<(TokenView, int), ErrView> {
    let (t, p) = spec_next(s, 0);
    match t {
        Some(tok) => Ok((tok, p)),
        None => Err(ErrView::InvalidOperator("Invalid character"@)),
    }
}

/// Requiring the lookahead to be `expected` (in practice a closing
/// parenthesis) and stepping over it.
pub open spec fn sp_check_paren(s: Seq<char>, pos: int, cur: TokenView, expected: TokenView) -> Result<
    (TokenView, int),
    ErrView,
> {
    if cur == expected {
        sp_advance(s, pos)
    } else {
        Err(
            ErrView::InvalidOperator(
                "Expected "@ + token_text(expected) + ", got "@ + token_text(cur),
            ),
        )
    }
}

/// How far a parse may still recurse on measure `m`; each of the model's
/// functions is total once its allowance reaches this bound.
pub open spec fn climb_measure(s: Seq<char>, pos: int, cur: TokenView) -> int {
    s.len() - pos + if cur is Eof {
        0int
    } else {
        1int
    }
}

/// One step of the model: parse a primary expression (a number, a
/// unary-negated expression, or a parenthesized expression, the last
/// possibly followed by an implicitly multiplied second group).
pub open spec fn sp_parse_number(s: Seq<char>, pos: int, cur: TokenView, fuel: nat) -> Option<
    Result<(NodeView, int, TokenView), ErrView>,
>
    decreases fuel,
{
    if fuel == 0 {
        None
    } else {
        match cur {
            TokenView::Subtract => match sp_advance(s, pos) {
                Err(e) => Some(Err(e)),
                Ok((c1, p1)) => match sp_generate_ast(
                    s,
                    p1,
                    c1,
                    OperPrec::Negative,
                    (fuel - 1) as nat,
                ) {
                    None => None,
                    Some(Err(e)) => Some(Err(e)),
                    Some(Ok((n, p2, c2))) => Some(
                        Ok((NodeView::Negative(Box::new(n)), p2, c2)),
                    ),
                },
            },
            TokenView::Num(lit) => match sp_advance(s, pos) {
                Err(e) => Some(Err(e)),
                Ok((c1, p1)) => Some(Ok((NodeView::Number(lit), p1, c1))),
            },
            TokenView::LeftParen => match sp_advance(s, pos) {
                Err(e) => Some(Err(e)),
                Ok((c1, p1)) => match sp_generate_ast(
                    s,
                    p1,
                    c1,
                    OperPrec::DefaultZero,
                    (fuel - 1) as nat,
                ) {
                    None => None,
                    Some(Err(e)) => Some(Err(e)),
                    Some(Ok((expr, p2, c2))) => match sp_check_paren(
                        s,
                        p2,
                        c2,
                        TokenView::RightParen,
                    ) {
                        Err(e) => Some(Err(e)),
                        Ok((c3, p3)) => if c3 is LeftParen {
                            match sp_generate_ast(
                                s,
                                p3,
                                c3,
                                OperPrec::MulDiv,
                                (fuel - 1) as nat,
                            ) {
                                None => None,
                                Some(Err(e)) => Some(Err(e)),
                                Some(Ok((right, p4, c4))) => Some(
                                    Ok(
                                        (
                                            NodeView::Multiply(
                                                Box::new(expr),
                                                Box::new(right),
                                            ),
                                            p4,
                                            c4,
                                        ),
                                    ),
                                ),
                            }
                        } else {
                            Some(Ok((expr, p3, c3)))
                        },
                    },
                },
            },
            _ => Some(Err(ErrView::UnableToParse("Unable to parse"@))),
        }
    }
}

/// One step of the model: fold the operator in the lookahead together
/// with a recursively parsed right-hand operand into a binary node.  A
/// left-associative operator parses its right side at its own level,
/// deferring same-level chaining to the enclosing loop; the caret parses
/// its right side one level looser, so that a right-hand chain of carets
/// recurses before returning, which makes exponentiation
/// right-associative.
pub open spec fn sp_convert(s: Seq<char>, pos: int, cur: TokenView, left: NodeView, fuel: nat) -> Option<
    Result<(NodeView, int, TokenView), ErrView>,
>
    decreases fuel,
{
    if fuel == 0 {
        None
    } else {
        match cur {
            TokenView::Add => match sp_binary_rhs(s, pos, OperPrec::AddSub, (fuel - 1) as nat) {
                None => None,
                Some(Err(e)) => Some(Err(e)),
                Some(Ok((right, p, c))) => Some(
                    Ok((NodeView::Add(Box::new(left), Box::new(right)), p, c)),
                ),
            },
            TokenView::Subtract => match sp_binary_rhs(
                s,
                pos,
                OperPrec::AddSub,
                (fuel - 1) as nat,
            ) {
                None => None,
                Some(Err(e)) => Some(Err(e)),
                Some(Ok((right, p, c))) => Some(
                    Ok((NodeView::Subtract(Box::new(left), Box::new(right)), p, c)),
                ),
            },
            TokenView::Multiply => match sp_binary_rhs(
                s,
                pos,
                OperPrec::MulDiv,
                (fuel - 1) as nat,
            ) {
                None => None,
                Some(Err(e)) => Some(Err(e)),
                Some(Ok((right, p, c))) => Some(
                    Ok((NodeView::Multiply(Box::new(left), Box::new(right)), p, c)),
                ),
            },
            TokenView::Divide => match sp_binary_rhs(s, pos, OperPrec::MulDiv, (fuel - 1) as nat) {
                None => None,
                Some(Err(e)) => Some(Err(e)),
                Some(Ok((right, p, c))) => Some(
                    Ok((NodeView::Divide(Box::new(left), Box::new(right)), p, c)),
                ),
            },
            TokenView::Caret => match sp_binary_rhs(s, pos, OperPrec::MulDiv, (fuel - 1) as nat) {
                None => None,
                Some(Err(e)) => Some(Err(e)),
                Some(Ok((right, p, c))) => Some(
                    Ok((NodeView::Caret(Box::new(left), Box::new(right)), p, c)),
                ),
            },
            _ => Some(
                Err(
                    ErrView::InvalidOperator(
                        "Please enter valid operator "@ + token_text(cur),
                    ),
                ),
            ),
        }
    }
}

/// Step over the operator in the lookahead and parse its right-hand
/// operand at the given threshold.
pub open spec fn sp_binary_rhs(s: Seq<char>, pos: int, threshold: OperPrec, fuel: nat) -> Option<
    Result<(NodeView, int, TokenView), ErrView>,
>
    decreases fuel,
{
    if fuel == 0 {
        None
    } else {
        match sp_advance(s, pos) {
            Err(e) => Some(Err(e)),
            Ok((c1, p1)) => sp_generate_ast(s, p1, c1, threshold, (fuel - 1) as nat),
        }
    }
}

/// The model of the climbing loop: while the lookahead binds strictly
/// tighter than `min_prec` and is not the end of the input, fold it and
/// a right-hand operand into the left operand and continue.
pub open spec fn sp_ast_loop(
    s: Seq<char>,
    pos: int,
    cur: TokenView,
    min_prec: OperPrec,
    left: NodeView,
    fuel: nat,
) -> Option<Result<(NodeView, int, TokenView), ErrView>>
    decreases fuel,
{
    if fuel == 0 {
        None
    } else {
        if prec_level(min_prec) < prec_level(token_prec(cur)) && !(cur is Eof) {
            match sp_convert(s, pos, cur, left, (fuel - 1) as nat) {
                None => None,
                Some(Err(e)) => Some(Err(e)),
                Some(Ok((new_left, p1, c1))) => sp_ast_loop(
                    s,
                    p1,
                    c1,
                    min_prec,
                    new_left,
                    (fuel - 1) as nat,
                ),
            }
        } else {
            Some(Ok((left, pos, cur)))
        }
    }
}

/// The model of a whole precedence climb from threshold `min_prec`: a
/// primary expression first, then the climbing loop.
pub open spec fn sp_generate_ast(
    s: Seq<char>,
    pos: int,
    cur: TokenView,
    min_prec: OperPrec,
    fuel: nat,
) -> Option<Result<(NodeView, int, TokenView), ErrView>>
    decreases fuel,
{
    if fuel == 0 {
        None
    } else {
        match sp_parse_number(s, pos, cur, (fuel - 1) as nat) {
            None => None,
            Some(Err(e)) => Some(Err(e)),
            Some(Ok((left, p1, c1))) => sp_ast_loop(s, p1, c1, min_prec, left, (fuel - 1) as nat),
        }
    }
}

/// A recursion allowance that is always sufficient for input `s`.
pub open spec fn parse_fuel(s: Seq<char>) -> nat {
    (4 * s.len() + 8) as nat
}

/// The model of parsing one whole expression string: pull the first
/// token, then climb from the loosest threshold.  Trailing tokens that
/// no enclosing expression can absorb are left unread.
pub open spec fn sp_parse(s: Seq<char>) -> Result<NodeView, ErrView> {
    match sp_init(s) {
        Err(e) => Err(e),
        Ok((cur, pos)) => match sp_generate_ast(s, pos, cur, OperPrec::DefaultZero, parse_fuel(s)) {
            Some(Ok((n, p, c))) => Ok(n),
            Some(Err(e)) => Err(e),
            None => arbitrary(),
        },
    }
}

/// The parser: owns its tokenizer, its exclusive source of future
/// tokens, together with exactly one lookahead token.
pub struct Parser {
    tokenizer: Tokenizer,
    current_token: Token,
}

/// What one parsing step returned, together with the state it left the
/// parser in, as the model sees it.
pub open spec fn step_result(r: Result<Node, ParseError>, p: Parser) -> Result<
    (NodeView, int, TokenView),
    ErrView,
> {
    match r {
        Ok(n) => Ok((n@, p.position(), p.lookahead())),
        Err(e) => Err(e@),
    }
}

impl Parser {
    /// The whole input text being parsed.
    pub closed spec fn text(&self) -> Seq<char> {
        self.tokenizer.input()
    }

    /// How much of the input the tokenizer has consumed.
    pub closed spec fn position(&self) -> int {
        self.tokenizer.position()
    }

    /// The token held in the lookahead.
    pub closed spec fn lookahead(&self) -> TokenView {
        self.current_token@
    }

    /// The recursion measure of this state.
    pub open spec fn measure(&self) -> int {
        climb_measure(self.text(), self.position(), self.lookahead())
    }

    /// A parser over the given text.  Construction pulls the first
    /// token; if none can be formed, it fails with a lexical error.
    pub fn new(expr: &str) -> (r: Result<Parser, ParseError>)
        ensures
            match r {
                Ok(p) => {
                    &&& p.text() == expr@
                    &&& sp_init(expr@) == Ok::<(TokenView, int), ErrView>(
                        (p.lookahead(), p.position()),
                    )
                },
                Err(e) => sp_init(expr@) == Err::<(TokenView, int), ErrView>(e@),
            },
    {
        let mut lexer = Tokenizer::new(expr);
        let cur_token = match lexer.next() {
            Some(token) => token,
            None => return Err(
                ParseError::InvalidOperator(String::from_str("Invalid character")),
            ),
        };
        Ok(Parser { tokenizer: lexer, current_token: cur_token })
    }

    /// Replace the lookahead with the next token from the tokenizer.
    fn get_next_token(&mut self) -> (r: Result<(), ParseError>)
        ensures
            final(self).text() == old(self).text(),
            final(self).measure() <= old(self).measure(),
            !(old(self).lookahead() is Eof) ==> final(self).measure() < old(self).measure(),
            match r {
                Ok(()) => sp_advance(old(self).text(), old(self).position()) == Ok::<
                    (TokenView, int),
                    ErrView,
                >((final(self).lookahead(), final(self).position())),
                Err(e) => {
                    &&& sp_advance(old(self).text(), old(self).position()) == Err::<
                        (TokenView, int),
                        ErrView,
                    >(e@)
                    &&& final(self).lookahead() == old(self).lookahead()
                },
            },
    {
        proof {
            use_type_invariant(&self.tokenizer);
            lemma_spec_next_bounds(self.text(), self.position());
        }
        match self.tokenizer.next() {
            Some(token) => {
                self.current_token = token;
                Ok(())
            },
            None => Err(ParseError::InvalidOperator(String::from_str("Invalid Character"))),
        }
    }

    /// Require the lookahead to be `expected` and step over it.
    fn check_paren(&mut self, expected: Token) -> (r: Result<(), ParseError>)
        ensures
            final(self).text() == old(self).text(),
            final(self).measure() <= old(self).measure(),
            r is Ok && !(expected@ is Eof) ==> final(self).measure() < old(self).measure(),
            match r {
                Ok(()) => sp_check_paren(
                    old(self).text(),
                    old(self).position(),
                    old(self).lookahead(),
                    expected@,
                ) == Ok::<(TokenView, int), ErrView>(
                    (final(self).lookahead(), final(self).position()),
                ),
                Err(e) => sp_check_paren(
                    old(self).text(),
                    old(self).position(),
                    old(self).lookahead(),
                    expected@,
                ) == Err::<(TokenView, int), ErrView>(e@),
            },
    {
        proof {
            use_type_invariant(&self.tokenizer);
        }
        if expected == self.current_token {
            match self.get_next_token() {
                Ok(()) => Ok(()),
                Err(e) => Err(e),
            }
        } else {
            let mut msg = String::from_str("Expected ");
            msg.append(expected.text().as_str());
            msg.append(", got ");
            msg.append(self.current_token.text().as_str());
            Err(ParseError::InvalidOperator(msg))
        }
    }

    /// Parse one primary expression: a number, a unary-negated
    /// expression, or a parenthesized expression, the last possibly
    /// followed by an implicitly multiplied second group.
    fn parse_number(&mut self) -> (r: Result<Node, ParseError>)
        ensures
            final(self).text() == old(self).text(),
            final(self).measure() <= old(self).measure(),
            forall|fuel: nat|
                fuel >= 4 * old(self).measure() + 3 ==> #[trigger] sp_parse_number(
                    old(self).text(),
                    old(self).position(),
                    old(self).lookahead(),
                    fuel,
                ) == Some(step_result(r, *final(self))),
        decreases old(self).measure(), 0int,
    {
        proof {
            use_type_invariant(&self.tokenizer);
        }
        let ghost s0 = self.text();
        let ghost pos0 = self.position();
        let ghost cur0 = self.lookahead();
        let ghost m0 = self.measure();
        let mut token = Token::Eof;
        core::mem::swap(&mut token, &mut self.current_token);
        match token {
            Token::Subtract => {
                match self.get_next_token() {
                    Err(e) => {
                        proof {
                            assert forall|fuel: nat| fuel >= 4 * m0 + 3 implies #[trigger] sp_parse_number(
                                s0,
                                pos0,
                                cur0,
                                fuel,
                            ) == Some(Err::<(NodeView, int, TokenView), ErrView>(e@)) by {
                                assert(fuel >= 1);
                            }
                        }
                        return Err(e);
                    },
                    Ok(()) => {},
                }
                proof {
                    use_type_invariant(&self.tokenizer);
                }
                let ghost p1 = self.position();
                let ghost c1 = self.lookahead();
                let ghost m1 = self.measure();
                let expr = match self.generate_ast(OperPrec::Negative) {
                    Err(e) => {
                        proof {
                            assert forall|fuel: nat| fuel >= 4 * m0 + 3 implies #[trigger] sp_parse_number(
                                s0,
                                pos0,
                                cur0,
                                fuel,
                            ) == Some(Err::<(NodeView, int, TokenView), ErrView>(e@)) by {
                                let fg: nat = (fuel - 1) as nat;
                                assert(fg >= 4 * m1 + 4);
                                assert(sp_generate_ast(s0, p1, c1, OperPrec::Negative, fg)
                                    == Some(Err::<(NodeView, int, TokenView), ErrView>(e@)));
                            }
                        }
                        return Err(e);
                    },
                    Ok(n) => n,
                };
                proof {
                    assert forall|fuel: nat| fuel >= 4 * m0 + 3 implies #[trigger] sp_parse_number(
                        s0,
                        pos0,
                        cur0,
                        fuel,
                    ) == Some(
                        Ok::<(NodeView, int, TokenView), ErrView>(
                            (
                                NodeView::Negative(Box::new(expr@)),
                                self.position(),
                                self.lookahead(),
                            ),
                        ),
                    ) by {
                        let fg: nat = (fuel - 1) as nat;
                        assert(fg >= 4 * m1 + 4);
                        assert(sp_generate_ast(s0, p1, c1, OperPrec::Negative, fg) == Some(
                            Ok::<(NodeView, int, TokenView), ErrView>(
                                (expr@, self.position(), self.lookahead()),
                            ),
                        ));
                    }
                }
                Ok(Node::Negative(Box::new(expr)))
            },
            Token::Num(lit) => {
                match self.get_next_token() {
                    Err(e) => {
                        proof {
                            assert forall|fuel: nat| fuel >= 4 * m0 + 3 implies #[trigger] sp_parse_number(
                                s0,
                                pos0,
                                cur0,
                                fuel,
                            ) == Some(Err::<(NodeView, int, TokenView), ErrView>(e@)) by {
                                assert(fuel >= 1);
                            }
                        }
                        return Err(e);
                    },
                    Ok(()) => {},
                }
                proof {
                    assert forall|fuel: nat| fuel >= 4 * m0 + 3 implies #[trigger] sp_parse_number(
                        s0,
                        pos0,
                        cur0,
                        fuel,
                    ) == Some(
                        Ok::<(NodeView, int, TokenView), ErrView>(
                            (NodeView::Number(lit@), self.position(), self.lookahead()),
                        ),
                    ) by {
                        assert(fuel >= 1);
                    }
                }
                Ok(Node::Number(lit))
            },
            Token::LeftParen => {
                match self.get_next_token() {
                    Err(e) => {
                        proof {
                            assert forall|fuel: nat| fuel >= 4 * m0 + 3 implies #[trigger] sp_parse_number(
                                s0,
                                pos0,
                                cur0,
                                fuel,
                            ) == Some(Err::<(NodeView, int, TokenView), ErrView>(e@)) by {
                                assert(fuel >= 1);
                            }
                        }
                        return Err(e);
                    },
                    Ok(()) => {},
                }
                proof {
                    use_type_invariant(&self.tokenizer);
                }
                let ghost p1 = self.position();
                let ghost c1 = self.lookahead();
                let ghost m1 = self.measure();
                let expr = match self.generate_ast(OperPrec::DefaultZero) {
                    Err(e) => {
                        proof {
                            assert forall|fuel: nat| fuel >= 4 * m0 + 3 implies #[trigger] sp_parse_number(
                                s0,
                                pos0,
                                cur0,
                                fuel,
                            ) == Some(Err::<(NodeView, int, TokenView), ErrView>(e@)) by {
                                let fg: nat = (fuel - 1) as nat;
                                assert(fg >= 4 * m1 + 4);
                                assert(sp_generate_ast(s0, p1, c1, OperPrec::DefaultZero, fg)
                                    == Some(Err::<(NodeView, int, TokenView), ErrView>(e@)));
                            }
                        }
                        return Err(e);
                    },
                    Ok(n) => n,
                };
                proof {
                    use_type_invariant(&self.tokenizer);
                }
                let ghost p2 = self.position();
                let ghost c2 = self.lookahead();
                let ghost m2 = self.measure();
                match self.check_paren(Token::RightParen) {
                    Err(e) => {
                        proof {
                            assert forall|fuel: nat| fuel >= 4 * m0 + 3 implies #[trigger] sp_parse_number(
                                s0,
                                pos0,
                                cur0,
                                fuel,
                            ) == Some(Err::<(NodeView, int, TokenView), ErrView>(e@)) by {
                                let fg: nat = (fuel - 1) as nat;
                                assert(fg >= 4 * m1 + 4);
                                assert(sp_generate_ast(s0, p1, c1, OperPrec::DefaultZero, fg)
                                    == Some(
                                    Ok::<(NodeView, int, TokenView), ErrView>((expr@, p2, c2)),
                                ));
                                assert(sp_check_paren(s0, p2, c2, TokenView::RightParen)
                                    == Err::<(TokenView, int), ErrView>(e@));
                            }
                        }
                        return Err(e);
                    },
                    Ok(()) => {},
                }
                proof {
                    use_type_invariant(&self.tokenizer);
                }
                let ghost p3 = self.position();
                let ghost c3 = self.lookahead();
                let ghost m3 = self.measure();
                let again = match &self.current_token {
                    Token::LeftParen => true,
                    _ => false,
                };
                if again {
                    let right = match self.generate_ast(OperPrec::MulDiv) {
                        Err(e) => {
                            proof {
                                assert forall|fuel: nat| fuel >= 4 * m0 + 3 implies #[trigger] sp_parse_number(
                                    s0,
                                    pos0,
                                    cur0,
                                    fuel,
                                ) == Some(Err::<(NodeView, int, TokenView), ErrView>(e@)) by {
                                    let fg: nat = (fuel - 1) as nat;
                                    assert(fg >= 4 * m1 + 4);
                                    assert(sp_generate_ast(s0, p1, c1, OperPrec::DefaultZero, fg)
                                        == Some(
                                        Ok::<(NodeView, int, TokenView), ErrView>((expr@, p2, c2)),
                                    ));
                                    assert(sp_check_paren(s0, p2, c2, TokenView::RightParen)
                                        == Ok::<(TokenView, int), ErrView>((c3, p3)));
                                    assert(fg >= 4 * m3 + 4);
                                    assert(sp_generate_ast(s0, p3, c3, OperPrec::MulDiv, fg)
                                        == Some(Err::<(NodeView, int, TokenView), ErrView>(e@)));
                                }
                            }
                            return Err(e);
                        },
                        Ok(n) => n,
                    };
                    proof {
                        assert forall|fuel: nat| fuel >= 4 * m0 + 3 implies #[trigger] sp_parse_number(
                            s0,
                            pos0,
                            cur0,
                            fuel,
                        ) == Some(
                            Ok::<(NodeView, int, TokenView), ErrView>(
                                (
                                    NodeView::Multiply(Box::new(expr@), Box::new(right@)),
                                    self.position(),
                                    self.lookahead(),
                                ),
                            ),
                        ) by {
                            let fg: nat = (fuel - 1) as nat;
                            assert(fg >= 4 * m1 + 4);
                            assert(sp_generate_ast(s0, p1, c1, OperPrec::DefaultZero, fg) == Some(
                                Ok::<(NodeView, int, TokenView), ErrView>((expr@, p2, c2)),
                            ));
                            assert(sp_check_paren(s0, p2, c2, TokenView::RightParen) == Ok::<
                                (TokenView, int),
                                ErrView,
                            >((c3, p3)));
                            assert(fg >= 4 * m3 + 4);
                            assert(sp_generate_ast(s0, p3, c3, OperPrec::MulDiv, fg) == Some(
                                Ok::<(NodeView, int, TokenView), ErrView>(
                                    (right@, self.position(), self.lookahead()),
                                ),
                            ));
                        }
                    }
                    return Ok(Node::Multiply(Box::new(expr), Box::new(right)));
                }
                proof {
                    assert forall|fuel: nat| fuel >= 4 * m0 + 3 implies #[trigger] sp_parse_number(
                        s0,
                        pos0,
                        cur0,
                        fuel,
                    ) == Some(
                        Ok::<(NodeView, int, TokenView), ErrView>((expr@, p3, c3)),
                    ) by {
                        let fg: nat = (fuel - 1) as nat;
                        assert(fg >= 4 * m1 + 4);
                        assert(sp_generate_ast(s0, p1, c1, OperPrec::DefaultZero, fg) == Some(
                            Ok::<(NodeView, int, TokenView), ErrView>((expr@, p2, c2)),
                        ));
                        assert(sp_check_paren(s0, p2, c2, TokenView::RightParen) == Ok::<
                            (TokenView, int),
                            ErrView,
                        >((c3, p3)));
                    }
                }
                Ok(expr)
            },
            other => {
                proof {
                    assert forall|fuel: nat| fuel >= 4 * m0 + 3 implies #[trigger] sp_parse_number(
                        s0,
                        pos0,
                        cur0,
                        fuel,
                    ) == Some(
                        Err::<(NodeView, int, TokenView), ErrView>(
                            ErrView::UnableToParse("Unable to parse"@),
                        ),
                    ) by {
                        assert(fuel >= 1);
                    }
                }
                self.current_token = other;
                Err(ParseError::UnableToParse(String::from_str("Unable to parse")))
            },
        }
    }

    /// Fold the operator in the lookahead together with a recursively
    /// parsed right-hand operand into a binary node.
    fn convert_token_to_node(&mut self, left_expr: Node) -> (r: Result<Node, ParseError>)
        ensures
            final(self).text() == old(self).text(),
            final(self).measure() <= old(self).measure(),
            r is Ok ==> final(self).measure() < old(self).measure(),
            forall|fuel: nat|
                fuel >= 4 * old(self).measure() + 2 ==> #[trigger] sp_convert(
                    old(self).text(),
                    old(self).position(),
                    old(self).lookahead(),
                    left_expr@,
                    fuel,
                ) == Some(step_result(r, *final(self))),
        decreases old(self).measure(), 0int,
    {
        proof {
            use_type_invariant(&self.tokenizer);
        }
        let ghost s0 = self.text();
        let ghost pos0 = self.position();
        let ghost cur0 = self.lookahead();
        let ghost m0 = self.measure();
        let ghost leftv = left_expr@;
        let tag: u8 = match &self.current_token {
            Token::Add => 1,
            Token::Subtract => 2,
            Token::Multiply => 3,
            Token::Divide => 4,
            Token::Caret => 5,
            _ => 0,
        };
        if tag == 0 {
            let msg = String::from_str("Please enter valid operator ").concat(
                self.current_token.text().as_str(),
            );
            proof {
                assert forall|fuel: nat| fuel >= 4 * m0 + 2 implies #[trigger] sp_convert(
                    s0,
                    pos0,
                    cur0,
                    leftv,
                    fuel,
                ) == Some(
                    Err::<(NodeView, int, TokenView), ErrView>(
                        ErrView::InvalidOperator(
                            "Please enter valid operator "@ + token_text(cur0),
                        ),
                    ),
                ) by {
                    assert(fuel >= 1);
                }
            }
            return Err(ParseError::InvalidOperator(msg));
        }
        match self.get_next_token() {
            Err(e) => {
                proof {
                    assert forall|fuel: nat| fuel >= 4 * m0 + 2 implies #[trigger] sp_convert(
                        s0,
                        pos0,
                        cur0,
                        leftv,
                        fuel,
                    ) == Some(Err::<(NodeView, int, TokenView), ErrView>(e@)) by {
                        let fb: nat = (fuel - 1) as nat;
                        assert(fb >= 1);
                        assert(sp_binary_rhs(s0, pos0, OperPrec::AddSub, fb) == Some(
                            Err::<(NodeView, int, TokenView), ErrView>(e@),
                        ));
                        assert(sp_binary_rhs(s0, pos0, OperPrec::MulDiv, fb) == Some(
                            Err::<(NodeView, int, TokenView), ErrView>(e@),
                        ));
                        assert(sp_binary_rhs(s0, pos0, OperPrec::MulDiv, fb) == Some(
                            Err::<(NodeView, int, TokenView), ErrView>(e@),
                        ));
                    }
                }
                return Err(e);
            },
            Ok(()) => {},
        }
        proof {
            use_type_invariant(&self.tokenizer);
        }
        let ghost p1 = self.position();
        let ghost c1 = self.lookahead();
        let ghost m1 = self.measure();
        // A left-associative operator parses its right side at its own
        // level, deferring same-level chaining to the enclosing loop; the
        // caret parses its right side one level looser, so that a further
        // caret is folded into the right operand (right associativity).
        let threshold = if tag == 1 || tag == 2 {
            OperPrec::AddSub
        } else {
            OperPrec::MulDiv
        };
        let right_expr = match self.generate_ast(threshold) {
            Err(e) => {
                proof {
                    assert forall|fuel: nat| fuel >= 4 * m0 + 2 implies #[trigger] sp_convert(
                        s0,
                        pos0,
                        cur0,
                        leftv,
                        fuel,
                    ) == Some(Err::<(NodeView, int, TokenView), ErrView>(e@)) by {
                        let fb: nat = (fuel - 1) as nat;
                        let fg: nat = (fb - 1) as nat;
                        assert(fb >= 1);
                        assert(fg >= 4 * m1 + 4);
                        assert(sp_generate_ast(s0, p1, c1, threshold, fg) == Some(
                            Err::<(NodeView, int, TokenView), ErrView>(e@),
                        ));
                        assert(sp_binary_rhs(s0, pos0, threshold, fb) == Some(
                            Err::<(NodeView, int, TokenView), ErrView>(e@),
                        ));
                    }
                }
                return Err(e);
            },
            Ok(n) => n,
        };
        let ghost rightv = right_expr@;
        let node = if tag == 1 {
            Node::Add(Box::new(left_expr), Box::new(right_expr))
        } else if tag == 2 {
            Node::Subtract(Box::new(left_expr), Box::new(right_expr))
        } else if tag == 3 {
            Node::Multiply(Box::new(left_expr), Box::new(right_expr))
        } else if tag == 4 {
            Node::Divide(Box::new(left_expr), Box::new(right_expr))
        } else {
            Node::Caret(Box::new(left_expr), Box::new(right_expr))
        };
        proof {
            assert forall|fuel: nat| fuel >= 4 * m0 + 2 implies #[trigger] sp_convert(
                s0,
                pos0,
                cur0,
                leftv,
                fuel,
            ) == Some(
                Ok::<(NodeView, int, TokenView), ErrView>(
                    (node@, self.position(), self.lookahead()),
                ),
            ) by {
                let fb: nat = (fuel - 1) as nat;
                let fg: nat = (fb - 1) as nat;
                assert(fb >= 1);
                assert(fg >= 4 * m1 + 4);
                assert(sp_generate_ast(s0, p1, c1, threshold, fg) == Some(
                    Ok::<(NodeView, int, TokenView), ErrView>(
                        (rightv, self.position(), self.lookahead()),
                    ),
                ));
                assert(sp_binary_rhs(s0, pos0, threshold, fb) == Some(
                    Ok::<(NodeView, int, TokenView), ErrView>(
                        (rightv, self.position(), self.lookahead()),
                    ),
                ));
            }
        }
        Ok(node)
    }

    /// Whether the climbing loop folds another operator: the lookahead
    /// must bind strictly tighter than the threshold and must not be the
    /// end of the input.
    fn should_fold(&self, min_prec: OperPrec) -> (r: bool)
        ensures
            r == (prec_level(min_prec) < prec_level(token_prec(self.lookahead()))
                && !(self.lookahead() is Eof)),
    {
        let prec_ok = min_prec.level() < self.current_token.get_oper_prec().level();
        let at_end = match &self.current_token {
            Token::Eof => true,
            _ => false,
        };
        prec_ok && !at_end
    }

    /// A whole precedence climb from threshold `oper_prec`: one primary
    /// operand, then fold every following operator that binds strictly
    /// tighter than the threshold.
    fn generate_ast(&mut self, oper_prec: OperPrec) -> (r: Result<Node, ParseError>)
        ensures
            final(self).text() == old(self).text(),
            final(self).measure() <= old(self).measure(),
            forall|fuel: nat|
                fuel >= 4 * old(self).measure() + 4 ==> #[trigger] sp_generate_ast(
                    old(self).text(),
                    old(self).position(),
                    old(self).lookahead(),
                    oper_prec,
                    fuel,
                ) == Some(step_result(r, *final(self))),
        decreases old(self).measure(), 1int,
    {
        proof {
            use_type_invariant(&self.tokenizer);
        }
        let ghost s0 = self.text();
        let ghost pos0 = self.position();
        let ghost cur0 = self.lookahead();
        let ghost m0 = self.measure();
        let mut left_expr = match self.parse_number() {
            Ok(n) => n,
            Err(e) => {
                proof {
                    assert forall|fuelg: nat| fuelg >= 4 * m0 + 4 implies #[trigger] sp_generate_ast(
                        s0,
                        pos0,
                        cur0,
                        oper_prec,
                        fuelg,
                    ) == Some(Err::<(NodeView, int, TokenView), ErrView>(e@)) by {
                        let fp: nat = (fuelg - 1) as nat;
                        assert(fp >= 4 * m0 + 3);
                        assert(sp_parse_number(s0, pos0, cur0, fp) == Some(
                            Err::<(NodeView, int, TokenView), ErrView>(e@),
                        ));
                    }
                }
                return Err(e);
            },
        };
        proof {
            use_type_invariant(&self.tokenizer);
        }
        let ghost pos1 = self.position();
        let ghost cur1 = self.lookahead();
        let ghost left0 = left_expr@;
        let ghost m1 = self.measure();
        let ghost mut g: nat = 0;
        let ghost mut t: int = 4 * m1 + 3;
        #[verifier::loop_isolation(false)]
        while self.should_fold(oper_prec)
            invariant
                self.text() == s0,
                0 <= self.measure(),
                g + self.measure() <= m1,
                4 * self.measure() + 3 <= t,
                t + g <= 4 * m1 + 3,
                forall|fuel: nat|
                    fuel >= t ==> #[trigger] sp_ast_loop(
                        s0,
                        self.position(),
                        self.lookahead(),
                        oper_prec,
                        left_expr@,
                        fuel,
                    ) == sp_ast_loop(s0, pos1, cur1, oper_prec, left0, (fuel + g) as nat),
            decreases self.measure(),
        {
            proof {
                use_type_invariant(&self.tokenizer);
            }
            let ghost pos_i = self.position();
            let ghost cur_i = self.lookahead();
            let ghost left_i = left_expr@;
            let ghost m_i = self.measure();
            let right = match self.convert_token_to_node(left_expr) {
                Ok(n) => n,
                Err(e) => {
                    proof {
                        assert forall|fuelg: nat| fuelg >= 4 * m0 + 4 implies #[trigger] sp_generate_ast(
                            s0,
                            pos0,
                            cur0,
                            oper_prec,
                            fuelg,
                        ) == Some(Err::<(NodeView, int, TokenView), ErrView>(e@)) by {
                            let fp: nat = (fuelg - 1) as nat;
                            assert(sp_parse_number(s0, pos0, cur0, fp) == Some(
                                Ok::<(NodeView, int, TokenView), ErrView>((left0, pos1, cur1)),
                            ));
                            let f: nat = (fuelg - 1 - g) as nat;
                            assert(f >= t);
                            assert(sp_ast_loop(s0, pos_i, cur_i, oper_prec, left_i, f)
                                == sp_ast_loop(s0, pos1, cur1, oper_prec, left0, (f + g) as nat));
                            assert((f + g) as nat == fp);
                            let fc: nat = (f - 1) as nat;
                            assert(fc >= 4 * m_i + 2);
                            assert(sp_convert(s0, pos_i, cur_i, left_i, fc) == Some(
                                Err::<(NodeView, int, TokenView), ErrView>(e@),
                            ));
                        }
                    }
                    return Err(e);
                },
            };
            left_expr = right;
            proof {
                use_type_invariant(&self.tokenizer);
                let m_n = self.measure();
                let t_new: int = if t - 1 >= 4 * m_n + 3 {
                    t - 1
                } else {
                    4 * m_n + 3
                };
                assert forall|fuel: nat| fuel >= t_new implies #[trigger] sp_ast_loop(
                    s0,
                    self.position(),
                    self.lookahead(),
                    oper_prec,
                    left_expr@,
                    fuel,
                ) == sp_ast_loop(s0, pos1, cur1, oper_prec, left0, ((fuel + g) + 1) as nat) by {
                    let f1: nat = (fuel + 1) as nat;
                    assert(f1 >= t);
                    assert(sp_ast_loop(s0, pos_i, cur_i, oper_prec, left_i, f1) == sp_ast_loop(
                        s0,
                        pos1,
                        cur1,
                        oper_prec,
                        left0,
                        (f1 + g) as nat,
                    ));
                    assert(sp_convert(s0, pos_i, cur_i, left_i, fuel) == Some(
                        Ok::<(NodeView, int, TokenView), ErrView>(
                            (left_expr@, self.position(), self.lookahead()),
                        ),
                    ));
                    assert(sp_ast_loop(s0, pos_i, cur_i, oper_prec, left_i, f1) == sp_ast_loop(
                        s0,
                        self.position(),
                        self.lookahead(),
                        oper_prec,
                        left_expr@,
                        fuel,
                    ));
                    assert(((fuel + g) + 1) as nat == (f1 + g) as nat);
                }
                g = g + 1;
                t = t_new;
            }
        }
        proof {
            assert forall|fuelg: nat| fuelg >= 4 * m0 + 4 implies #[trigger] sp_generate_ast(
                s0,
                pos0,
                cur0,
                oper_prec,
                fuelg,
            ) == Some(
                Ok::<(NodeView, int, TokenView), ErrView>(
                    (left_expr@, self.position(), self.lookahead()),
                ),
            ) by {
                let fp: nat = (fuelg - 1) as nat;
                assert(sp_parse_number(s0, pos0, cur0, fp) == Some(
                    Ok::<(NodeView, int, TokenView), ErrView>((left0, pos1, cur1)),
                ));
                let f: nat = (fp - g) as nat;
                assert(f >= t);
                assert(sp_ast_loop(s0, self.position(), self.lookahead(), oper_prec, left_expr@, f)
                    == sp_ast_loop(s0, pos1, cur1, oper_prec, left0, (f + g) as nat));
                assert((f + g) as nat == fp);
                assert(sp_ast_loop(s0, self.position(), self.lookahead(), oper_prec, left_expr@, f)
                    == Some(
                    Ok::<(NodeView, int, TokenView), ErrView>(
                        (left_expr@, self.position(), self.lookahead()),
                    ),
                ));
            }
        }
        Ok(left_expr)
    }

    /// Parse one expression from the current state, climbing from the
    /// loosest threshold.
    pub fn parse(&mut self) -> (r: Result<Node, ParseError>)
        ensures
            final(self).text() == old(self).text(),
            forall|fuel: nat|
                fuel >= 4 * old(self).measure() + 4 ==> #[trigger] sp_generate_ast(
                    old(self).text(),
                    old(self).position(),
                    old(self).lookahead(),
                    OperPrec::DefaultZero,
                    fuel,
                ) == Some(step_result(r, *final(self))),
    {
        let ast = self.generate_ast(OperPrec::DefaultZero);
        match ast {
            Ok(ast) => Ok(ast),
            Err(e) => Err(e),
        }
    }
}

/// Tokenize, parse and hand back the syntax tree of one whole expression
/// string, exactly as the parsing relation `sp_parse` describes it.
pub fn parse_expression(expr: &str) -> (r: Result<Node, ParseError>)
    ensures
        match r {
            Ok(n) => sp_parse(expr@) == Ok::<NodeView, ErrView>(n@),
            Err(e) => sp_parse(expr@) == Err::<NodeView, ErrView>(e@),
        },
{
    let mut parser = match Parser::new(expr) {
        Ok(p) => p,
        Err(e) => return Err(e),
    };
    let ghost ppos = parser.position();
    let ghost pcur = parser.lookahead();
    let ghost pm = parser.measure();
    let r = parser.parse();
    proof {
        lemma_spec_next_bounds(expr@, 0);
        assert(pm <= expr@.len() + 1);
        assert(parse_fuel(expr@) >= 4 * pm + 4);
        assert(sp_generate_ast(expr@, ppos, pcur, OperPrec::DefaultZero, parse_fuel(expr@))
            == Some(step_result(r, parser)));
    }
    r
}

/// Parsing is deterministic: any two outcomes that the parsing relation
/// assigns to the same text are the same outcome, so evaluating one
/// expression string twice yields identical results.
pub proof fn lemma_parse_deterministic(
    s: Seq<char>,
    r1: Result<NodeView, ErrView>,
    r2: Result<NodeView, ErrView>,
)
    requires
        r1 == sp_parse(s),
        r2 == sp_parse(s),
    ensures
        r1 == r2,
{
}

} // verus!
