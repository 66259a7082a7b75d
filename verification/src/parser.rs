//! The tree builder: checks a token sequence against the grammar and builds
//! the expression tree.
//!
//! The grammar is a flat chain, `Number (BinOp Number)+`, with no precedence
//! and no grouping. The tree nests to the right: in `a - b + c` the root is
//! `-`, its left child is `a`, and its right child is the tree of `b + c`.

use vstd::prelude::*;
use vstd::string::StringExecFns;
use crate::ast::{branch, evaluable, leaf, well_formed, Node, NodeKind, SpecNode, AST};
use crate::token::{SpecToken, Token};
use crate::tokenizer::{lemma_scan_progress, tokens, Tokenizer};

verus! {

/// Why an expression was refused. Each variant carries a message.
#[derive(Debug)]
pub enum ParseError {
    /// A token that does not fit the grammar stands where an operator or an
    /// operand is due.
    InvalidOperator(String),
    /// Kept for grouping with parentheses; the builder never returns it.
    MismatchedParen(String),
    /// The input is empty, or does not start with a number.
    InvalidStart(String),
    /// The input ends where the grammar asks for more.
    Incomplete(String),
}

/// The mathematical value of a [`ParseError`].
pub enum SpecParseError {
    InvalidOperator(Seq<char>),
    MismatchedParen(Seq<char>),
    InvalidStart(Seq<char>),
    Incomplete(Seq<char>),
}

impl View for ParseError {
    type V = SpecParseError;

    open spec fn view(&self) -> SpecParseError {
        match self {
            ParseError::InvalidOperator(message) => SpecParseError::InvalidOperator(message@),
            ParseError::MismatchedParen(message) => SpecParseError::MismatchedParen(message@),
            ParseError::InvalidStart(message) => SpecParseError::InvalidStart(message@),
            ParseError::Incomplete(message) => SpecParseError::Incomplete(message@),
        }
    }
}

/// The kind of node that a token makes: an operator node for `+ - * /`, an
/// operand for a number, and no valid node for anything else.
pub open spec fn kind_of(token: SpecToken) -> NodeKind {
    if token.operator() is Some {
        NodeKind::BinOp
    } else if token is Num {
        NodeKind::Operand
    } else {
        NodeKind::Invalid
    }
}

/// The error for an input that is empty or starts with an invalid character.
pub open spec fn illegal_start() -> SpecParseError {
    SpecParseError::InvalidStart("Illegal character detected. Unable to parse."@)
}

/// The error for an input that does not start with a number.
pub open spec fn invalid_start() -> SpecParseError {
    SpecParseError::InvalidStart("Invalid Start"@)
}

/// The error for an input that ends where a token is due.
pub open spec fn too_short() -> SpecParseError {
    SpecParseError::Incomplete("Expression too short"@)
}

/// The error for a second token that is no operator.
pub open spec fn invalid_operator() -> SpecParseError {
    SpecParseError::InvalidOperator("Invalid Operator"@)
}

/// The error for a later token that does not fit where it stands.
pub open spec fn misplaced(token: SpecToken) -> SpecParseError {
    SpecParseError::InvalidOperator("Invalid token kind "@ + token.name())
}

/// The tree of the chain `Number (BinOp Number)*` that `ts` spells out, or
/// the error at the first token that breaks the chain.
pub open spec fn chain(ts: Seq<SpecToken>) -> Result<SpecNode, SpecParseError>
    decreases ts.len(),
{
    if ts.len() == 0 {
        Err(too_short())
    } else if !(ts[0] is Num) {
        Err(misplaced(ts[0]))
    } else if ts.len() == 1 {
        Ok(leaf(ts[0]))
    } else if kind_of(ts[1]) == NodeKind::BinOp {
        match chain(ts.skip(2)) {
            Ok(right) => Ok(branch(ts[1], leaf(ts[0]), right)),
            Err(error) => Err(error),
        }
    } else {
        Err(misplaced(ts[1]))
    }
}

/// The tree of the expression that starts with the token `first` and goes
/// on with `rest`: a number, an operator, and a chain.
pub open spec fn expression(first: SpecToken, rest: Seq<SpecToken>) -> Result<
    SpecNode,
    SpecParseError,
> {
    if kind_of(first) != NodeKind::Operand {
        Err(invalid_start())
    } else if rest.len() == 0 {
        Err(too_short())
    } else if kind_of(rest[0]) != NodeKind::BinOp {
        Err(invalid_operator())
    } else {
        match chain(rest.drop_first()) {
            Ok(right) => Ok(branch(rest[0], leaf(first), right)),
            Err(error) => Err(error),
        }
    }
}

/// What building the tree of the text `s` comes to.
pub open spec fn parse_text(s: Seq<char>) -> Result<SpecNode, SpecParseError> {
    let ts = tokens(s);
    if ts.len() == 0 || ts[0] is Invalid {
        Err(illegal_start())
    } else {
        expression(ts[0], ts.drop_first())
    }
}

/// Whether the tokens take turns: a number first, then an operator and a
/// number, any number of times.
pub open spec fn alternates(ts: Seq<SpecToken>) -> bool {
    &&& ts.len() % 2 == 1
    &&& forall|i: int|
        0 <= i < ts.len() ==> kind_of(#[trigger] ts[i]) == if i % 2 == 0 {
            NodeKind::Operand
        } else {
            NodeKind::BinOp
        }
}

/// A chain is built from exactly the token sequences that take turns. The
/// tree that is built is well formed and has a value; the error, where none
/// is built, is never `MismatchedParen`.
pub proof fn lemma_chain(ts: Seq<SpecToken>)
    ensures
        chain(ts) is Ok <==> alternates(ts),
        chain(ts) matches Ok(tree) ==> well_formed(tree) && evaluable(tree),
        chain(ts) matches Err(error) ==> !(error is MismatchedParen),
    decreases ts.len(),
{
    if ts.len() >= 2 && ts[0] is Num && kind_of(ts[1]) == NodeKind::BinOp {
        let rest = ts.skip(2);
        lemma_chain(rest);
        if alternates(rest) {
            assert forall|i: int| 0 <= i < ts.len() implies kind_of(#[trigger] ts[i]) == if i % 2
                == 0 {
                NodeKind::Operand
            } else {
                NodeKind::BinOp
            } by {
                if i >= 2 {
                    assert(ts[i] == rest[i - 2]);
                }
            }
        }
        if alternates(ts) {
            assert forall|i: int| 0 <= i < rest.len() implies kind_of(#[trigger] rest[i]) == if i
                % 2 == 0 {
                NodeKind::Operand
            } else {
                NodeKind::BinOp
            } by {
                assert(rest[i] == ts[i + 2]);
            }
        }
        if chain(ts) matches Ok(tree) {
            assert(well_formed(leaf(ts[0])));
            assert(evaluable(leaf(ts[0])));
        }
    } else if ts.len() >= 2 {
        if ts[0] is Num {
            assert(kind_of(ts[1]) != NodeKind::BinOp);
        } else {
            assert(kind_of(ts[0]) != NodeKind::Operand);
        }
    } else if ts.len() == 1 {
        assert(kind_of(ts[0]) == NodeKind::Operand <==> ts[0] is Num);
    }
}

/// A text is built into a tree exactly if its tokens take turns and hold an
/// operator: no text with a parenthesis, a `^` or an unrecognized character
/// is. The tree that is built is well formed and has a value; the error,
/// where none is built, is never `MismatchedParen`.
pub proof fn lemma_parse_text(s: Seq<char>)
    ensures
        parse_text(s) is Ok <==> alternates(tokens(s)) && tokens(s).len() >= 3,
        parse_text(s) matches Ok(tree) ==> well_formed(tree) && evaluable(tree),
        parse_text(s) matches Err(error) ==> !(error is MismatchedParen),
{
    let ts = tokens(s);
    if ts.len() > 0 {
        lemma_expression(ts[0], ts.drop_first());
        assert(seq![ts[0]] + ts.drop_first() =~= ts);
    }
}

/// An expression is built from exactly the token sequences that take turns
/// and hold an operator. The tree that is built is well formed and has a
/// value; the error, where none is built, is never `MismatchedParen`.
pub proof fn lemma_expression(first: SpecToken, rest: Seq<SpecToken>)
    ensures
        expression(first, rest) is Ok <==> alternates(seq![first] + rest) && rest.len() >= 2,
        expression(first, rest) matches Ok(tree) ==> well_formed(tree) && evaluable(tree),
        expression(first, rest) matches Err(error) ==> !(error is MismatchedParen),
{
    let ts = seq![first] + rest;
    assert(ts[0] == first);
    if rest.len() > 0 {
        assert(ts[1] == rest[0]);
        let tail = rest.drop_first();
        assert(ts.skip(2) =~= tail);
        lemma_chain(tail);
        lemma_chain(ts);
        if kind_of(first) == NodeKind::Operand && kind_of(rest[0]) == NodeKind::BinOp {
            assert(well_formed(leaf(first)));
            assert(evaluable(leaf(first)));
            assert(chain(ts) is Ok <==> chain(tail) is Ok);
            if alternates(ts) {
                assert(tail.len() >= 1);
            }
        } else {
            if kind_of(first) == NodeKind::Operand {
                assert(kind_of(ts[1]) != NodeKind::BinOp);
            }
        }
    } else {
        assert(ts.len() == 1);
    }
}

/// Whether the outcome of a tree-building step stands for `expected`.
pub open spec fn built<T: View<V = SpecNode>>(
    r: Result<T, ParseError>,
    expected: Result<SpecNode, SpecParseError>,
) -> bool {
    match r {
        Ok(tree) => expected == Ok::<SpecNode, SpecParseError>(tree@),
        Err(error) => expected == Err::<SpecNode, SpecParseError>(error@),
    }
}

/// A builder for one expression. It is made with the first token read, and
/// builds its tree once.
pub struct Parser {
    token_stream: Tokenizer,
    cursor: Option<Token>,
}

impl Parser {
    /// The first token of the expression, until [`Parser::parse`] has taken it.
    pub closed spec fn cursor(&self) -> Option<SpecToken> {
        match self.cursor {
            Some(token) => Some(token@),
            None => None,
        }
    }

    /// The tokens that have not been read yet.
    pub closed spec fn pending(&self) -> Seq<SpecToken> {
        tokens(self.token_stream@)
    }

    /// A builder for `expr`, with its first token read. Fails if there is no
    /// token, or if the first one is invalid.
    pub fn new(expr: &str) -> (r: Result<Self, ParseError>)
        ensures
            (match r {
                Ok(parser) => {
                    &&& tokens(expr@).len() > 0
                    &&& !(tokens(expr@)[0] is Invalid)
                    &&& parser.cursor() == Some(tokens(expr@)[0])
                    &&& parser.pending() == tokens(expr@).drop_first()
                },
                Err(error) => {
                    &&& tokens(expr@).len() == 0 || tokens(expr@)[0] is Invalid
                    &&& error@ == illegal_start()
                },
            }),
    {
        let mut token_stream = Tokenizer::new(expr);
        let first = token_stream.next();
        match first {
            None | Some(Token::Invalid) => Err(
                ParseError::InvalidStart(
                    String::from_str("Illegal character detected. Unable to parse."),
                ),
            ),
            Some(token) => {
                assert(tokens(expr@).drop_first() =~= tokens(token_stream@));
                Ok(Parser { token_stream, cursor: Some(token) })
            },
        }
    }

    /// Builds the tree of the expression. A builder does this once: the call
    /// takes the first token out of it, and a builder without its first token
    /// fails with `InvalidStart`.
    pub fn parse(&mut self) -> (r: Result<AST, ParseError>)
        ensures
            (match old(self).cursor() {
                Some(first) => built(r, expression(first, old(self).pending())),
                None => built(r, Err(invalid_start())),
            }),
            r matches Ok(ast) ==> well_formed(ast@) && evaluable(ast@),
            !(r matches Err(ParseError::MismatchedParen(_))),
            final(self).cursor() is None,
    {
        proof {
            if old(self).cursor() is Some {
                lemma_expression(old(self).cursor()->0, old(self).pending());
            }
        }
        let first = match self.cursor.take() {
            Some(token) => token,
            None => {
                return Err(ParseError::InvalidStart(String::from_str("Invalid Start")));
            },
        };
        if Self::get_kind(&first) != NodeKind::Operand {
            return Err(ParseError::InvalidStart(String::from_str("Invalid Start")));
        }
        let left_child = Self::leaf_node(first);
        let ghost rest = tokens(self.token_stream@);
        match self.token_stream.next() {
            Some(token) => {
                if Self::get_kind(&token) == NodeKind::BinOp {
                    assert(rest.drop_first() =~= tokens(self.token_stream@));
                    match Self::gen_ast(&mut self.token_stream) {
                        Ok(right_child) => Ok(
                            AST { root: Self::branch_node(token, left_child, right_child) },
                        ),
                        Err(error) => Err(error),
                    }
                } else {
                    Err(ParseError::InvalidOperator(String::from_str("Invalid Operator")))
                }
            },
            None => Err(ParseError::Incomplete(String::from_str("Expression too short"))),
        }
    }

    /// Builds the tree of the chain that the scanner has still to hand out.
    fn gen_ast(token_stream: &mut Tokenizer) -> (r: Result<Box<Node>, ParseError>)
        ensures
            built(r, chain(tokens(old(token_stream)@))),
        decreases old(token_stream)@.len(),
    {
        let ghost input = token_stream@;
        let ghost ts = tokens(input);
        proof {
            lemma_scan_progress(input);
        }
        let token = match token_stream.next() {
            Some(token) => token,
            None => {
                return Err(ParseError::Incomplete(String::from_str("Expression too short")));
            },
        };
        let ghost after_first = token_stream@;
        proof {
            lemma_scan_progress(after_first);
            assert(ts.drop_first() =~= tokens(after_first));
        }
        if let Token::Num(_) = token {
            match token_stream.next() {
                None => Ok(Self::leaf_node(token)),
                Some(next_token) => {
                    assert(ts.skip(2) =~= tokens(token_stream@));
                    if Self::get_kind(&next_token) == NodeKind::BinOp {
                        let left = Self::leaf_node(token);
                        match Self::gen_ast(token_stream) {
                            Ok(right) => Ok(Self::branch_node(next_token, left, right)),
                            Err(error) => Err(error),
                        }
                    } else {
                        Err(Self::misplaced_token(&next_token))
                    }
                },
            }
        } else {
            Err(Self::misplaced_token(&token))
        }
    }

    /// A leaf that holds `token`.
    fn leaf_node(token: Token) -> (r: Box<Node>)
        ensures
            r@ == leaf(token@),
    {
        Box::new(Node::new(NodeKind::Operand, token, None, None))
    }

    /// An operator node that holds `token`, over two subtrees.
    fn branch_node(token: Token, left: Box<Node>, right: Box<Node>) -> (r: Box<Node>)
        ensures
            r@ == branch(token@, left@, right@),
    {
        Box::new(Node::new(NodeKind::BinOp, token, Some(left), Some(right)))
    }

    /// The error for a token that does not fit where it stands.
    fn misplaced_token(token: &Token) -> (r: ParseError)
        ensures
            r@ == misplaced(token@),
    {
        let mut message = String::from_str("Invalid token kind ");
        let name = token.name();
        message.append(name.as_str());
        ParseError::InvalidOperator(message)
    }

    /// The kind of node that a token makes.
    pub fn get_kind(token: &Token) -> (r: NodeKind)
        ensures
            r == kind_of(token@),
    {
        match token {
            Token::Add | Token::Sub | Token::Mul | Token::Div => NodeKind::BinOp,
            Token::Num(_) => NodeKind::Operand,
            _ => NodeKind::Invalid,
        }
    }
}

} // verus!
