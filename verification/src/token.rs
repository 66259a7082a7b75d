//! Tokens: the smallest lexical units of an arithmetic expression.

use vstd::prelude::*;
use vstd::string::StringExecFns;
use crate::text::characters;

verus! {

/// Whether `c` is one of the ten decimal digits.
pub open spec fn is_digit(c: char) -> bool {
    '0' <= c <= '9'
}

/// A decimal numeral: it starts with a digit, holds nothing but digits and
/// points, and holds at most one point.
pub open spec fn is_numeral(s: Seq<char>) -> bool {
    &&& s.len() > 0
    &&& is_digit(s[0])
    &&& forall|i: int| 0 <= i < s.len() ==> is_digit(#[trigger] s[i]) || s[i] == '.'
    &&& forall|i: int, j: int|
        0 <= i < j < s.len() && #[trigger] s[i] == '.' ==> #[trigger] s[j] != '.'
}

/// Executable test for a decimal digit.
pub fn digit(c: char) -> (r: bool)
    ensures
        r == is_digit(c),
{
    '0' <= c && c <= '9'
}

/// A numeric literal, kept exactly as it was written. Every value of this
/// type is a decimal numeral.
#[derive(Debug, PartialEq, Eq)]
pub struct Literal {
    text: String,
}

impl View for Literal {
    type V = Seq<char>;

    closed spec fn view(&self) -> Seq<char> {
        self.text@
    }
}

impl Clone for Literal {
    fn clone(&self) -> (r: Self)
        ensures
            r@ == self@,
    {
        proof {
            use_type_invariant(self);
        }
        Literal { text: self.text.clone() }
    }
}

impl Literal {
    #[verifier::type_invariant]
    spec fn well_formed(self) -> bool {
        is_numeral(self.text@)
    }

    /// Wraps text that is known to be a numeral.
    pub(crate) fn from_numeral(text: String) -> (r: Self)
        requires
            is_numeral(text@),
        ensures
            r@ == text@,
    {
        Literal { text }
    }

    /// The literal with the given text, if that text is a decimal numeral.
    pub fn new(text: &str) -> (r: Option<Self>)
        ensures
            (match r {
                Some(literal) => literal@ == text@ && is_numeral(text@),
                None => !is_numeral(text@),
            }),
    {
        let chars = characters(text);
        if chars.len() == 0 || !digit(chars[0]) {
            return None;
        }
        let mut pointed = false;
        let mut i: usize = 1;
        while i < chars.len()
            invariant
                1 <= i <= chars.len(),
                chars@ == text@,
                is_digit(chars@[0]),
                forall|k: int| 0 <= k < i ==> is_digit(#[trigger] chars@[k]) || chars@[k] == '.',
                forall|k: int, l: int|
                    0 <= k < l < i && #[trigger] chars@[k] == '.' ==> #[trigger] chars@[l] != '.',
                pointed <==> exists|k: int| 0 <= k < i && chars@[k] == '.',
            decreases chars.len() - i,
        {
            let c = chars[i];
            if c == '.' {
                if pointed {
                    proof {
                        let k = choose|k: int| 0 <= k < i && chars@[k] == '.';
                        assert(chars@[k] == '.' && chars@[i as int] == '.');
                    }
                    return None;
                }
                pointed = true;
            } else if !digit(c) {
                assert(!(is_digit(chars@[i as int]) || chars@[i as int] == '.'));
                return None;
            }
            i += 1;
        }
        Some(Literal { text: text.to_owned() })
    }

    /// The text of the literal.
    pub fn as_str(&self) -> (s: &str)
        ensures
            s@ == self@,
            is_numeral(s@),
    {
        proof {
            use_type_invariant(self);
        }
        self.text.as_str()
    }
}

/// The binary operators that the grammar accepts.
#[derive(Debug, Clone, Copy, PartialEq, Eq, Structural)]
pub enum Operator {
    /// `+`
    Add,
    /// `-`
    Sub,
    /// `*`
    Mul,
    /// `/`
    Div,
}

/// A token as the scanner hands it out.
#[derive(Debug, PartialEq, Eq)]
pub enum Token {
    /// `+`, addition
    Add,
    /// `*`, multiplication
    Mul,
    /// `/`, division
    Div,
    /// `-`, subtraction
    Sub,
    /// `^`, exponentiation
    Exp,
    /// `(`
    OpenParen,
    /// `)`
    CloseParen,
    /// A number, as written
    Num(Literal),
    /// A character that belongs to no token
    Invalid,
}

/// The mathematical value of a [`Token`]: the same variants, with the text of
/// a number as a sequence of characters.
pub enum SpecToken {
    Add,
    Mul,
    Div,
    Sub,
    Exp,
    OpenParen,
    CloseParen,
    Num(Seq<char>),
    Invalid,
}

impl SpecToken {
    /// The operator that this token stands for, if it stands for one.
    pub open spec fn operator(self) -> Option<Operator> {
        match self {
            SpecToken::Add => Some(Operator::Add),
            SpecToken::Sub => Some(Operator::Sub),
            SpecToken::Mul => Some(Operator::Mul),
            SpecToken::Div => Some(Operator::Div),
            _ => None,
        }
    }

    /// The token's name, with the text of a number in brackets behind it.
    pub open spec fn name(self) -> Seq<char> {
        match self {
            SpecToken::Add => "Add"@,
            SpecToken::Mul => "Mul"@,
            SpecToken::Div => "Div"@,
            SpecToken::Sub => "Sub"@,
            SpecToken::Exp => "Exp"@,
            SpecToken::OpenParen => "OpenParen"@,
            SpecToken::CloseParen => "CloseParen"@,
            SpecToken::Num(text) => "Num("@ + text + ")"@,
            SpecToken::Invalid => "Invalid"@,
        }
    }
}

impl View for Token {
    type V = SpecToken;

    open spec fn view(&self) -> SpecToken {
        match self {
            Token::Add => SpecToken::Add,
            Token::Mul => SpecToken::Mul,
            Token::Div => SpecToken::Div,
            Token::Sub => SpecToken::Sub,
            Token::Exp => SpecToken::Exp,
            Token::OpenParen => SpecToken::OpenParen,
            Token::CloseParen => SpecToken::CloseParen,
            Token::Num(literal) => SpecToken::Num(literal@),
            Token::Invalid => SpecToken::Invalid,
        }
    }
}

impl Clone for Token {
    fn clone(&self) -> (r: Self)
        ensures
            r@ == self@,
    {
        match self {
            Token::Add => Token::Add,
            Token::Mul => Token::Mul,
            Token::Div => Token::Div,
            Token::Sub => Token::Sub,
            Token::Exp => Token::Exp,
            Token::OpenParen => Token::OpenParen,
            Token::CloseParen => Token::CloseParen,
            Token::Num(literal) => Token::Num(literal.clone()),
            Token::Invalid => Token::Invalid,
        }
    }
}

impl Token {
    /// The operator that this token stands for: `Some` for `+ - * /` alone.
    pub fn operator(&self) -> (r: Option<Operator>)
        ensures
            r == self@.operator(),
    {
        match self {
            Token::Add => Some(Operator::Add),
            Token::Sub => Some(Operator::Sub),
            Token::Mul => Some(Operator::Mul),
            Token::Div => Some(Operator::Div),
            _ => None,
        }
    }

    /// The token's name, with the text of a number in brackets behind it.
    pub fn name(&self) -> (r: String)
        ensures
            r@ == self@.name(),
    {
        match self {
            Token::Add => String::from_str("Add"),
            Token::Mul => String::from_str("Mul"),
            Token::Div => String::from_str("Div"),
            Token::Sub => String::from_str("Sub"),
            Token::Exp => String::from_str("Exp"),
            Token::OpenParen => String::from_str("OpenParen"),
            Token::CloseParen => String::from_str("CloseParen"),
            Token::Num(literal) => {
                let mut r = String::from_str("Num(");
                r.append(literal.as_str());
                r.append(")");
                r
            },
            Token::Invalid => String::from_str("Invalid"),
        }
    }
}

} // verus!
