//! The scanner: reads an expression character by character and hands out
//! one token per call. Spaces between tokens are skipped.

use vstd::prelude::*;
use crate::text::characters;
use crate::token::{digit, is_digit, is_numeral, Literal, SpecToken};
pub use crate::token::Token;

verus! {

/// How many spaces `s` starts with.
pub open spec fn leading_spaces(s: Seq<char>) -> nat
    decreases s.len(),
{
    if s.len() > 0 && s[0] == ' ' {
        1 + leading_spaces(s.drop_first())
    } else {
        0
    }
}

/// How many characters at the start of `s` carry a numeral on: digits, and a
/// single point unless the numeral has one already (`pointed`).
pub open spec fn numeral_tail(s: Seq<char>, pointed: bool) -> nat
    decreases s.len(),
{
    if s.len() == 0 {
        0
    } else if is_digit(s[0]) {
        1 + numeral_tail(s.drop_first(), pointed)
    } else if s[0] == '.' && !pointed {
        1 + numeral_tail(s.drop_first(), true)
    } else {
        0
    }
}

/// The token that the single character `c` stands for, where `c` is neither
/// a space nor a digit.
pub open spec fn symbol(c: char) -> SpecToken {
    if c == '+' {
        SpecToken::Add
    } else if c == '-' {
        SpecToken::Sub
    } else if c == '*' {
        SpecToken::Mul
    } else if c == '/' {
        SpecToken::Div
    } else if c == '^' {
        SpecToken::Exp
    } else if c == '(' {
        SpecToken::OpenParen
    } else if c == ')' {
        SpecToken::CloseParen
    } else {
        SpecToken::Invalid
    }
}

/// The outcome of one scanning step.
pub struct Step {
    /// The token found, or `None` at the end of the input.
    pub token: Option<SpecToken>,
    /// How many characters the step has read, spaces included.
    pub used: nat,
}

/// One scanning step on the input `s`: leading spaces are skipped; a digit
/// starts a number, which runs on over digits and one point; any other
/// character is a token by itself.
pub open spec fn scan(s: Seq<char>) -> Step {
    let start = leading_spaces(s) as int;
    if start >= s.len() {
        Step { token: None, used: s.len() }
    } else if is_digit(s[start]) {
        let end = start + 1 + numeral_tail(s.skip(start + 1), false);
        Step { token: Some(SpecToken::Num(s.subrange(start, end))), used: end as nat }
    } else {
        Step { token: Some(symbol(s[start])), used: (start + 1) as nat }
    }
}

/// All the tokens of the input `s`, in order.
pub open spec fn tokens(s: Seq<char>) -> Seq<SpecToken>
    decreases s.len(),
    via tokens_decreases
{
    match scan(s).token {
        None => Seq::empty(),
        Some(token) => seq![token] + tokens(s.skip(scan(s).used as int)),
    }
}

#[via_fn]
proof fn tokens_decreases(s: Seq<char>) {
    lemma_scan_progress(s);
}

/// Leading spaces are spaces, they end before the end of the input or at it,
/// and the character behind them is no space.
pub proof fn lemma_leading_spaces(s: Seq<char>)
    ensures
        leading_spaces(s) <= s.len(),
        forall|i: int| 0 <= i < leading_spaces(s) ==> s[i] == ' ',
        leading_spaces(s) < s.len() ==> s[leading_spaces(s) as int] != ' ',
    decreases s.len(),
{
    if s.len() > 0 && s[0] == ' ' {
        let rest = s.drop_first();
        lemma_leading_spaces(rest);
        assert forall|i: int| 0 <= i < leading_spaces(s) implies s[i] == ' ' by {
            if i > 0 {
                assert(s[i] == rest[i - 1]);
            }
        }
        if leading_spaces(s) < s.len() {
            assert(s[leading_spaces(s) as int] == rest[leading_spaces(rest) as int]);
        }
    }
}

/// What carries a numeral on stays inside the input and is made of digits
/// and points: no point after one that the numeral has already, and one
/// point at most otherwise. The character behind it carries the numeral on
/// no further.
pub proof fn lemma_numeral_tail(s: Seq<char>, pointed: bool)
    ensures
        numeral_tail(s, pointed) <= s.len(),
        forall|i: int|
            0 <= i < numeral_tail(s, pointed) ==> is_digit(#[trigger] s[i]) || s[i] == '.',
        pointed ==> forall|i: int| 0 <= i < numeral_tail(s, pointed) ==> #[trigger] s[i] != '.',
        forall|i: int, j: int|
            0 <= i < j < numeral_tail(s, pointed) && #[trigger] s[i] == '.' ==> #[trigger] s[j]
                != '.',
        numeral_tail(s, pointed) < s.len() ==> ({
            let end = numeral_tail(s, pointed) as int;
            &&& !is_digit(s[end])
            &&& s[end] == '.' ==> pointed || exists|i: int| 0 <= i < end && s[i] == '.'
        }),
    decreases s.len(),
{
    if s.len() > 0 && (is_digit(s[0]) || (s[0] == '.' && !pointed)) {
        let rest = s.drop_first();
        let then_pointed = pointed || s[0] == '.';
        lemma_numeral_tail(rest, then_pointed);
        let end = numeral_tail(s, pointed) as int;
        assert(end == 1 + numeral_tail(rest, then_pointed));
        assert forall|i: int| 0 <= i < end implies is_digit(#[trigger] s[i]) || s[i] == '.' by {
            if i > 0 {
                assert(s[i] == rest[i - 1]);
            }
        }
        if pointed {
            assert forall|i: int| 0 <= i < end implies #[trigger] s[i] != '.' by {
                if i > 0 {
                    assert(s[i] == rest[i - 1]);
                }
            }
        }
        assert forall|i: int, j: int| 0 <= i < j < end && #[trigger] s[i] == '.' implies #[trigger] s[j]
            != '.' by {
            assert(s[j] == rest[j - 1]);
            if i > 0 {
                assert(s[i] == rest[i - 1]);
            }
        }
        if end < s.len() {
            assert(s[end] == rest[end - 1]);
            if s[end] == '.' && !pointed {
                if s[0] == '.' {
                    assert(0 <= 0 < end && s[0] == '.');
                } else {
                    let i = choose|i: int| 0 <= i < end - 1 && rest[i] == '.';
                    assert(s[i + 1] == '.');
                }
            }
        }
    }
}

/// Every step reads no more than there is. A step that finds a token reads
/// at least one character; a step that finds none reads all that is left,
/// so that every later step finds none either.
pub proof fn lemma_scan_progress(s: Seq<char>)
    ensures
        scan(s).used <= s.len(),
        scan(s).token is Some ==> scan(s).used > 0,
        scan(s).token is None ==> scan(s).used == s.len(),
        scan(s).token is None ==> scan(s.skip(scan(s).used as int)).token is None,
{
    lemma_leading_spaces(s);
    let start = leading_spaces(s) as int;
    if start < s.len() {
        lemma_numeral_tail(s.skip(start + 1), false);
    }
}

/// Spaces in front of the input change no token.
pub proof fn lemma_spaces_are_skipped(spaces: Seq<char>, s: Seq<char>)
    requires
        forall|i: int| 0 <= i < spaces.len() ==> spaces[i] == ' ',
    ensures
        scan(spaces + s).token == scan(s).token,
        scan(spaces + s).used == spaces.len() + scan(s).used,
        tokens(spaces + s) == tokens(s),
    decreases spaces.len(),
{
    let padded = spaces + s;
    if spaces.len() == 0 {
        assert(padded =~= s);
    } else {
        let fewer = spaces.drop_first();
        assert(padded.drop_first() =~= fewer + s);
        lemma_spaces_are_skipped(fewer, s);
        let inner = fewer + s;
        let start = leading_spaces(padded) as int;
        assert(start == 1 + leading_spaces(inner));
        lemma_scan_progress(s);
        lemma_scan_progress(inner);
        lemma_scan_progress(padded);
        if start < padded.len() {
            assert(padded[start] == inner[start - 1]);
            assert(padded.skip(start + 1) =~= inner.skip(start));
            assert(scan(padded).used == 1 + scan(inner).used);
            if is_digit(padded[start]) {
                assert(padded.subrange(start, scan(padded).used as int) =~= inner.subrange(
                    start - 1,
                    scan(inner).used as int,
                ));
            }
        }
        assert(padded.skip(scan(padded).used as int) =~= inner.skip(scan(inner).used as int));
        assert(inner.skip(scan(inner).used as int) =~= s.skip(scan(s).used as int));
    }
}

/// The text of a number token is a decimal numeral, and the longest one that
/// starts where the token starts: with the next character of the input added,
/// it is a numeral no more.
pub proof fn lemma_scan_number(s: Seq<char>)
    ensures
        scan(s).token matches Some(SpecToken::Num(text)) ==> ({
            &&& is_numeral(text)
            &&& text == s.subrange(leading_spaces(s) as int, scan(s).used as int)
            &&& scan(s).used < s.len() ==> !is_numeral(text.push(s[scan(s).used as int]))
        }),
{
    lemma_leading_spaces(s);
    let start = leading_spaces(s) as int;
    if start < s.len() && is_digit(s[start]) {
        let tail = s.skip(start + 1);
        lemma_numeral_tail(tail, false);
        let end = scan(s).used as int;
        let text = s.subrange(start, end);
        assert forall|i: int| 0 <= i < text.len() implies is_digit(#[trigger] text[i]) || text[i]
            == '.' by {
            if i > 0 {
                assert(text[i] == tail[i - 1]);
            }
        }
        assert forall|i: int, j: int|
            0 <= i < j < text.len() && #[trigger] text[i] == '.' implies #[trigger] text[j]
            != '.' by {
            assert(text[j] == tail[j - 1]);
            assert(text[i] == tail[i - 1]);
        }
        if end < s.len() {
            let longer = text.push(s[end]);
            let last = longer.len() - 1;
            assert(longer[last] == s[end]);
            assert(s[end] == tail[end - start - 1]);
            if s[end] == '.' {
                let i = choose|i: int| 0 <= i < end - start - 1 && tail[i] == '.';
                assert(longer[i + 1] == '.');
                assert(longer[last] == '.');
            }
        }
    }
}

/// There are no more tokens than characters, and the text of every number
/// token is a decimal numeral.
pub proof fn lemma_tokens(s: Seq<char>)
    ensures
        tokens(s).len() <= s.len(),
        forall|i: int|
            0 <= i < tokens(s).len() ==> (#[trigger] tokens(s)[i] matches SpecToken::Num(text)
                ==> is_numeral(text)),
    decreases s.len(),
{
    lemma_scan_progress(s);
    lemma_scan_number(s);
    if scan(s).token is Some {
        let rest = s.skip(scan(s).used as int);
        lemma_tokens(rest);
        assert forall|i: int| 0 <= i < tokens(s).len() implies (#[trigger] tokens(s)[i] matches SpecToken::Num(
            text,
        ) ==> is_numeral(text)) by {
            if i > 0 {
                assert(tokens(s)[i] == tokens(rest)[i - 1]);
            }
        }
    }
}

/// A scanner over one expression. Each call of [`Tokenizer::next`] hands out
/// the next token; a scanner that has reached the end of its input stays there.
pub struct Tokenizer {
    expr: Vec<char>,
    pos: usize,
}

impl View for Tokenizer {
    type V = Seq<char>;

    /// The input that has not been read yet.
    closed spec fn view(&self) -> Seq<char> {
        self.expr@.skip(self.pos as int)
    }
}

impl Tokenizer {
    #[verifier::type_invariant]
    spec fn well_formed(self) -> bool {
        self.pos <= self.expr.len()
    }

    /// A scanner at the start of `s`.
    pub fn new(s: &str) -> (r: Self)
        ensures
            r@ == s@,
    {
        let expr = characters(s);
        assert(expr@.skip(0) =~= expr@);
        Tokenizer { expr, pos: 0 }
    }

    /// Reads one token and moves behind it. Returns `None` once nothing but
    /// spaces is left, and from then on.
    pub fn next(&mut self) -> (r: Option<Token>)
        ensures
            (match r {
                Some(token) => scan(old(self)@).token == Some(token@),
                None => scan(old(self)@).token is None,
            }),
            final(self)@ == old(self)@.skip(scan(old(self)@).used as int),
    {
        proof {
            use_type_invariant(&*self);
        }
        let ghost input = self@;
        let ghost whole = self.expr@;
        let ghost from = self.pos as int;
        let n = self.expr.len();
        let mut i = self.pos;
        while i < n && self.expr[i] == ' '
            invariant
                from <= i <= n,
                n == whole.len(),
                self.expr@ == whole,
                input == whole.skip(from),
                leading_spaces(input) == (i - from) + leading_spaces(whole.skip(i as int)),
            decreases n - i,
        {
            assert(whole.skip(i as int).drop_first() =~= whole.skip(i + 1));
            i += 1;
        }
        assert(leading_spaces(whole.skip(i as int)) == 0);
        if i >= n {
            self.pos = n;
            assert(whole.skip(n as int) =~= input.skip(input.len() as int));
            return None;
        }
        let c = self.expr[i];
        assert(c == input[i - from]);
        if digit(c) {
            let mut text = String::new();
            text.push(c);
            let mut pointed = false;
            let mut j = i + 1;
            while j < n && (digit(self.expr[j]) || (self.expr[j] == '.' && !pointed))
                invariant
                    from <= i < j <= n,
                    n == whole.len(),
                    self.expr@ == whole,
                    is_digit(whole[i as int]),
                    text@ == whole.subrange(i as int, j as int),
                    is_numeral(text@),
                    pointed <==> text@.contains('.'),
                    numeral_tail(whole.skip(i + 1), false) == (j - i - 1) + numeral_tail(
                        whole.skip(j as int),
                        pointed,
                    ),
                decreases n - j,
            {
                let d = self.expr[j];
                let ghost before = text@;
                text.push(d);
                proof {
                    assert(whole.skip(j as int).drop_first() =~= whole.skip(j + 1));
                    assert(text@ =~= whole.subrange(i as int, j + 1));
                    assert forall|k: int, l: int|
                        0 <= k < l < text@.len() && #[trigger] text@[k] == '.' implies #[trigger] text@[l]
                        != '.' by {
                        assert(before[k] == '.');
                        if l < before.len() {
                            assert(before[l] != '.');
                        }
                    }
                }
                if d == '.' {
                    pointed = true;
                    assert(text@[text@.len() - 1] == '.');
                } else {
                    assert forall|k: int| 0 <= k < text@.len() && text@[k] == '.' implies pointed by {
                        assert(before[k] == '.');
                    }
                }
                j += 1;
            }
            self.pos = j;
            proof {
                assert(numeral_tail(whole.skip(j as int), pointed) == 0);
                assert(input.skip(leading_spaces(input) as int + 1) =~= whole.skip(i + 1));
                assert(input.subrange(i - from, j - from) =~= whole.subrange(i as int, j as int));
                assert(whole.skip(j as int) =~= input.skip(j - from));
            }
            Some(Token::Num(Literal::from_numeral(text)))
        } else {
            self.pos = i + 1;
            assert(whole.skip(i + 1) =~= input.skip(i + 1 - from));
            Some(Self::symbol_token(c))
        }
    }

    /// The token that a single character stands for.
    fn symbol_token(c: char) -> (r: Token)
        requires
            !is_digit(c),
        ensures
            r@ == symbol(c),
    {
        match c {
            '+' => Token::Add,
            '-' => Token::Sub,
            '*' => Token::Mul,
            '/' => Token::Div,
            '^' => Token::Exp,
            '(' => Token::OpenParen,
            ')' => Token::CloseParen,
            _ => Token::Invalid,
        }
    }
}

} // verus!
