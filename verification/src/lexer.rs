//! Tokens and the lexer.
//!
//! `Lexer::next_token` drains one token at a time from a borrowed piece of
//! source text.  Its behaviour is specified by `spec_next_token`, a function
//! over the remaining character sequence.

use vstd::prelude::*;
use vstd::string::StrSliceExecFns;

verus! {

/// The smallest classified unit of source text: a literal, an identifier,
/// a keyword, punctuation, or the end-of-input marker.
#[derive(Debug)]
pub enum Token {
    IntegerLiteral { value: u32 },
    /// A real literal keeps its source spelling; it never reaches the
    /// arithmetic evaluator.
    RealLiteral { value: String },
    /// An identifier keeps its raw spelling; case is only normalized later,
    /// when an abstract-syntax-tree node is built from it.
    Identifier { value: String },
    Program,
    Var,
    Begin,
    End,
    Dot,
    Colon,
    Comma,
    Integer,
    Real,
    Plus,
    Minus,
    Multiply,
    IntegerDivide,
    RealDivide,
    OpenParen,
    CloseParen,
    Assign,
    EndStatement,
    Eof,
}

/// The mathematical shape of a token: the string payloads become
/// character sequences.
pub enum TokenView {
    IntegerLiteral { value: u32 },
    RealLiteral { value: Seq<char> },
    Identifier { value: Seq<char> },
    Program,
    Var,
    Begin,
    End,
    Dot,
    Colon,
    Comma,
    Integer,
    Real,
    Plus,
    Minus,
    Multiply,
    IntegerDivide,
    RealDivide,
    OpenParen,
    CloseParen,
    Assign,
    EndStatement,
    Eof,
}

impl View for Token {
    type V = TokenView;

    open spec fn view(&self) -> TokenView {
        match self {
            Token::IntegerLiteral { value } => TokenView::IntegerLiteral { value: *value },
            Token::RealLiteral { value } => TokenView::RealLiteral { value: value@ },
            Token::Identifier { value } => TokenView::Identifier { value: value@ },
            Token::Program => TokenView::Program,
            Token::Var => TokenView::Var,
            Token::Begin => TokenView::Begin,
            Token::End => TokenView::End,
            Token::Dot => TokenView::Dot,
            Token::Colon => TokenView::Colon,
            Token::Comma => TokenView::Comma,
            Token::Integer => TokenView::Integer,
            Token::Real => TokenView::Real,
            Token::Plus => TokenView::Plus,
            Token::Minus => TokenView::Minus,
            Token::Multiply => TokenView::Multiply,
            Token::IntegerDivide => TokenView::IntegerDivide,
            Token::RealDivide => TokenView::RealDivide,
            Token::OpenParen => TokenView::OpenParen,
            Token::CloseParen => TokenView::CloseParen,
            Token::Assign => TokenView::Assign,
            Token::EndStatement => TokenView::EndStatement,
            Token::Eof => TokenView::Eof,
        }
    }
}

impl Clone for Token {
    fn clone(&self) -> (res: Self)
        ensures
            res@ == self@,
    {
        match self {
            Token::IntegerLiteral { value } => Token::IntegerLiteral { value: *value },
            Token::RealLiteral { value } => Token::RealLiteral { value: value.clone() },
            Token::Identifier { value } => Token::Identifier { value: value.clone() },
            Token::Program => Token::Program,
            Token::Var => Token::Var,
            Token::Begin => Token::Begin,
            Token::End => Token::End,
            Token::Dot => Token::Dot,
            Token::Colon => Token::Colon,
            Token::Comma => Token::Comma,
            Token::Integer => Token::Integer,
            Token::Real => Token::Real,
            Token::Plus => Token::Plus,
            Token::Minus => Token::Minus,
            Token::Multiply => Token::Multiply,
            Token::IntegerDivide => Token::IntegerDivide,
            Token::RealDivide => Token::RealDivide,
            Token::OpenParen => Token::OpenParen,
            Token::CloseParen => Token::CloseParen,
            Token::Assign => Token::Assign,
            Token::EndStatement => Token::EndStatement,
            Token::Eof => Token::Eof,
        }
    }
}

impl PartialEq for Token {
    /// Structural equality; two tokens are equal when their views are.
    fn eq(&self, other: &Token) -> (r: bool) {
        match (self, other) {
            (Token::IntegerLiteral { value: a }, Token::IntegerLiteral { value: b }) => *a == *b,
            (Token::RealLiteral { value: a }, Token::RealLiteral { value: b }) => *a == *b,
            (Token::Identifier { value: a }, Token::Identifier { value: b }) => *a == *b,
            (Token::Program, Token::Program) => true,
            (Token::Var, Token::Var) => true,
            (Token::Begin, Token::Begin) => true,
            (Token::End, Token::End) => true,
            (Token::Dot, Token::Dot) => true,
            (Token::Colon, Token::Colon) => true,
            (Token::Comma, Token::Comma) => true,
            (Token::Integer, Token::Integer) => true,
            (Token::Real, Token::Real) => true,
            (Token::Plus, Token::Plus) => true,
            (Token::Minus, Token::Minus) => true,
            (Token::Multiply, Token::Multiply) => true,
            (Token::IntegerDivide, Token::IntegerDivide) => true,
            (Token::RealDivide, Token::RealDivide) => true,
            (Token::OpenParen, Token::OpenParen) => true,
            (Token::CloseParen, Token::CloseParen) => true,
            (Token::Assign, Token::Assign) => true,
            (Token::EndStatement, Token::EndStatement) => true,
            (Token::Eof, Token::Eof) => true,
            _ => false,
        }
    }
}

impl vstd::std_specs::cmp::PartialEqSpecImpl for Token {
    open spec fn obeys_eq_spec() -> bool {
        true
    }

    open spec fn eq_spec(&self, other: &Token) -> bool {
        self@ == other@
    }
}

/// A lexical fault: a character that begins no token.
#[derive(Debug)]
pub struct LexError {
    pub character: char,
}

/// The characters with the Unicode `White_Space` property, which is what
/// `char::is_whitespace` tests.
pub open spec fn is_space_char(c: char) -> bool {
    let u = c as u32;
    u == 0x09 || u == 0x0A || u == 0x0B || u == 0x0C || u == 0x0D || u == 0x20 || u == 0x85
        || u == 0xA0 || u == 0x1680 || (0x2000 <= u && u <= 0x200A) || u == 0x2028 || u == 0x2029
        || u == 0x202F || u == 0x205F || u == 0x3000
}

/// The decimal digits.
pub open spec fn is_digit_char(c: char) -> bool {
    0x30 <= c as u32 && c as u32 <= 0x39
}

/// The value of one decimal digit.
pub open spec fn digit_value(c: char) -> u32 {
    (c as u32 - 0x30) as u32
}

/// What `char::is_alphabetic` returns; left uninterpreted, as the Unicode
/// letter categories have no short statement.
pub uninterp spec fn is_letter_char(c: char) -> bool;

/// What `char::is_alphanumeric` returns; left uninterpreted for the same
/// reason as `is_letter_char`.
pub uninterp spec fn is_letter_or_digit_char(c: char) -> bool;

/// What `str::to_uppercase` returns: a function of the characters alone.
pub uninterp spec fn upper_of(s: Seq<char>) -> Seq<char>;

/// The input without its leading whitespace.
pub open spec fn skip_spaces(cs: Seq<char>) -> Seq<char>
    decreases cs.len(),
{
    if cs.len() > 0 && is_space_char(cs[0]) {
        skip_spaces(cs.drop_first())
    } else {
        cs
    }
}

/// The input with everything before the next `}` removed; an unterminated
/// comment consumes the rest of the input.
pub open spec fn skip_comment_body(cs: Seq<char>) -> Seq<char>
    decreases cs.len(),
{
    if cs.len() > 0 && cs[0] != '}' {
        skip_comment_body(cs.drop_first())
    } else {
        cs
    }
}

/// The length of the leading run of decimal digits.
pub open spec fn count_digits(cs: Seq<char>) -> nat
    decreases cs.len(),
{
    if cs.len() > 0 && is_digit_char(cs[0]) {
        (1 + count_digits(cs.drop_first())) as nat
    } else {
        0
    }
}

/// The length of the leading run of identifier characters: letters, digits
/// and underscores.
pub open spec fn count_word_chars(cs: Seq<char>) -> nat
    decreases cs.len(),
{
    if cs.len() > 0 && (cs[0] == '_' || is_letter_or_digit_char(cs[0])) {
        (1 + count_word_chars(cs.drop_first())) as nat
    } else {
        0
    }
}

/// The value of a run of decimal digits under naive accumulation:
/// `value * 10 + digit` at each step, with unsigned wrap-around.
pub open spec fn literal_value(ds: Seq<char>) -> u32
    decreases ds.len(),
{
    if ds.len() == 0 {
        0
    } else {
        vstd::wrapping::u32_specs::wrapping_add(
            vstd::wrapping::u32_specs::wrapping_mul(literal_value(ds.drop_last()), 10),
            digit_value(ds.last()),
        )
    }
}

/// The token lexed from an input that starts with a digit: the digit run as
/// an integer literal, or, when a decimal point follows it, the digit run,
/// the point and the following digit run kept as the spelling of a real
/// literal.
pub open spec fn spec_number_token(cs: Seq<char>) -> (TokenView, Seq<char>) {
    let n = count_digits(cs) as int;
    let rest = cs.skip(n);
    if rest.len() > 0 && rest[0] == '.' {
        let m = count_digits(rest.drop_first()) as int;
        (TokenView::RealLiteral { value: cs.take(n + 1 + m) }, cs.skip(n + 1 + m))
    } else {
        (TokenView::IntegerLiteral { value: literal_value(cs.take(n)) }, rest)
    }
}

/// The raw spelling and the rest, for an input that starts an identifier:
/// the first character and then every letter, digit or underscore.
pub open spec fn spec_identifier_raw(cs: Seq<char>) -> (Seq<char>, Seq<char>) {
    let n = 1 + count_word_chars(cs.drop_first()) as int;
    (cs.take(n), cs.skip(n))
}

/// The fixed keyword table, consulted with the uppercased spelling.
pub open spec fn keyword_token(up: Seq<char>) -> Option<TokenView> {
    if up == "PROGRAM"@ {
        Some(TokenView::Program)
    } else if up == "VAR"@ {
        Some(TokenView::Var)
    } else if up == "BEGIN"@ {
        Some(TokenView::Begin)
    } else if up == "END"@ {
        Some(TokenView::End)
    } else if up == "INTEGER"@ {
        Some(TokenView::Integer)
    } else if up == "REAL"@ {
        Some(TokenView::Real)
    } else if up == "DIV"@ {
        Some(TokenView::IntegerDivide)
    } else {
        None
    }
}

/// A word is a keyword when its uppercased spelling is in the table, and
/// otherwise an identifier that keeps the raw spelling.
pub open spec fn spec_word_token(raw: Seq<char>) -> TokenView {
    match keyword_token(upper_of(raw)) {
        Some(t) => t,
        None => TokenView::Identifier { value: raw },
    }
}

/// One step of the lexer: on success, the token and the remaining input; on
/// failure, the offending character and the input positioned at it.
pub open spec fn spec_next_token(cs: Seq<char>) -> Result<(TokenView, Seq<char>), (char, Seq<char>)>
    decreases cs.len(),
    via spec_next_token_decreases
{
    let s = skip_spaces(cs);
    if s.len() == 0 {
        Ok((TokenView::Eof, s))
    } else {
        let c = s[0];
        if c == '{' {
            let body = skip_comment_body(s.drop_first());
            let after = if body.len() > 0 {
                body.drop_first()
            } else {
                body
            };
            spec_next_token(after)
        } else if c == '.' {
            Ok((TokenView::Dot, s.drop_first()))
        } else if c == ',' {
            Ok((TokenView::Comma, s.drop_first()))
        } else if c == '+' {
            Ok((TokenView::Plus, s.drop_first()))
        } else if c == '-' {
            Ok((TokenView::Minus, s.drop_first()))
        } else if c == '*' {
            Ok((TokenView::Multiply, s.drop_first()))
        } else if c == '/' {
            Ok((TokenView::RealDivide, s.drop_first()))
        } else if c == '(' {
            Ok((TokenView::OpenParen, s.drop_first()))
        } else if c == ')' {
            Ok((TokenView::CloseParen, s.drop_first()))
        } else if c == ';' {
            Ok((TokenView::EndStatement, s.drop_first()))
        } else if c == ':' {
            if s.len() > 1 && s[1] == '=' {
                Ok((TokenView::Assign, s.skip(2)))
            } else {
                Ok((TokenView::Colon, s.drop_first()))
            }
        } else if is_digit_char(c) {
            Ok(spec_number_token(s))
        } else if c == '_' || is_letter_char(c) {
            let (raw, rest) = spec_identifier_raw(s);
            Ok((spec_word_token(raw), rest))
        } else {
            Err((c, s))
        }
    }
}

#[via_fn]
proof fn spec_next_token_decreases(cs: Seq<char>) {
    lemma_skip_spaces_len(cs);
    let s = skip_spaces(cs);
    if s.len() > 0 && s[0] == '{' {
        lemma_skip_comment_len(s.drop_first());
    }
}

proof fn lemma_skip_spaces_len(cs: Seq<char>)
    ensures
        skip_spaces(cs).len() <= cs.len(),
    decreases cs.len(),
{
    if cs.len() > 0 && is_space_char(cs[0]) {
        lemma_skip_spaces_len(cs.drop_first());
    }
}

proof fn lemma_skip_comment_len(cs: Seq<char>)
    ensures
        skip_comment_body(cs).len() <= cs.len(),
    decreases cs.len(),
{
    if cs.len() > 0 && cs[0] != '}' {
        lemma_skip_comment_len(cs.drop_first());
    }
}

proof fn lemma_count_digits_le(cs: Seq<char>)
    ensures
        count_digits(cs) <= cs.len(),
    decreases cs.len(),
{
    if cs.len() > 0 && is_digit_char(cs[0]) {
        lemma_count_digits_le(cs.drop_first());
    }
}

proof fn lemma_count_word_chars_le(cs: Seq<char>)
    ensures
        count_word_chars(cs) <= cs.len(),
    decreases cs.len(),
{
    if cs.len() > 0 && (cs[0] == '_' || is_letter_or_digit_char(cs[0])) {
        lemma_count_word_chars_le(cs.drop_first());
    }
}

/// `:=` always lexes as the single assignment token, never as a colon
/// followed by something else; a `:` not followed by `=` lexes as a
/// colon.  This holds of every input whose first character after the
/// leading whitespace is `:`.
pub proof fn lemma_assign_lexes_as_one_token(cs: Seq<char>)
    requires
        skip_spaces(cs).len() > 0,
        skip_spaces(cs)[0] == ':',
    ensures
        (if skip_spaces(cs).len() > 1 && skip_spaces(cs)[1] == '=' {
            spec_next_token(cs) == Ok::<(TokenView, Seq<char>), (char, Seq<char>)>(
                (TokenView::Assign, skip_spaces(cs).skip(2)),
            )
        } else {
            spec_next_token(cs) == Ok::<(TokenView, Seq<char>), (char, Seq<char>)>(
                (TokenView::Colon, skip_spaces(cs).drop_first()),
            )
        }),
{
}

/// A word is lexed as one token that preserves its exact spelling:
/// whenever the first character after the leading whitespace starts a
/// word — an underscore or a letter, and no punctuation, digit or comment
/// opener — the token is `spec_word_token` of the raw spelling, which is
/// the keyword found under the uppercased spelling, or else an identifier
/// carrying the spelling untouched.
pub proof fn lemma_word_lexes_with_spelling_kept(cs: Seq<char>)
    requires
        skip_spaces(cs).len() > 0,
        skip_spaces(cs)[0] == '_' || is_letter_char(skip_spaces(cs)[0]),
        !is_digit_char(skip_spaces(cs)[0]),
        !seq!['{', '.', ',', '+', '-', '*', '/', '(', ')', ';', ':'].contains(skip_spaces(cs)[0]),
    ensures
        spec_next_token(cs) == Ok::<(TokenView, Seq<char>), (char, Seq<char>)>(
            (
                spec_word_token(spec_identifier_raw(skip_spaces(cs)).0),
                spec_identifier_raw(skip_spaces(cs)).1,
            ),
        ),
{
    let punct = seq!['{', '.', ',', '+', '-', '*', '/', '(', ')', ';', ':'];
    assert forall|i: int| 0 <= i < punct.len() implies skip_spaces(cs)[0] != punct[i] by {
        assert(punct.contains(punct[i]));
    }
}

/// Relies on `char::is_alphabetic`: whether the character is a Unicode
/// letter.  The result depends on the character alone.
#[verifier::external_body]
fn is_letter(c: char) -> (r: bool)
    ensures
        r == is_letter_char(c),
{
    c.is_alphabetic()
}

/// Relies on `char::is_alphanumeric`: whether the character is a Unicode
/// letter or number.  The result depends on the character alone.
#[verifier::external_body]
fn is_letter_or_digit(c: char) -> (r: bool)
    ensures
        r == is_letter_or_digit_char(c),
{
    c.is_alphanumeric()
}

/// Relies on `str::to_uppercase`: the result depends on the characters
/// alone.
#[verifier::external_body]
fn to_upper(s: &str) -> (r: String)
    ensures
        r@ == upper_of(s@),
{
    s.to_uppercase()
}

/// Whitespace test over the enumerated `White_Space` characters.
fn is_space(c: char) -> (r: bool)
    ensures
        r == is_space_char(c),
{
    let u = c as u32;
    u == 0x09 || u == 0x0A || u == 0x0B || u == 0x0C || u == 0x0D || u == 0x20 || u == 0x85
        || u == 0xA0 || u == 0x1680 || (0x2000 <= u && u <= 0x200A) || u == 0x2028 || u == 0x2029
        || u == 0x202F || u == 0x205F || u == 0x3000
}

/// Decimal digit test.
fn is_digit(c: char) -> (r: bool)
    ensures
        r == is_digit_char(c),
{
    let u = c as u32;
    0x30 <= u && u <= 0x39
}

/// A successful step never lengthens the input, consumes at least one
/// character unless it reports the end of the input, and reports the end of
/// the input only once everything is consumed.
pub proof fn lemma_next_token_consumes(cs: Seq<char>)
    ensures
        match spec_next_token(cs) {
            Ok((t, rest)) => {
                &&& rest.len() <= cs.len()
                &&& !(t is Eof) ==> rest.len() < cs.len()
                &&& t is Eof ==> rest.len() == 0
            },
            Err((_, rest)) => rest.len() <= cs.len(),
        },
    decreases cs.len(),
{
    lemma_skip_spaces_len(cs);
    let s = skip_spaces(cs);
    if s.len() > 0 {
        let c = s[0];
        if c == '{' {
            lemma_skip_comment_len(s.drop_first());
            let body = skip_comment_body(s.drop_first());
            let after = if body.len() > 0 {
                body.drop_first()
            } else {
                body
            };
            lemma_next_token_consumes(after);
        } else if is_digit_char(c) {
            lemma_count_digits_le(s);
            let n = count_digits(s) as int;
            if s.skip(n).len() > 0 && s.skip(n)[0] == '.' {
                lemma_count_digits_le(s.skip(n).drop_first());
            }
        } else if !(c == '.' || c == ',' || c == '+' || c == '-' || c == '*' || c == '/' || c
            == '(' || c == ')' || c == ';' || c == ':') && (c == '_' || is_letter_char(c)) {
            lemma_count_word_chars_le(s.drop_first());
        }
    }
}

/// The lexer: a cursor over one borrowed piece of source text.  Its view is
/// the sequence of characters not yet consumed.
pub struct Lexer<'a> {
    text: &'a str,
    /// Character position of the next unconsumed character.
    pos: usize,
    /// Character count of `text`, fixed at construction.
    char_count: usize,
}

impl<'a> View for Lexer<'a> {
    type V = Seq<char>;

    closed spec fn view(&self) -> Seq<char> {
        self.text@.skip(self.pos as int)
    }
}

impl<'a> Lexer<'a> {
    #[verifier::type_invariant]
    spec fn wf(self) -> bool {
        self.pos <= self.char_count && self.char_count == self.text@.len()
    }

    /// A lexer over one line or buffer of text, positioned at its start.
    pub fn new(text: &'a str) -> (l: Lexer<'a>)
        ensures
            l@ == text@,
    {
        let char_count = text.unicode_len();
        let l = Lexer { text, pos: 0, char_count };
        proof {
            assert(l@ =~= text@);
        }
        l
    }

    /// Consumes one character.
    fn advance(&mut self)
        requires
            old(self)@.len() > 0,
        ensures
            final(self)@ == old(self)@.drop_first(),
            final(self).text == old(self).text,
            final(self).pos == old(self).pos + 1,
            final(self).char_count == old(self).char_count,
            old(self).pos < old(self).char_count,
            final(self).char_count == final(self).text@.len(),
    {
        proof {
            use_type_invariant(&*self);
        }
        self.pos = self.pos + 1;
        proof {
            assert(self@ =~= old(self)@.drop_first());
        }
    }

    /// The next unconsumed character, when one remains.
    fn current(&self) -> (r: Option<char>)
        ensures
            match r {
                Some(c) => self@.len() > 0 && c == self@[0],
                None => self@.len() == 0,
            },
    {
        proof {
            use_type_invariant(&*self);
        }
        if self.pos < self.char_count {
            Some(self.text.get_char(self.pos))
        } else {
            None
        }
    }

    /// Whether the character one past the current one is `c`.
    fn peek(&self, c: char) -> (r: bool)
        ensures
            r == (self@.len() > 1 && self@[1] == c),
    {
        proof {
            use_type_invariant(&*self);
        }
        if self.char_count - self.pos > 1 {
            self.text.get_char(self.pos + 1) == c
        } else {
            false
        }
    }

    /// Consumes the leading whitespace.
    fn skip_whitespace(&mut self)
        ensures
            final(self)@ == skip_spaces(old(self)@),
            final(self).text == old(self).text,
            final(self)@.len() == 0 || !is_space_char(final(self)@[0]),
    {
        loop
            invariant
                skip_spaces(old(self)@) == skip_spaces(self@),
                self.text == old(self).text,
            ensures
                skip_spaces(old(self)@) == skip_spaces(self@),
                self.text == old(self).text,
                self@.len() == 0 || !is_space_char(self@[0]),
            decreases self@.len(),
        {
            proof {
                use_type_invariant(&*self);
            }
            match self.current() {
                Some(c) => {
                    if is_space(c) {
                        self.advance();
                    } else {
                        break;
                    }
                },
                None => {
                    break;
                },
            }
        }
    }

    /// Lexes a run of digits as an integer literal, or, when a decimal
    /// point follows the run, keeps the spelling as a real literal.
    fn number(&mut self) -> (t: Token)
        requires
            old(self)@.len() > 0,
            is_digit_char(old(self)@[0]),
        ensures
            t@ == spec_number_token(old(self)@).0,
            final(self)@ == spec_number_token(old(self)@).1,
            final(self).text == old(self).text,
    {
        proof {
            use_type_invariant(&*self);
        }
        let ghost v = self@;
        let start = self.pos;
        let mut value: u32 = 0;
        proof {
            assert(v.skip(0) =~= v);
            assert(v.take(0) =~= Seq::<char>::empty());
        }
        loop
            invariant
                self.text == old(self).text,
                old(self).pos == start,
                start <= self.pos <= self.char_count,
                self.char_count == self.text@.len(),
                v == self.text@.skip(start as int),
                self@ =~= v.skip(self.pos - start),
                count_digits(v) == self.pos - start + count_digits(v.skip(self.pos - start)),
                value == literal_value(v.take(self.pos - start)),
            ensures
                self.text == old(self).text,
                start <= self.pos <= self.char_count,
                self.pos - start == count_digits(v),
                value == literal_value(v.take(count_digits(v) as int)),
                self@ =~= v.skip(count_digits(v) as int),
            decreases self@.len(),
        {
            let ghost k = self.pos - start;
            match self.current() {
                Some(c) => {
                    if is_digit(c) {
                        proof {
                            assert(v.skip(k)[0] == c);
                            assert(v.skip(k).drop_first() =~= v.skip(k + 1));
                            assert(v.take(k + 1).drop_last() =~= v.take(k));
                            assert(v.take(k + 1).last() == c);
                        }
                        value = value.wrapping_mul(10).wrapping_add(c as u32 - 0x30);
                        self.advance();
                    } else {
                        proof {
                            assert(count_digits(v.skip(k)) == 0);
                        }
                        break;
                    }
                },
                None => {
                    proof {
                        assert(v.skip(k).len() == 0);
                        assert(count_digits(v.skip(k)) == 0);
                    }
                    break;
                },
            }
        }
        let ghost n = count_digits(v) as int;
        let is_real = match self.current() {
            Some(c) => c == '.',
            None => false,
        };
        if is_real {
            proof {
                lemma_count_digits_le(v);
            }
            self.advance();
            let ghost w = v.skip(n + 1);
            proof {
                assert(self@ =~= w);
                assert(w.skip(0) =~= w);
            }
            loop
                invariant
                    self.text == old(self).text,
                    start + n + 1 <= self.pos <= self.char_count,
                    self.char_count == self.text@.len(),
                    v == self.text@.skip(start as int),
                    w == v.skip(n + 1),
                    w.len() + start + n + 1 == self.text@.len(),
                    self@ =~= w.skip(self.pos - start - n - 1),
                    count_digits(w) == self.pos - start - n - 1 + count_digits(
                        w.skip(self.pos - start - n - 1),
                    ),
                ensures
                    self.text == old(self).text,
                    start + n + 1 <= self.pos <= self.char_count,
                    self.pos - start - n - 1 == count_digits(w),
                    self@ =~= w.skip(count_digits(w) as int),
                decreases self@.len(),
            {
                let ghost j = self.pos - start - n - 1;
                match self.current() {
                    Some(c) => {
                        if is_digit(c) {
                            proof {
                                assert(w.skip(j)[0] == c);
                                assert(w.skip(j).drop_first() =~= w.skip(j + 1));
                            }
                            self.advance();
                        } else {
                            proof {
                                assert(count_digits(w.skip(j)) == 0);
                            }
                            break;
                        }
                    },
                    None => {
                        proof {
                            assert(w.skip(j).len() == 0);
                            assert(count_digits(w.skip(j)) == 0);
                        }
                        break;
                    },
                }
            }
            let ghost m = count_digits(w) as int;
            let spelling = self.text.substring_char(start, self.pos);
            proof {
                assert(v.skip(n).drop_first() =~= v.skip(n + 1));
                assert(spelling@ =~= v.take(n + 1 + m));
                assert(self@ =~= v.skip(n + 1 + m));
            }
            Token::RealLiteral { value: spelling.to_owned() }
        } else {
            proof {
                assert(v.skip(n).len() == 0 || v.skip(n)[0] != '.');
            }
            Token::IntegerLiteral { value }
        }
    }

    /// Lexes one identifier-shaped word, spelling preserved: the current
    /// character and then every letter, digit or underscore.
    fn identifier(&mut self) -> (r: String)
        requires
            old(self)@.len() > 0,
        ensures
            r@ == spec_identifier_raw(old(self)@).0,
            final(self)@ == spec_identifier_raw(old(self)@).1,
            final(self).text == old(self).text,
    {
        proof {
            use_type_invariant(&*self);
        }
        let ghost v = self@;
        let ghost w = v.drop_first();
        let start = self.pos;
        self.advance();
        proof {
            assert(self@ =~= w.skip(0));
        }
        loop
            invariant
                self.text == old(self).text,
                start + 1 <= self.pos <= self.char_count,
                self.char_count == self.text@.len(),
                v == self.text@.skip(start as int),
                w == v.drop_first(),
                self@ =~= w.skip(self.pos - start - 1),
                count_word_chars(w) == self.pos - start - 1 + count_word_chars(
                    w.skip(self.pos - start - 1),
                ),
            ensures
                self.text == old(self).text,
                start + 1 <= self.pos <= self.char_count,
                self.pos - start - 1 == count_word_chars(w),
                self@ =~= w.skip(count_word_chars(w) as int),
            decreases self@.len(),
        {
            let ghost j = self.pos - start - 1;
            match self.current() {
                Some(c) => {
                    if c == '_' || is_letter_or_digit(c) {
                        proof {
                            assert(w.skip(j)[0] == c);
                            assert(w.skip(j).drop_first() =~= w.skip(j + 1));
                        }
                        self.advance();
                    } else {
                        proof {
                            assert(count_word_chars(w.skip(j)) == 0);
                        }
                        break;
                    }
                },
                None => {
                    proof {
                        assert(w.skip(j).len() == 0);
                        assert(count_word_chars(w.skip(j)) == 0);
                    }
                    break;
                },
            }
        }
        let ghost n = 1 + count_word_chars(w) as int;
        let raw = self.text.substring_char(start, self.pos);
        proof {
            assert(raw@ =~= v.take(n));
            assert(self@ =~= v.skip(n));
        }
        raw.to_owned()
    }

    /// Consumes everything before the next `}`, or the rest of the input.
    fn skip_comment(&mut self)
        ensures
            final(self)@ == skip_comment_body(old(self)@),
            final(self).text == old(self).text,
    {
        loop
            invariant
                skip_comment_body(old(self)@) == skip_comment_body(self@),
                self.text == old(self).text,
            ensures
                skip_comment_body(old(self)@) == skip_comment_body(self@),
                self.text == old(self).text,
                self@.len() == 0 || self@[0] == '}',
            decreases self@.len(),
        {
            proof {
                use_type_invariant(&*self);
            }
            match self.current() {
                Some(c) => {
                    if c != '}' {
                        self.advance();
                    } else {
                        break;
                    }
                },
                None => {
                    break;
                },
            }
        }
    }

    /// One token from the remaining input: whitespace and `{ ... }`
    /// comments are skipped first, then the token is classified exactly as
    /// `spec_next_token` says.  At the end of the input this returns `Eof`,
    /// and keeps returning `Eof` when queried again.
    pub fn next_token(&mut self) -> (r: Result<Token, LexError>)
        ensures
            (match spec_next_token(old(self)@) {
                Ok((t, rest)) => r matches Ok(tok) && tok@ == t && final(self)@ == rest,
                Err((c, rest)) => r matches Err(e) && e.character == c && final(self)@ == rest,
            }),
    {
        loop
            invariant
                spec_next_token(old(self)@) == spec_next_token(self@),
            ensures
                spec_next_token(old(self)@) == spec_next_token(self@),
                self@.len() == 0 || (!is_space_char(self@[0]) && self@[0] != '{'),
            decreases self@.len(),
        {
            let ghost at_entry = self@;
            proof {
                lemma_skip_spaces_len(at_entry);
            }
            self.skip_whitespace();
            match self.current() {
                Some(c) => {
                    if c == '{' {
                        self.advance();
                        proof {
                            lemma_skip_comment_len(self@);
                        }
                        self.skip_comment();
                        match self.current() {
                            Some(_) => {
                                self.advance();
                            },
                            None => {},
                        }
                    } else {
                        break;
                    }
                },
                None => {
                    break;
                },
            }
        }
        let ghost s = self@;
        match self.current() {
            None => Ok(Token::Eof),
            Some(c) => {
                if c == '.' {
                    self.advance();
                    Ok(Token::Dot)
                } else if c == ',' {
                    self.advance();
                    Ok(Token::Comma)
                } else if c == '+' {
                    self.advance();
                    Ok(Token::Plus)
                } else if c == '-' {
                    self.advance();
                    Ok(Token::Minus)
                } else if c == '*' {
                    self.advance();
                    Ok(Token::Multiply)
                } else if c == '/' {
                    self.advance();
                    Ok(Token::RealDivide)
                } else if c == '(' {
                    self.advance();
                    Ok(Token::OpenParen)
                } else if c == ')' {
                    self.advance();
                    Ok(Token::CloseParen)
                } else if c == ';' {
                    self.advance();
                    Ok(Token::EndStatement)
                } else if c == ':' {
                    if self.peek('=') {
                        self.advance();
                        self.advance();
                        proof {
                            assert(self@ =~= s.skip(2));
                        }
                        Ok(Token::Assign)
                    } else {
                        self.advance();
                        Ok(Token::Colon)
                    }
                } else if is_digit(c) {
                    Ok(self.number())
                } else if c == '_' || is_letter(c) {
                    let raw = self.identifier();
                    Ok(word_token(raw))
                } else {
                    Err(LexError { character: c })
                }
            },
        }
    }
}

/// Maps a word to its keyword token when its uppercased spelling is in the
/// fixed keyword table, and otherwise keeps it as an identifier.
fn word_token(raw: String) -> (t: Token)
    ensures
        t@ == spec_word_token(raw@),
{
    let up = to_upper(raw.as_str());
    if up == "PROGRAM".to_owned() {
        Token::Program
    } else if up == "VAR".to_owned() {
        Token::Var
    } else if up == "BEGIN".to_owned() {
        Token::Begin
    } else if up == "END".to_owned() {
        Token::End
    } else if up == "INTEGER".to_owned() {
        Token::Integer
    } else if up == "REAL".to_owned() {
        Token::Real
    } else if up == "DIV".to_owned() {
        Token::IntegerDivide
    } else {
        Token::Identifier { value: raw }
    }
}

} // verus!
