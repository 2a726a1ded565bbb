//! The expression lexer.
//!
//! A directive body is tokenized in a single left-to-right pass.  Whitespace
//! between tokens is insignificant.  Identifiers, numbers, quoted string
//! literals and one- or two-character operators each become one token; any
//! other character becomes an `Unknown` token, so the lexer itself never
//! fails — the directive parser decides what is acceptable.

use vstd::prelude::*;

use crate::num::{spec_parse_i64, parse_i64_digits, int_to_string, spec_int_text};
use crate::numeral::{spec_canon_numeral, canon_numeral};
use crate::text::{
    spec_is_space, spec_is_digit, spec_is_alpha, spec_is_ident_char, is_space, is_digit, is_alpha,
    is_ident_char, chars_of, string_from_chars, push_char,
};

verus! {

/// One lexical unit of a directive body.
#[derive(Debug, Clone, PartialEq)]
pub enum Token {
    /// An identifier: a letter or underscore followed by letters, digits
    /// and underscores.  A bare `_` with no identifier character after it
    /// is the `Underscore` token instead.
    Ident(String),
    Assign,
    /// An integer literal.
    Int(i64),
    /// A float literal, held as its canonical decimal text.
    Float(String),
    LParen,
    RParen,
    LSquare,
    RSquare,
    LCurly,
    RCurly,
    Colon,
    Semicolon,
    Question,
    Pipe,
    Arrow,
    Underscore,
    /// A quoted string literal, escapes already applied.
    Literal(String),
    Not,
    Plus,
    Minus,
    Star,
    Slash,
    Equal,
    NotEqual,
    GreaterThan,
    LessThan,
    GreaterThanOrEqual,
    LessThanOrEqual,
    And,
    Or,
    /// A character no rule recognized.
    Unknown(char),
}

/// The mathematical shape of a `Token`.
pub enum TokenView {
    Ident(Seq<char>),
    Assign,
    Int(int),
    Float(Seq<char>),
    LParen,
    RParen,
    LSquare,
    RSquare,
    LCurly,
    RCurly,
    Colon,
    Semicolon,
    Question,
    Pipe,
    Arrow,
    Underscore,
    Literal(Seq<char>),
    Not,
    Plus,
    Minus,
    Star,
    Slash,
    Equal,
    NotEqual,
    GreaterThan,
    LessThan,
    GreaterThanOrEqual,
    LessThanOrEqual,
    And,
    Or,
    Unknown(char),
}

impl View for Token {
    type V = TokenView;

    open spec fn view(&self) -> TokenView {
        match self {
            Token::Ident(s) => TokenView::Ident(s@),
            Token::Assign => TokenView::Assign,
            Token::Int(i) => TokenView::Int(*i as int),
            Token::Float(s) => TokenView::Float(s@),
            Token::LParen => TokenView::LParen,
            Token::RParen => TokenView::RParen,
            Token::LSquare => TokenView::LSquare,
            Token::RSquare => TokenView::RSquare,
            Token::LCurly => TokenView::LCurly,
            Token::RCurly => TokenView::RCurly,
            Token::Colon => TokenView::Colon,
            Token::Semicolon => TokenView::Semicolon,
            Token::Question => TokenView::Question,
            Token::Pipe => TokenView::Pipe,
            Token::Arrow => TokenView::Arrow,
            Token::Underscore => TokenView::Underscore,
            Token::Literal(s) => TokenView::Literal(s@),
            Token::Not => TokenView::Not,
            Token::Plus => TokenView::Plus,
            Token::Minus => TokenView::Minus,
            Token::Star => TokenView::Star,
            Token::Slash => TokenView::Slash,
            Token::Equal => TokenView::Equal,
            Token::NotEqual => TokenView::NotEqual,
            Token::GreaterThan => TokenView::GreaterThan,
            Token::LessThan => TokenView::LessThan,
            Token::GreaterThanOrEqual => TokenView::GreaterThanOrEqual,
            Token::LessThanOrEqual => TokenView::LessThanOrEqual,
            Token::And => TokenView::And,
            Token::Or => TokenView::Or,
            Token::Unknown(c) => TokenView::Unknown(*c),
        }
    }
}

/// The views of a token run.
pub open spec fn token_views(ts: Seq<Token>) -> Seq<TokenView> {
    ts.map_values(|t: Token| t@)
}

/// The raw text a token contributes when a directive keeps it as an
/// argument: identifier and literal content, the decimal text of numbers,
/// the spelling of the few punctuation tokens that have one, and nothing
/// for the rest.
pub open spec fn spec_token_text(t: TokenView) -> Seq<char> {
    match t {
        TokenView::Ident(s) => s,
        TokenView::Literal(s) => s,
        TokenView::Int(i) => spec_int_text(i),
        TokenView::Float(s) => s,
        TokenView::Colon => ":"@,
        TokenView::Question => "?"@,
        TokenView::Pipe => "|"@,
        TokenView::Arrow => "=>"@,
        _ => Seq::<char>::empty(),
    }
}

impl Token {
    /// The raw text of the token, as directives store it.
    pub fn as_string(&self) -> (r: String)
        ensures
            r@ == spec_token_text(self@),
    {
        match self {
            Token::Ident(s) => s.clone(),
            Token::Literal(s) => s.clone(),
            Token::Int(i) => int_to_string(*i),
            Token::Float(s) => s.clone(),
            Token::Colon => String::from_str(":"),
            Token::Question => String::from_str("?"),
            Token::Pipe => String::from_str("|"),
            Token::Arrow => String::from_str("=>"),
            _ => String::new(),
        }
    }

    /// Whether the token may stand where a directive expects a value:
    /// an identifier, a string literal or a number.
    pub open spec fn spec_is_value(t: TokenView) -> bool {
        t is Ident || t is Literal || t is Int || t is Float
    }

    /// Names the token for diagnostics; content-bearing tokens show their
    /// content.
    pub fn display_string(&self) -> (r: String)
        ensures
            r@ == spec_token_display(self@),
    {
        match self {
            Token::Ident(s) => s.clone(),
            Token::Int(i) => int_to_string(*i),
            Token::Float(s) => s.clone(),
            Token::Literal(s) => s.clone(),
            Token::Assign => String::from_str("Assign"),
            Token::LParen => String::from_str("LParen"),
            Token::RParen => String::from_str("RParen"),
            Token::LSquare => String::from_str("LSquare"),
            Token::RSquare => String::from_str("RSquare"),
            Token::LCurly => String::from_str("LCurly"),
            Token::RCurly => String::from_str("RCurly"),
            Token::Colon => String::from_str("Colon"),
            Token::Semicolon => String::from_str("Semicolon"),
            Token::Question => String::from_str("Question"),
            Token::Pipe => String::from_str("Pipe"),
            Token::Arrow => String::from_str("Arrow"),
            Token::Underscore => String::from_str("Underscore"),
            Token::Not => String::from_str("Not"),
            Token::Plus => String::from_str("Plus"),
            Token::Minus => String::from_str("Minus"),
            Token::Star => String::from_str("Star"),
            Token::Slash => String::from_str("Slash"),
            Token::Equal => String::from_str("Equal"),
            Token::NotEqual => String::from_str("NotEqual"),
            Token::GreaterThan => String::from_str("GreaterThan"),
            Token::LessThan => String::from_str("LessThan"),
            Token::GreaterThanOrEqual => String::from_str("GreaterThanOrEqual"),
            Token::LessThanOrEqual => String::from_str("LessThanOrEqual"),
            Token::And => String::from_str("And"),
            Token::Or => String::from_str("Or"),
            Token::Unknown(c) => {
                let mut s = String::from_str("Unknown(");
                push_char(&mut s, *c);
                s.append(")");
                proof {
                    assert(s@ =~= "Unknown("@ + seq![*c] + ")"@);
                }
                s
            },
        }
    }
}

/// The diagnostic text of a token.
pub open spec fn spec_token_display(t: TokenView) -> Seq<char> {
    match t {
        TokenView::Ident(s) => s,
        TokenView::Int(i) => spec_int_text(i),
        TokenView::Float(s) => s,
        TokenView::Literal(s) => s,
        TokenView::Assign => "Assign"@,
        TokenView::LParen => "LParen"@,
        TokenView::RParen => "RParen"@,
        TokenView::LSquare => "LSquare"@,
        TokenView::RSquare => "RSquare"@,
        TokenView::LCurly => "LCurly"@,
        TokenView::RCurly => "RCurly"@,
        TokenView::Colon => "Colon"@,
        TokenView::Semicolon => "Semicolon"@,
        TokenView::Question => "Question"@,
        TokenView::Pipe => "Pipe"@,
        TokenView::Arrow => "Arrow"@,
        TokenView::Underscore => "Underscore"@,
        TokenView::Not => "Not"@,
        TokenView::Plus => "Plus"@,
        TokenView::Minus => "Minus"@,
        TokenView::Star => "Star"@,
        TokenView::Slash => "Slash"@,
        TokenView::Equal => "Equal"@,
        TokenView::NotEqual => "NotEqual"@,
        TokenView::GreaterThan => "GreaterThan"@,
        TokenView::LessThan => "LessThan"@,
        TokenView::GreaterThanOrEqual => "GreaterThanOrEqual"@,
        TokenView::LessThanOrEqual => "LessThanOrEqual"@,
        TokenView::And => "And"@,
        TokenView::Or => "Or"@,
        TokenView::Unknown(c) => "Unknown("@ + seq![c] + ")"@,
    }
}

/// The first index at or after `i` whose character cannot continue an
/// identifier, or the input's end.
pub open spec fn spec_ident_end(s: Seq<char>, i: int) -> int
    decreases s.len() - i,
{
    if i < 0 || i >= s.len() {
        i
    } else if spec_is_ident_char(s[i]) {
        spec_ident_end(s, i + 1)
    } else {
        i
    }
}

pub proof fn lemma_ident_end(s: Seq<char>, i: int)
    requires
        0 <= i <= s.len(),
    ensures
        i <= spec_ident_end(s, i) <= s.len(),
        forall|j: int| i <= j < spec_ident_end(s, i) ==> spec_is_ident_char(#[trigger] s[j]),
        spec_ident_end(s, i) < s.len() ==> !spec_is_ident_char(s[spec_ident_end(s, i)]),
    decreases s.len() - i,
{
    if i < s.len() && spec_is_ident_char(s[i]) {
        lemma_ident_end(s, i + 1);
    }
}

/// The first index at or after `i` that holds no digit, or the input's end.
pub open spec fn spec_digits_end(s: Seq<char>, i: int) -> int
    decreases s.len() - i,
{
    if i < 0 || i >= s.len() {
        i
    } else if spec_is_digit(s[i]) {
        spec_digits_end(s, i + 1)
    } else {
        i
    }
}

pub proof fn lemma_digits_end(s: Seq<char>, i: int)
    requires
        0 <= i <= s.len(),
    ensures
        i <= spec_digits_end(s, i) <= s.len(),
        forall|j: int| i <= j < spec_digits_end(s, i) ==> spec_is_digit(#[trigger] s[j]),
        spec_digits_end(s, i) < s.len() ==> !spec_is_digit(s[spec_digits_end(s, i)]),
    decreases s.len() - i,
{
    if i < s.len() && spec_is_digit(s[i]) {
        lemma_digits_end(s, i + 1);
    }
}

/// What an escape inside a string literal stands for; an unknown escape
/// passes its character through.
pub open spec fn spec_escape_char(c: char) -> char {
    if c == 'n' {
        '\n'
    } else if c == 't' {
        '\t'
    } else if c == 'r' {
        '\r'
    } else if c == '0' {
        '\0'
    } else {
        c
    }
}

/// The content and the index after a string literal whose opening quote
/// `q` stood just before `i`.  An unterminated literal runs to the end of
/// the input; a backslash at the very end reads the end-of-input marker,
/// a NUL character.
pub open spec fn spec_read_string(s: Seq<char>, i: int, q: char) -> (Seq<char>, int)
    decreases s.len() - i,
{
    if i < 0 || i >= s.len() {
        (Seq::<char>::empty(), s.len() as int)
    } else if s[i] == q {
        (Seq::<char>::empty(), i + 1)
    } else if s[i] == '\\' {
        if i + 1 < s.len() {
            let rest = spec_read_string(s, i + 2, q);
            (seq![spec_escape_char(s[i + 1])] + rest.0, rest.1)
        } else {
            (seq!['\0'], s.len() as int)
        }
    } else {
        let rest = spec_read_string(s, i + 1, q);
        (seq![s[i]] + rest.0, rest.1)
    }
}

pub proof fn lemma_read_string_end(s: Seq<char>, i: int, q: char)
    requires
        0 <= i <= s.len(),
    ensures
        i < spec_read_string(s, i, q).1 <= s.len() || (i == s.len() && spec_read_string(s, i, q).1
            == s.len()),
    decreases s.len() - i,
{
    if i < s.len() && s[i] != q {
        if s[i] == '\\' {
            if i + 1 < s.len() {
                lemma_read_string_end(s, i + 2, q);
            }
        } else {
            lemma_read_string_end(s, i + 1, q);
        }
    }
}

/// The token starting at `i` (no whitespace there) and the index just
/// after it.
pub open spec fn spec_tok_at(s: Seq<char>, i: int) -> (TokenView, int)
    recommends
        0 <= i < s.len(),
        !spec_is_space(s[i]),
{
    let c = s[i];
    if c == '=' {
        if i + 1 < s.len() && s[i + 1] == '=' {
            (TokenView::Equal, i + 2)
        } else if i + 1 < s.len() && s[i + 1] == '>' {
            (TokenView::Arrow, i + 2)
        } else {
            (TokenView::Assign, i + 1)
        }
    } else if c == '+' {
        (TokenView::Plus, i + 1)
    } else if c == '-' {
        (TokenView::Minus, i + 1)
    } else if c == '*' {
        (TokenView::Star, i + 1)
    } else if c == '/' {
        (TokenView::Slash, i + 1)
    } else if c == '(' {
        (TokenView::LParen, i + 1)
    } else if c == ')' {
        (TokenView::RParen, i + 1)
    } else if c == '[' {
        (TokenView::LSquare, i + 1)
    } else if c == ']' {
        (TokenView::RSquare, i + 1)
    } else if c == '{' {
        (TokenView::LCurly, i + 1)
    } else if c == '}' {
        (TokenView::RCurly, i + 1)
    } else if c == ':' {
        (TokenView::Colon, i + 1)
    } else if c == ';' {
        (TokenView::Semicolon, i + 1)
    } else if c == '?' {
        (TokenView::Question, i + 1)
    } else if c == '!' {
        if i + 1 < s.len() && s[i + 1] == '=' {
            (TokenView::NotEqual, i + 2)
        } else {
            (TokenView::Not, i + 1)
        }
    } else if c == '<' {
        if i + 1 < s.len() && s[i + 1] == '=' {
            (TokenView::LessThanOrEqual, i + 2)
        } else {
            (TokenView::LessThan, i + 1)
        }
    } else if c == '>' {
        if i + 1 < s.len() && s[i + 1] == '=' {
            (TokenView::GreaterThanOrEqual, i + 2)
        } else {
            (TokenView::GreaterThan, i + 1)
        }
    } else if c == '&' {
        if i + 1 < s.len() && s[i + 1] == '&' {
            (TokenView::And, i + 2)
        } else {
            (TokenView::Unknown('&'), i + 1)
        }
    } else if c == '|' {
        if i + 1 < s.len() && s[i + 1] == '|' {
            (TokenView::Or, i + 2)
        } else {
            (TokenView::Pipe, i + 1)
        }
    } else if c == '_' {
        if i + 1 < s.len() && spec_is_ident_char(s[i + 1]) {
            let j = spec_ident_end(s, i);
            (TokenView::Ident(s.subrange(i, j)), j)
        } else {
            (TokenView::Underscore, i + 1)
        }
    } else if c == '"' || c == '\'' {
        let rs = spec_read_string(s, i + 1, c);
        (TokenView::Literal(rs.0), rs.1)
    } else if spec_is_alpha(c) {
        let j = spec_ident_end(s, i);
        (TokenView::Ident(s.subrange(i, j)), j)
    } else if spec_is_digit(c) {
        let j = spec_digits_end(s, i);
        if j < s.len() && s[j] == '.' && j + 1 < s.len() && spec_is_digit(s[j + 1]) {
            let k = spec_digits_end(s, j + 1);
            let raw = s.subrange(i, j) + seq!['.'] + s.subrange(j + 1, k);
            (TokenView::Float(spec_canon_numeral(raw)), k)
        } else {
            match spec_parse_i64(s.subrange(i, j)) {
                Some(v) => (TokenView::Int(v as int), j),
                None => (TokenView::Unknown(c), j),
            }
        }
    } else {
        (TokenView::Unknown(c), i + 1)
    }
}

/// Each token occupies at least one character.
pub proof fn lemma_tok_at_bounds(s: Seq<char>, i: int)
    requires
        0 <= i < s.len(),
    ensures
        i < spec_tok_at(s, i).1 <= s.len(),
{
    let c = s[i];
    if c == '"' || c == '\'' {
        lemma_read_string_end(s, i + 1, c);
    } else if c == '_' {
        if i + 1 < s.len() && spec_is_ident_char(s[i + 1]) {
            lemma_ident_end(s, i);
            assert(spec_ident_end(s, i) > i) by {
                assert(spec_is_ident_char(s[i]));
            }
        }
    } else if !(c == '=' || c == '+' || c == '-' || c == '*' || c == '/' || c == '(' || c == ')'
        || c == '[' || c == ']' || c == '{' || c == '}' || c == ':' || c == ';' || c == '?' || c
        == '!' || c == '<' || c == '>' || c == '&' || c == '|') {
        if spec_is_alpha(c) {
            lemma_ident_end(s, i);
            assert(spec_ident_end(s, i) > i) by {
                assert(spec_is_ident_char(s[i]));
            }
        } else if spec_is_digit(c) {
            lemma_digits_end(s, i);
            assert(spec_digits_end(s, i) > i);
            let j = spec_digits_end(s, i);
            if j < s.len() && s[j] == '.' && j + 1 < s.len() && spec_is_digit(s[j + 1]) {
                lemma_digits_end(s, j + 1);
            }
        }
    }
}

/// The tokens of the input from index `i` on.
pub open spec fn spec_lex_from(s: Seq<char>, i: int) -> Seq<TokenView>
    decreases s.len() - i,
{
    if i < 0 || i >= s.len() {
        Seq::<TokenView>::empty()
    } else if spec_is_space(s[i]) {
        spec_lex_from(s, i + 1)
    } else {
        let tj = spec_tok_at(s, i);
        if i < tj.1 <= s.len() {
            seq![tj.0] + spec_lex_from(s, tj.1)
        } else {
            Seq::<TokenView>::empty()
        }
    }
}

/// The token sequence of a whole directive body.
pub open spec fn spec_tokenize(s: Seq<char>) -> Seq<TokenView> {
    spec_lex_from(s, 0)
}

/// The lexer's state: the input characters and the read position.
#[derive(Debug, Clone)]
pub struct Lexer {
    input: Vec<char>,
    cursor: usize,
}

impl Lexer {
    /// Starts a lexer at the beginning of the input.
    fn new(input: &str) -> (r: Lexer)
        ensures
            r.input@ == input@,
            r.cursor == 0,
    {
        Lexer { input: chars_of(input), cursor: 0 }
    }

    /// Advances the cursor past insignificant whitespace.
    fn skip_whitespace(&mut self)
        requires
            old(self).cursor <= old(self).input@.len(),
        ensures
            final(self).input@ == old(self).input@,
            old(self).cursor <= final(self).cursor <= final(self).input@.len(),
            spec_lex_from(old(self).input@, old(self).cursor as int) == spec_lex_from(
                final(self).input@,
                final(self).cursor as int,
            ),
            final(self).cursor < final(self).input@.len() ==> !spec_is_space(
                final(self).input@[final(self).cursor as int],
            ),
    {
        while self.cursor < self.input.len() && is_space(self.input[self.cursor])
            invariant
                old(self).cursor <= self.cursor <= self.input@.len(),
                self.input == old(self).input,
                spec_lex_from(self.input@, old(self).cursor as int) == spec_lex_from(
                    self.input@,
                    self.cursor as int,
                ),
            decreases self.input@.len() - self.cursor,
        {
            self.cursor = self.cursor + 1;
        }
    }

    /// Reads the identifier characters starting at the cursor.
    fn read_ident(&mut self) -> (r: Vec<char>)
        requires
            old(self).cursor <= old(self).input@.len(),
        ensures
            final(self).input@ == old(self).input@,
            final(self).cursor == spec_ident_end(old(self).input@, old(self).cursor as int),
            r@ == old(self).input@.subrange(old(self).cursor as int, final(self).cursor as int),
    {
        let ghost s = self.input@;
        let ghost i0 = self.cursor as int;
        proof {
            lemma_ident_end(s, i0);
        }
        let mut out: Vec<char> = Vec::new();
        while self.cursor < self.input.len() && is_ident_char(self.input[self.cursor])
            invariant
                0 <= i0 <= self.cursor <= s.len(),
                self.input@ == s,
                spec_ident_end(s, i0) == spec_ident_end(s, self.cursor as int),
                out@ == s.subrange(i0, self.cursor as int),
            decreases s.len() - self.cursor,
        {
            let ghost cur = self.cursor as int;
            out.push(self.input[self.cursor]);
            proof {
                assert(s.subrange(i0, cur + 1) =~= s.subrange(i0, cur).push(s[cur]));
            }
            self.cursor = self.cursor + 1;
        }
        out
    }

    /// Reads the digit run starting at the cursor.
    fn read_digits(&mut self) -> (r: Vec<char>)
        requires
            old(self).cursor <= old(self).input@.len(),
        ensures
            final(self).input@ == old(self).input@,
            final(self).cursor == spec_digits_end(old(self).input@, old(self).cursor as int),
            r@ == old(self).input@.subrange(old(self).cursor as int, final(self).cursor as int),
    {
        let ghost s = self.input@;
        let ghost i0 = self.cursor as int;
        proof {
            lemma_digits_end(s, i0);
        }
        let mut out: Vec<char> = Vec::new();
        while self.cursor < self.input.len() && is_digit(self.input[self.cursor])
            invariant
                0 <= i0 <= self.cursor <= s.len(),
                self.input@ == s,
                spec_digits_end(s, i0) == spec_digits_end(s, self.cursor as int),
                out@ == s.subrange(i0, self.cursor as int),
            decreases s.len() - self.cursor,
        {
            let ghost cur = self.cursor as int;
            out.push(self.input[self.cursor]);
            proof {
                assert(s.subrange(i0, cur + 1) =~= s.subrange(i0, cur).push(s[cur]));
            }
            self.cursor = self.cursor + 1;
        }
        out
    }

    /// Reads a string literal after its opening quote `q`, applying escape
    /// sequences, up to the matching quote or the end of the input.
    fn read_string(&mut self, q: char) -> (r: Vec<char>)
        requires
            old(self).cursor <= old(self).input@.len(),
        ensures
            final(self).input@ == old(self).input@,
            final(self).cursor <= final(self).input@.len(),
            (r@, final(self).cursor as int) == spec_read_string(
                old(self).input@,
                old(self).cursor as int,
                q,
            ),
    {
        let ghost s = self.input@;
        let mut out: Vec<char> = Vec::new();
        while self.cursor < self.input.len() && self.input[self.cursor] != q
            invariant
                self.cursor <= s.len(),
                self.input@ == s,
                spec_read_string(s, old(self).cursor as int, q) == {
                    let rest = spec_read_string(s, self.cursor as int, q);
                    (out@ + rest.0, rest.1)
                },
            decreases s.len() - self.cursor,
        {
            let c = self.input[self.cursor];
            if c == '\\' {
                if self.cursor + 1 < self.input.len() {
                    let e = self.input[self.cursor + 1];
                    let esc: char = if e == 'n' {
                        '\n'
                    } else if e == 't' {
                        '\t'
                    } else if e == 'r' {
                        '\r'
                    } else if e == '0' {
                        '\0'
                    } else {
                        e
                    };
                    proof {
                        assert(esc == spec_escape_char(s[self.cursor + 1]));
                        let rest = spec_read_string(s, self.cursor + 2, q);
                        assert(out@ + (seq![spec_escape_char(s[self.cursor + 1])] + rest.0)
                            =~= out@.push(spec_escape_char(s[self.cursor + 1])) + rest.0);
                    }
                    out.push(esc);
                    self.cursor = self.cursor + 2;
                } else {
                    proof {
                        let rest_empty = Seq::<char>::empty();
                        assert(out@ + seq!['\0'] =~= out@.push('\0') + rest_empty);
                        assert(spec_read_string(s, s.len() as int, q) == (
                            Seq::<char>::empty(),
                            s.len() as int,
                        ));
                        assert(out@.push('\0') + Seq::<char>::empty() =~= out@.push('\0'));
                        assert(out@ + seq!['\0'] =~= out@.push('\0'));
                    }
                    out.push('\0');
                    self.cursor = self.input.len();
                }
            } else {
                proof {
                    let rest = spec_read_string(s, self.cursor + 1, q);
                    assert(out@ + (seq![s[self.cursor as int]] + rest.0) =~= out@.push(
                        s[self.cursor as int],
                    ) + rest.0);
                }
                out.push(c);
                self.cursor = self.cursor + 1;
            }
        }
        proof {
            let rest = spec_read_string(s, self.cursor as int, q);
            assert(out@ + rest.0 =~= out@);
        }
        if self.cursor < self.input.len() {
            self.cursor = self.cursor + 1;
        }
        out
    }

    /// Produces the next token, or `None` at the end of the input.
    fn next_token(&mut self) -> (r: Option<Token>)
        requires
            old(self).cursor <= old(self).input@.len(),
        ensures
            final(self).input@ == old(self).input@,
            final(self).cursor <= final(self).input@.len(),
            match r {
                None => spec_lex_from(old(self).input@, old(self).cursor as int)
                    == Seq::<TokenView>::empty(),
                Some(t) => old(self).cursor < final(self).cursor && spec_lex_from(
                    old(self).input@,
                    old(self).cursor as int,
                ) == seq![t@] + spec_lex_from(final(self).input@, final(self).cursor as int),
            },
    {
        let ghost s = self.input@;
        self.skip_whitespace();
        if self.cursor >= self.input.len() {
            return None;
        }
        let ghost i = self.cursor as int;
        proof {
            lemma_tok_at_bounds(s, i);
        }
        let c = self.input[self.cursor];
        let tok: Token = if c == '=' {
            if self.cursor + 1 < self.input.len() && self.input[self.cursor + 1] == '=' {
                self.cursor = self.cursor + 2;
                Token::Equal
            } else if self.cursor + 1 < self.input.len() && self.input[self.cursor + 1] == '>' {
                self.cursor = self.cursor + 2;
                Token::Arrow
            } else {
                self.cursor = self.cursor + 1;
                Token::Assign
            }
        } else if c == '+' {
            self.cursor = self.cursor + 1;
            Token::Plus
        } else if c == '-' {
            self.cursor = self.cursor + 1;
            Token::Minus
        } else if c == '*' {
            self.cursor = self.cursor + 1;
            Token::Star
        } else if c == '/' {
            self.cursor = self.cursor + 1;
            Token::Slash
        } else if c == '(' {
            self.cursor = self.cursor + 1;
            Token::LParen
        } else if c == ')' {
            self.cursor = self.cursor + 1;
            Token::RParen
        } else if c == '[' {
            self.cursor = self.cursor + 1;
            Token::LSquare
        } else if c == ']' {
            self.cursor = self.cursor + 1;
            Token::RSquare
        } else if c == '{' {
            self.cursor = self.cursor + 1;
            Token::LCurly
        } else if c == '}' {
            self.cursor = self.cursor + 1;
            Token::RCurly
        } else if c == ':' {
            self.cursor = self.cursor + 1;
            Token::Colon
        } else if c == ';' {
            self.cursor = self.cursor + 1;
            Token::Semicolon
        } else if c == '?' {
            self.cursor = self.cursor + 1;
            Token::Question
        } else if c == '!' {
            if self.cursor + 1 < self.input.len() && self.input[self.cursor + 1] == '=' {
                self.cursor = self.cursor + 2;
                Token::NotEqual
            } else {
                self.cursor = self.cursor + 1;
                Token::Not
            }
        } else if c == '<' {
            if self.cursor + 1 < self.input.len() && self.input[self.cursor + 1] == '=' {
                self.cursor = self.cursor + 2;
                Token::LessThanOrEqual
            } else {
                self.cursor = self.cursor + 1;
                Token::LessThan
            }
        } else if c == '>' {
            if self.cursor + 1 < self.input.len() && self.input[self.cursor + 1] == '=' {
                self.cursor = self.cursor + 2;
                Token::GreaterThanOrEqual
            } else {
                self.cursor = self.cursor + 1;
                Token::GreaterThan
            }
        } else if c == '&' {
            if self.cursor + 1 < self.input.len() && self.input[self.cursor + 1] == '&' {
                self.cursor = self.cursor + 2;
                Token::And
            } else {
                self.cursor = self.cursor + 1;
                Token::Unknown('&')
            }
        } else if c == '|' {
            if self.cursor + 1 < self.input.len() && self.input[self.cursor + 1] == '|' {
                self.cursor = self.cursor + 2;
                Token::Or
            } else {
                self.cursor = self.cursor + 1;
                Token::Pipe
            }
        } else if c == '_' {
            if self.cursor + 1 < self.input.len() && is_ident_char(self.input[self.cursor + 1]) {
                let name = self.read_ident();
                Token::Ident(string_from_chars(&name))
            } else {
                self.cursor = self.cursor + 1;
                Token::Underscore
            }
        } else if c == '"' || c == '\'' {
            self.cursor = self.cursor + 1;
            let content = self.read_string(c);
            Token::Literal(string_from_chars(&content))
        } else if is_alpha(c) {
            let name = self.read_ident();
            Token::Ident(string_from_chars(&name))
        } else if is_digit(c) {
            let digits = self.read_digits();
            let has_frac = self.cursor < self.input.len() && self.input[self.cursor] == '.'
                && self.cursor + 1 < self.input.len() && is_digit(self.input[self.cursor + 1]);
            if has_frac {
                let ghost j = self.cursor as int;
                self.cursor = self.cursor + 1;
                let frac = self.read_digits();
                let mut raw: Vec<char> = digits;
                raw.push('.');
                let mut k: usize = 0;
                proof {
                    assert(raw@ + frac@.take(0) =~= raw@);
                }
                let ghost before = raw@;
                while k < frac.len()
                    invariant
                        k <= frac@.len(),
                        raw@ == before + frac@.take(k as int),
                    decreases frac@.len() - k,
                {
                    raw.push(frac[k]);
                    proof {
                        assert(before + frac@.take(k + 1) =~= (before + frac@.take(
                            k as int,
                        )).push(frac@[k as int]));
                    }
                    k = k + 1;
                }
                proof {
                    assert(frac@.take(frac@.len() as int) =~= frac@);
                    assert(raw@ =~= s.subrange(i, j) + seq!['.'] + s.subrange(
                        j + 1,
                        self.cursor as int,
                    ));
                }
                let canon = canon_numeral(&raw);
                Token::Float(string_from_chars(&canon))
            } else {
                match parse_i64_digits(&digits) {
                    Some(v) => Token::Int(v),
                    None => Token::Unknown(c),
                }
            }
        } else {
            self.cursor = self.cursor + 1;
            Token::Unknown(c)
        };
        proof {
            assert((tok@, self.cursor as int) == spec_tok_at(s, i));
        }
        Some(tok)
    }

    /// Tokenizes a whole directive body.
    pub fn tokenize(input: &str) -> (r: Vec<Token>)
        ensures
            token_views(r@) == spec_tokenize(input@),
    {
        let mut lexer = Lexer::new(input);
        let mut out: Vec<Token> = Vec::new();
        proof {
            assert(token_views(out@) =~= Seq::<TokenView>::empty());
            assert(token_views(out@) + spec_lex_from(input@, 0) =~= spec_lex_from(input@, 0));
        }
        loop
            invariant
                lexer.input@ == input@,
                lexer.cursor <= input@.len(),
                spec_tokenize(input@) == token_views(out@) + spec_lex_from(
                    input@,
                    lexer.cursor as int,
                ),
            decreases input@.len() - lexer.cursor,
        {
            let ghost before = out@;
            let ghost cur = lexer.cursor as int;
            match lexer.next_token() {
                Some(t) => {
                    proof {
                        assert(token_views(before.push(t)) =~= token_views(before).push(t@));
                        assert(token_views(before) + (seq![t@] + spec_lex_from(
                            input@,
                            lexer.cursor as int,
                        )) =~= token_views(before).push(t@) + spec_lex_from(
                            input@,
                            lexer.cursor as int,
                        ));
                    }
                    out.push(t);
                },
                None => {
                    proof {
                        assert(token_views(out@) + Seq::<TokenView>::empty() =~= token_views(
                            out@,
                        ));
                    }
                    return out;
                },
            }
        }
    }
}

} // verus!
