pub mod token;

use vstd::prelude::*;
use crate::lexer::token::{Token, TokenKind, TokenTypes, TokenView};

verus! {

pub open spec fn is_space(c: char) -> bool {
    c == ' ' || c == '\t' || c == '\n' || c == '\r'
}

pub open spec fn is_letter(c: char) -> bool {
    ('a' <= c && c <= 'z') || ('A' <= c && c <= 'Z')
}

pub open spec fn is_digit(c: char) -> bool {
    '0' <= c && c <= '9'
}

/// Index of the first character at or after `i` that is not whitespace.
pub open spec fn skip_space(s: Seq<char>, i: nat) -> nat
    decreases s.len() - i,
{
    if i < s.len() && is_space(s[i as int]) {
        skip_space(s, i + 1)
    } else {
        i
    }
}

/// End of the maximal run of ASCII letters that starts at `i`.
pub open spec fn letters_end(s: Seq<char>, i: nat) -> nat
    decreases s.len() - i,
{
    if i < s.len() && is_letter(s[i as int]) {
        letters_end(s, i + 1)
    } else {
        i
    }
}

/// End of the maximal run of ASCII digits that starts at `i`.
pub open spec fn digits_end(s: Seq<char>, i: nat) -> nat
    decreases s.len() - i,
{
    if i < s.len() && is_digit(s[i as int]) {
        digits_end(s, i + 1)
    } else {
        i
    }
}

/// Decimal value of a run of digits.
pub open spec fn digits_value(d: Seq<char>) -> nat
    decreases d.len(),
{
    if d.len() == 0 {
        0
    } else {
        digits_value(d.drop_last()) * 10 + ((d.last() as nat) - ('0' as nat)) as nat
    }
}

/// Kind of a word: a keyword, or else an identifier.
pub open spec fn word_kind(w: Seq<char>) -> TokenKind {
    if w == seq!['f', 'n'] {
        TokenKind::Function
    } else if w == seq!['l', 'e', 't'] {
        TokenKind::Let
    } else if w == seq!['t', 'r', 'u', 'e'] {
        TokenKind::True
    } else if w == seq!['f', 'a', 'l', 's', 'e'] {
        TokenKind::False
    } else if w == seq!['i', 'f'] {
        TokenKind::If
    } else if w == seq!['e', 'l', 's', 'e'] {
        TokenKind::Else
    } else if w == seq!['r', 'e', 't', 'u', 'r', 'n'] {
        TokenKind::Return
    } else {
        TokenKind::Ident(w)
    }
}

/// Kind of a token made of the one character `c`.
pub open spec fn char_kind(c: char) -> TokenKind {
    if c == '=' {
        TokenKind::Assign
    } else if c == '!' {
        TokenKind::Bang
    } else if c == '+' {
        TokenKind::Plus
    } else if c == '-' {
        TokenKind::Minus
    } else if c == '/' {
        TokenKind::Slash
    } else if c == '*' {
        TokenKind::Asterisk
    } else if c == '<' {
        TokenKind::Lt
    } else if c == '>' {
        TokenKind::Gt
    } else if c == ';' {
        TokenKind::Semicolon
    } else if c == ',' {
        TokenKind::Comma
    } else if c == '(' {
        TokenKind::LParen
    } else if c == ')' {
        TokenKind::RParen
    } else if c == '{' {
        TokenKind::LBrace
    } else if c == '}' {
        TokenKind::RBrace
    } else {
        TokenKind::Illegal
    }
}

/// The token that starts at or after index `i` of `s`, and the index just past it.
/// A run of digits too large for an `i64` is an illegal token.
pub open spec fn lex(s: Seq<char>, i: nat) -> (TokenView, nat) {
    let j = skip_space(s, i);
    if j >= s.len() {
        (TokenView { kind: TokenKind::Eof, literal: seq![] }, j)
    } else {
        let c = s[j as int];
        if is_letter(c) {
            let k = letters_end(s, j);
            let w = s.subrange(j as int, k as int);
            (TokenView { kind: word_kind(w), literal: w }, k)
        } else if is_digit(c) {
            let k = digits_end(s, j);
            let w = s.subrange(j as int, k as int);
            let v = digits_value(w);
            let kind = if v <= i64::MAX {
                TokenKind::Int(v as i64)
            } else {
                TokenKind::Illegal
            };
            (TokenView { kind, literal: w }, k)
        } else if (c == '=' || c == '!') && j + 1 < s.len() && s[j + 1int] == '=' {
            let kind = if c == '=' {
                TokenKind::Eq
            } else {
                TokenKind::NotEq
            };
            (TokenView { kind, literal: s.subrange(j as int, j + 2int) }, (j + 2) as nat)
        } else {
            (TokenView { kind: char_kind(c), literal: seq![c] }, j + 1)
        }
    }
}

proof fn lemma_skip_space_bounds(s: Seq<char>, i: nat)
    ensures
        skip_space(s, i) >= i,
        i <= s.len() ==> skip_space(s, i) <= s.len(),
    decreases s.len() - i,
{
    if i < s.len() && is_space(s[i as int]) {
        lemma_skip_space_bounds(s, i + 1);
    }
}

proof fn lemma_letters_end_bounds(s: Seq<char>, i: nat)
    ensures
        letters_end(s, i) >= i,
        i <= s.len() ==> letters_end(s, i) <= s.len(),
        i < s.len() && is_letter(s[i as int]) ==> letters_end(s, i) > i,
    decreases s.len() - i,
{
    if i < s.len() && is_letter(s[i as int]) {
        lemma_letters_end_bounds(s, i + 1);
    }
}

proof fn lemma_digits_end_bounds(s: Seq<char>, i: nat)
    ensures
        digits_end(s, i) >= i,
        i <= s.len() ==> digits_end(s, i) <= s.len(),
        i < s.len() && is_digit(s[i as int]) ==> digits_end(s, i) > i,
    decreases s.len() - i,
{
    if i < s.len() && is_digit(s[i as int]) {
        lemma_digits_end_bounds(s, i + 1);
    }
}

/// Scanning never moves back, and every token but `EOF` consumes at least one character
/// of the input.
pub proof fn lemma_lex_progress(s: Seq<char>, i: nat)
    ensures
        lex(s, i).1 >= i,
        !(lex(s, i).0.kind is Eof) ==> i < lex(s, i).1 <= s.len(),
{
    let j = skip_space(s, i);
    lemma_skip_space_bounds(s, i);
    if j < s.len() {
        lemma_letters_end_bounds(s, j);
        lemma_digits_end_bounds(s, j);
    }
}

proof fn lemma_skip_blank(s: Seq<char>, i: nat)
    requires
        i <= s.len(),
        forall|k: int| i <= k < s.len() ==> is_space(#[trigger] s[k]),
    ensures
        skip_space(s, i) == s.len(),
    decreases s.len() - i,
{
    if i < s.len() {
        lemma_skip_blank(s, i + 1);
    }
}

/// On an input made of whitespace alone, the first token is `EOF`.
pub proof fn lemma_blank_input_is_eof(s: Seq<char>)
    requires
        forall|k: int| 0 <= k < s.len() ==> is_space(#[trigger] s[k]),
    ensures
        lex(s, 0).0.kind is Eof,
{
    lemma_skip_blank(s, 0);
}

/// Once the scanner has returned `EOF`, it returns `EOF` again and stays where it is.
pub proof fn lemma_eof_repeats(s: Seq<char>, i: nat)
    requires
        lex(s, i).0.kind is Eof,
    ensures
        lex(s, lex(s, i).1) == lex(s, i),
{
    lemma_skip_space_bounds(s, i);
}

proof fn lemma_skip_space_stops(s: Seq<char>, i: nat)
    ensures
        skip_space(s, i) < s.len() ==> !is_space(s[skip_space(s, i) as int]),
    decreases s.len() - i,
{
    if i < s.len() && is_space(s[i as int]) {
        lemma_skip_space_stops(s, i + 1);
    }
}

proof fn lemma_letters_run(s: Seq<char>, i: nat)
    ensures
        forall|k: int| i <= k < letters_end(s, i) ==> is_letter(#[trigger] s[k]),
    decreases s.len() - i,
{
    if i < s.len() && is_letter(s[i as int]) {
        lemma_letters_run(s, i + 1);
    }
}

proof fn lemma_digits_run(s: Seq<char>, i: nat)
    ensures
        forall|k: int| i <= k < digits_end(s, i) ==> is_digit(#[trigger] s[k]),
    decreases s.len() - i,
{
    if i < s.len() && is_digit(s[i as int]) {
        lemma_digits_run(s, i + 1);
    }
}

/// Every token but `EOF` is the text it consumed once the whitespace before it is
/// skipped: a non-empty run of characters none of which is whitespace.
pub proof fn lemma_token_is_its_text(s: Seq<char>, i: nat)
    requires
        !(lex(s, i).0.kind is Eof),
    ensures
        lex(s, i).0.literal == s.subrange(skip_space(s, i) as int, lex(s, i).1 as int),
        lex(s, i).0.literal.len() > 0,
        forall|k: int|
            0 <= k < lex(s, i).0.literal.len() ==> !is_space(#[trigger] lex(s, i).0.literal[k]),
{
    let j = skip_space(s, i);
    lemma_lex_progress(s, i);
    lemma_skip_space_bounds(s, i);
    lemma_skip_space_stops(s, i);
    lemma_letters_run(s, j);
    lemma_digits_run(s, j);
    lemma_letters_end_bounds(s, j);
    lemma_digits_end_bounds(s, j);
    let w = lex(s, i).0.literal;
    assert forall|k: int| 0 <= k < w.len() implies !is_space(#[trigger] w[k]) by {
        assert(w[k] == s[j + k]);
    }
    if !is_letter(s[j as int]) && !is_digit(s[j as int]) && !((s[j as int] == '='
        || s[j as int] == '!') && j + 1 < s.len() && s[j + 1int] == '=') {
        assert(w =~= s.subrange(j as int, lex(s, i).1 as int));
    }
}

/// A scanner over a source text. It hands out one token per call.
#[derive(Clone, Debug)]
pub struct Lexer {
    input: String,
    chars: Vec<char>,
    position: usize,
}

impl View for Lexer {
    /// The source text and the index of the next character to scan.
    type V = (Seq<char>, nat);

    closed spec fn view(&self) -> (Seq<char>, nat) {
        (self.input@, self.position as nat)
    }
}

impl Lexer {
    pub closed spec fn wf(&self) -> bool {
        &&& self.chars@ == self.input@
        &&& self.position <= self.chars@.len()
    }

    /// A scanner positioned at the first character of `input`.
    pub fn new(input: &str) -> (r: Lexer)
        ensures
            r.wf(),
            r@ == (input@, 0nat),
    {
        let n = input.unicode_len();
        let mut chars: Vec<char> = Vec::new();
        let mut i: usize = 0;
        while i < n
            invariant
                n == input@.len(),
                i <= n,
                chars@ == input@.subrange(0, i as int),
            decreases n - i,
        {
            chars.push(input.get_char(i));
            i = i + 1;
        }
        assert(chars@ == input@);
        Lexer { input: String::from_str(input), chars, position: 0 }
    }

    /// The character under the cursor, if any is left.
    fn current(&self) -> (r: Option<char>)
        requires
            self.wf(),
        ensures
            r == if self.position < self.input@.len() {
                Some(self.input@[self.position as int])
            } else {
                None::<char>
            },
    {
        if self.position < self.chars.len() {
            Some(self.chars[self.position])
        } else {
            None
        }
    }

    /// Moves the cursor one character on, unless it is at the end.
    fn read_char(&mut self)
        requires
            old(self).wf(),
        ensures
            final(self).wf(),
            final(self).input@ == old(self).input@,
            final(self).position == if old(self).position < old(self).input@.len() {
                old(self).position + 1
            } else {
                old(self).position as int
            },
    {
        if self.position < self.chars.len() {
            self.position = self.position + 1;
        }
    }

    /// The character after the one under the cursor, if any.
    fn look_ahead(&self) -> (r: Option<char>)
        requires
            self.wf(),
        ensures
            r == if self.position + 1 < self.input@.len() {
                Some(self.input@[self.position + 1])
            } else {
                None::<char>
            },
    {
        if self.position < self.chars.len() && self.position + 1 < self.chars.len() {
            Some(self.chars[self.position + 1])
        } else {
            None
        }
    }

    /// The source text between two indices.
    fn text(&self, from: usize, to: usize) -> (r: String)
        requires
            self.wf(),
            from <= to <= self.input@.len(),
        ensures
            r@ == self.input@.subrange(from as int, to as int),
    {
        String::from_str(self.input.as_str().substring_char(from, to))
    }

    fn skip_whitespaces(&mut self)
        requires
            old(self).wf(),
        ensures
            final(self).wf(),
            final(self).input@ == old(self).input@,
            final(self).position == skip_space(old(self).input@, old(self).position as nat),
        decreases old(self).chars@.len() - old(self).position,
    {
        let c = self.current();
        match c {
            Some(ch) => {
                if ch == ' ' || ch == '\t' || ch == '\n' || ch == '\r' {
                    self.read_char();
                    self.skip_whitespaces();
                }
            },
            None => {},
        }
    }
    /// Reads the run of letters under the cursor.
    fn read_identifier(&mut self) -> (r: String)
        requires
            old(self).wf(),
        ensures
            final(self).wf(),
            final(self).input@ == old(self).input@,
            final(self).position == letters_end(old(self).input@, old(self).position as nat),
            r@ == old(self).input@.subrange(
                old(self).position as int,
                final(self).position as int,
            ),
    {
        let start = self.position;
        let ghost s = self.input@;
        let ghost target = letters_end(s, start as nat);
        loop
            invariant
                self.wf(),
                self.input@ == s,
                start <= self.position,
                letters_end(s, self.position as nat) == target,
            ensures
                self.wf(),
                self.input@ == s,
                start <= self.position,
                self.position == target,
            decreases s.len() - self.position,
        {
            match self.current() {
                Some(c) => {
                    if is_ascii_letter(c) {
                        self.read_char();
                    } else {
                        break;
                    }
                },
                None => {
                    break;
                },
            }
        }
        self.text(start, self.position)
    }

    /// Reads the run of digits under the cursor: its text, and its value where that fits
    /// in an `i64`.
    fn read_number(&mut self) -> (r: (String, Option<i64>))
        requires
            old(self).wf(),
        ensures
            final(self).wf(),
            final(self).input@ == old(self).input@,
            final(self).position == digits_end(old(self).input@, old(self).position as nat),
            r.0@ == old(self).input@.subrange(
                old(self).position as int,
                final(self).position as int,
            ),
            r.1 == if digits_value(r.0@) <= i64::MAX {
                Some(digits_value(r.0@) as i64)
            } else {
                None::<i64>
            },
    {
        let start = self.position;
        let ghost s = self.input@;
        let ghost target = digits_end(s, start as nat);
        let mut value: Option<i64> = Some(0);
        assert(s.subrange(start as int, start as int) =~= Seq::<char>::empty());
        loop
            invariant
                self.wf(),
                self.input@ == s,
                start <= self.position,
                digits_end(s, self.position as nat) == target,
                value == if digits_value(s.subrange(start as int, self.position as int))
                    <= i64::MAX {
                    Some(digits_value(s.subrange(start as int, self.position as int)) as i64)
                } else {
                    None::<i64>
                },
            ensures
                self.wf(),
                self.input@ == s,
                start <= self.position,
                self.position == target,
                value == if digits_value(s.subrange(start as int, self.position as int))
                    <= i64::MAX {
                    Some(digits_value(s.subrange(start as int, self.position as int)) as i64)
                } else {
                    None::<i64>
                },
            decreases s.len() - self.position,
        {
            match self.current() {
                Some(c) => {
                    if is_ascii_digit(c) {
                        let ghost p = self.position as int;
                        let ghost before = digits_value(s.subrange(start as int, p));
                        let d = (c as u32 - '0' as u32) as i64;
                        proof {
                            let w = s.subrange(start as int, p + 1);
                            assert(w.drop_last() =~= s.subrange(start as int, p));
                            assert(w.last() == c);
                            assert(digits_value(w) == before * 10 + d);
                        }
                        value = match value {
                            Some(v) => match v.checked_mul(10) {
                                Some(m) => m.checked_add(d),
                                None => None,
                            },
                            None => None,
                        };
                        self.read_char();
                    } else {
                        break;
                    }
                },
                None => {
                    break;
                },
            }
        }
        (self.text(start, self.position), value)
    }

    /// Kind of a word: one of the keywords, or else an identifier.
    fn lookup_builtin(lit: &String) -> (r: TokenTypes)
        ensures
            r@ == word_kind(lit@),
    {
        proof {
            reveal_strlit("fn");
            reveal_strlit("let");
            reveal_strlit("true");
            reveal_strlit("false");
            reveal_strlit("if");
            reveal_strlit("else");
            reveal_strlit("return");
            assert("fn"@ =~= seq!['f', 'n']);
            assert("let"@ =~= seq!['l', 'e', 't']);
            assert("true"@ =~= seq!['t', 'r', 'u', 'e']);
            assert("false"@ =~= seq!['f', 'a', 'l', 's', 'e']);
            assert("if"@ =~= seq!['i', 'f']);
            assert("else"@ =~= seq!['e', 'l', 's', 'e']);
            assert("return"@ =~= seq!['r', 'e', 't', 'u', 'r', 'n']);
        }
        if is_word(lit, "fn") {
            TokenTypes::FUNCTION
        } else if is_word(lit, "let") {
            TokenTypes::LET
        } else if is_word(lit, "true") {
            TokenTypes::TRUE
        } else if is_word(lit, "false") {
            TokenTypes::FALSE
        } else if is_word(lit, "if") {
            TokenTypes::IF
        } else if is_word(lit, "else") {
            TokenTypes::ELSE
        } else if is_word(lit, "return") {
            TokenTypes::RETURN
        } else {
            TokenTypes::IDENT(lit.clone())
        }
    }

    /// Scans the next token. Whitespace is skipped; at the end of the input every call
    /// returns `EOF` and leaves the cursor where it is.
    pub fn next_token(&mut self) -> (t: Token)
        requires
            old(self).wf(),
        ensures
            final(self).wf(),
            final(self)@.0 == old(self)@.0,
            (t@, final(self)@.1) == lex(old(self)@.0, old(self)@.1),
    {
        let ghost s = self.input@;
        self.skip_whitespaces();
        let start = self.position;
        match self.current() {
            None => Token { tokentype: TokenTypes::EOF, literal: String::new() },
            Some(c) => {
                if is_ascii_letter(c) {
                    let literal = self.read_identifier();
                    let tokentype = Lexer::lookup_builtin(&literal);
                    Token { tokentype, literal }
                } else if is_ascii_digit(c) {
                    let (literal, value) = self.read_number();
                    let tokentype = match value {
                        Some(v) => TokenTypes::INT(v),
                        None => TokenTypes::ILLEGAL,
                    };
                    Token { tokentype, literal }
                } else if (c == '=' || c == '!') && self.look_ahead() == Some('=') {
                    self.read_char();
                    self.read_char();
                    let literal = self.text(start, start + 2);
                    let tokentype = if c == '=' {
                        TokenTypes::EQ
                    } else {
                        TokenTypes::NOT_EQ
                    };
                    Token { tokentype, literal }
                } else {
                    self.read_char();
                    let literal = self.text(start, start + 1);
                    assert(literal@ =~= seq![c]);
                    Token { tokentype: char_token(c), literal }
                }
            },
        }
    }
}

fn is_ascii_letter(c: char) -> (r: bool)
    ensures
        r == is_letter(c),
{
    ('a' <= c && c <= 'z') || ('A' <= c && c <= 'Z')
}

fn is_ascii_digit(c: char) -> (r: bool)
    ensures
        r == is_digit(c),
{
    '0' <= c && c <= '9'
}

/// Whether `lit` spells the word `w`.
fn is_word(lit: &String, w: &str) -> (r: bool)
    ensures
        r == (lit@ == w@),
{
    lit.eq(&String::from_str(w))
}

/// Kind of a token made of one character.
fn char_token(c: char) -> (r: TokenTypes)
    ensures
        r@ == char_kind(c),
{
    match c {
        '=' => TokenTypes::ASSIGN,
        '!' => TokenTypes::BANG,
        '+' => TokenTypes::PLUS,
        '-' => TokenTypes::MINUS,
        '/' => TokenTypes::SLASH,
        '*' => TokenTypes::ASTERISK,
        '<' => TokenTypes::LT,
        '>' => TokenTypes::GT,
        ';' => TokenTypes::SEMICOLON,
        ',' => TokenTypes::COMMA,
        '(' => TokenTypes::LPAREN,
        ')' => TokenTypes::RPAREN,
        '{' => TokenTypes::LBRACE,
        '}' => TokenTypes::RBRACE,
        _ => TokenTypes::ILLEGAL,
    }
}

} // verus!
