use vstd::prelude::*;

use crate::text::str_eq;
use crate::operators::fits;
use crate::text::push_char;
use crate::token::Token;

verus! {

pub open spec fn is_space(c: char) -> bool {
    c == ' ' || c == '\t' || c == '\n' || c == '\r'
}

pub open spec fn is_letter(c: char) -> bool {
    (97 <= (c as u32) <= 122) || (65 <= (c as u32) <= 90) || c == '_'
}

pub open spec fn is_digit(c: char) -> bool {
    48 <= (c as u32) <= 57
}

/// The first index at or after `i` that is not white space.
pub open spec fn skip_space(cs: Seq<char>, i: int) -> int
    decreases cs.len() - i,
{
    if 0 <= i < cs.len() && is_space(cs[i]) {
        skip_space(cs, i + 1)
    } else {
        i
    }
}

/// The end of the run of letters starting at `i`.
pub open spec fn letters_end(cs: Seq<char>, i: int) -> int
    decreases cs.len() - i,
{
    if 0 <= i < cs.len() && is_letter(cs[i]) {
        letters_end(cs, i + 1)
    } else {
        i
    }
}

/// The end of the run of digits starting at `i`.
pub open spec fn digits_end(cs: Seq<char>, i: int) -> int
    decreases cs.len() - i,
{
    if 0 <= i < cs.len() && is_digit(cs[i]) {
        digits_end(cs, i + 1)
    } else {
        i
    }
}

/// The index of the first `"` at or after `i`, or the end of the input.
pub open spec fn quote_end(cs: Seq<char>, i: int) -> int
    decreases cs.len() - i,
{
    if 0 <= i < cs.len() && cs[i] != '"' {
        quote_end(cs, i + 1)
    } else {
        i
    }
}

/// The number that a sequence of decimal digits denotes.
pub open spec fn digits_value(s: Seq<char>) -> int
    decreases s.len(),
{
    if s.len() == 0 {
        0
    } else {
        digits_value(s.drop_last()) * 10 + ((s.last() as u32) - 48)
    }
}

/// The keyword token spelled by `w`, if any.
pub open spec fn keyword(w: Seq<char>) -> Option<Token> {
    if w == "let"@ {
        Some(Token::Let)
    } else if w == "fn"@ {
        Some(Token::Function)
    } else if w == "if"@ {
        Some(Token::If)
    } else if w == "else"@ {
        Some(Token::Else)
    } else if w == "return"@ {
        Some(Token::Return)
    } else if w == "true"@ {
        Some(Token::True)
    } else if w == "false"@ {
        Some(Token::False)
    } else {
        None
    }
}

/// The token of a one-character symbol other than `=` and `!`.
pub open spec fn symbol(c: char) -> Option<Token> {
    if c == '+' {
        Some(Token::PlusSign)
    } else if c == '-' {
        Some(Token::MinusSign)
    } else if c == '*' {
        Some(Token::Asterisk)
    } else if c == '/' {
        Some(Token::Slash)
    } else if c == '<' {
        Some(Token::LessThan)
    } else if c == '>' {
        Some(Token::GreaterThan)
    } else if c == '(' {
        Some(Token::LeftParen)
    } else if c == ')' {
        Some(Token::RightParen)
    } else if c == '{' {
        Some(Token::LeftBrace)
    } else if c == '}' {
        Some(Token::RightBrace)
    } else if c == '[' {
        Some(Token::LeftBracket)
    } else if c == ']' {
        Some(Token::RightBracket)
    } else if c == ',' {
        Some(Token::Comma)
    } else if c == ';' {
        Some(Token::Semicolon)
    } else if c == ':' {
        Some(Token::Colon)
    } else {
        None
    }
}

/// Reading from `start` skips white space and yields `tok`, stopping at `end`.
/// A run of digits too large for a machine integer yields an illegal token
/// holding its first digit; a string runs to the next `"` or the end.
pub open spec fn lexes(cs: Seq<char>, start: int, tok: Token, end: int) -> bool {
    let p = skip_space(cs, start);
    if p >= cs.len() {
        tok == Token::Eof && end == p
    } else {
        let c = cs[p];
        if c == '=' {
            if p + 1 < cs.len() && cs[p + 1] == '=' {
                tok == Token::Equal && end == p + 2
            } else {
                tok == Token::EqualSign && end == p + 1
            }
        } else if c == '!' {
            if p + 1 < cs.len() && cs[p + 1] == '=' {
                tok == Token::NotEqual && end == p + 2
            } else {
                tok == Token::ExclamationMark && end == p + 1
            }
        } else if c == '"' {
            let q = quote_end(cs, p + 1);
            &&& tok is String
            &&& tok->String_0@ == cs.subrange(p + 1, q)
            &&& end == if q < cs.len() { q + 1 } else { q }
        } else if is_letter(c) {
            let q = letters_end(cs, p);
            let w = cs.subrange(p, q);
            &&& end == q
            &&& match keyword(w) {
                Some(k) => tok == k,
                None => tok is Identifier && tok->Identifier_0@ == w,
            }
        } else if is_digit(c) {
            let q = digits_end(cs, p);
            let v = digits_value(cs.subrange(p, q));
            &&& end == q
            &&& if fits(v) {
                tok == Token::Integer(v as isize)
            } else {
                tok == Token::Illegal(c)
            }
        } else {
            &&& end == p + 1
            &&& match symbol(c) {
                Some(t) => tok == t,
                None => tok == Token::Illegal(c),
            }
        }
    }
}

/// The characters of a string, in order.
fn chars_of(s: &str) -> (r: Vec<char>)
    ensures
        r@ == s@,
{
    let mut out: Vec<char> = Vec::new();
    for c in it: s.chars()
        invariant
            out@ == it.seq().subrange(0, it.index() as int),
            it.seq() == s@,
    {
        out.push(c);
    }
    out
}

/// Reads tokens from source text, one at a time.
pub struct Lexer {
    chars: Vec<char>,
    position: usize,
}

impl Lexer {
    /// The source text.
    pub closed spec fn text(&self) -> Seq<char> {
        self.chars@
    }

    /// The index of the current character; the length when all is read.
    pub closed spec fn pos(&self) -> int {
        self.position as int
    }

    pub closed spec fn wf(&self) -> bool {
        self.position <= self.chars@.len()
    }

    /// A lexer at the start of `input`.
    pub fn new(input: String) -> (r: Lexer)
        ensures
            r.wf(),
            r.text() == input@,
            r.pos() == 0,
    {
        Lexer { chars: chars_of(input.as_str()), position: 0 }
    }

    fn current(&self) -> (r: Option<char>)
        requires
            self.wf(),
        ensures
            r == (if self.pos() < self.text().len() {
                Some(self.text()[self.pos()])
            } else {
                None::<char>
            }),
    {
        if self.position < self.chars.len() {
            Some(self.chars[self.position])
        } else {
            None
        }
    }

    /// Moves to the next character, if any is left.
    pub fn read_char(&mut self)
        requires
            old(self).wf(),
        ensures
            final(self).wf(),
            final(self).text() == old(self).text(),
            final(self).pos() == if old(self).pos() < old(self).text().len() {
                old(self).pos() + 1
            } else {
                old(self).pos()
            },
    {
        if self.position < self.chars.len() {
            self.position = self.position + 1;
        }
    }

    /// The character after the current one, if any.
    pub fn peek_char(&self) -> (r: Option<char>)
        requires
            self.wf(),
        ensures
            r == (if self.pos() + 1 < self.text().len() {
                Some(self.text()[self.pos() + 1])
            } else {
                None::<char>
            }),
    {
        if self.position < self.chars.len() && self.chars.len() - self.position > 1 {
            Some(self.chars[self.position + 1])
        } else {
            None
        }
    }
}

fn space(c: char) -> (r: bool)
    ensures
        r == is_space(c),
{
    c == ' ' || c == '\t' || c == '\n' || c == '\r'
}

fn letter(c: char) -> (r: bool)
    ensures
        r == is_letter(c),
{
    let u = c as u32;
    (97 <= u && u <= 122) || (65 <= u && u <= 90) || c == '_'
}

fn digit(c: char) -> (r: bool)
    ensures
        r == is_digit(c),
{
    let u = c as u32;
    48 <= u && u <= 57
}

fn symbol_token(c: char) -> (r: Option<Token>)
    ensures
        r == symbol(c),
{
    if c == '+' {
        Some(Token::PlusSign)
    } else if c == '-' {
        Some(Token::MinusSign)
    } else if c == '*' {
        Some(Token::Asterisk)
    } else if c == '/' {
        Some(Token::Slash)
    } else if c == '<' {
        Some(Token::LessThan)
    } else if c == '>' {
        Some(Token::GreaterThan)
    } else if c == '(' {
        Some(Token::LeftParen)
    } else if c == ')' {
        Some(Token::RightParen)
    } else if c == '{' {
        Some(Token::LeftBrace)
    } else if c == '}' {
        Some(Token::RightBrace)
    } else if c == '[' {
        Some(Token::LeftBracket)
    } else if c == ']' {
        Some(Token::RightBracket)
    } else if c == ',' {
        Some(Token::Comma)
    } else if c == ';' {
        Some(Token::Semicolon)
    } else if c == ':' {
        Some(Token::Colon)
    } else {
        None
    }
}

fn keyword_token(w: &String) -> (r: Option<Token>)
    ensures
        r == keyword(w@),
{
    let w = w.as_str();
    if str_eq(w, "let") {
        Some(Token::Let)
    } else if str_eq(w, "fn") {
        Some(Token::Function)
    } else if str_eq(w, "if") {
        Some(Token::If)
    } else if str_eq(w, "else") {
        Some(Token::Else)
    } else if str_eq(w, "return") {
        Some(Token::Return)
    } else if str_eq(w, "true") {
        Some(Token::True)
    } else if str_eq(w, "false") {
        Some(Token::False)
    } else {
        None
    }
}

pub proof fn lemma_digits_grow(s: Seq<char>, c: char)
    requires
        is_digit(c),
        digits_value(s) >= 0,
    ensures
        digits_value(s.push(c)) == digits_value(s) * 10 + ((c as u32) - 48),
        digits_value(s.push(c)) >= digits_value(s),
{
    assert(s.push(c).drop_last() =~= s);
}

impl Lexer {
    fn skip_whitespace(&mut self)
        requires
            old(self).wf(),
        ensures
            final(self).wf(),
            final(self).text() == old(self).text(),
            final(self).pos() == skip_space(old(self).text(), old(self).pos()),
    {
        while self.position < self.chars.len() && space(self.chars[self.position])
            invariant
                self.wf(),
                self.chars@ == old(self).chars@,
                skip_space(self.chars@, old(self).pos()) == skip_space(self.chars@, self.pos()),
            decreases self.chars@.len() - self.position,
        {
            self.position = self.position + 1;
        }
    }

    fn read_identifier(&mut self) -> (r: String)
        requires
            old(self).wf(),
        ensures
            final(self).wf(),
            final(self).text() == old(self).text(),
            final(self).pos() == letters_end(old(self).text(), old(self).pos()),
            r@ == old(self).text().subrange(old(self).pos(), final(self).pos()),
    {
        let start = self.position;
        let mut word = String::new();
        while self.position < self.chars.len() && letter(self.chars[self.position])
            invariant
                self.wf(),
                start <= self.position,
                self.chars@ == old(self).chars@,
                start == old(self).pos(),
                letters_end(self.chars@, start as int) == letters_end(self.chars@, self.pos()),
                word@ == self.chars@.subrange(start as int, self.pos()),
            decreases self.chars@.len() - self.position,
        {
            push_char(&mut word, self.chars[self.position]);
            self.position = self.position + 1;
            assert(word@ =~= self.chars@.subrange(start as int, self.pos()));
        }
        word
    }

    /// Reads a run of digits; `None` when its value does not fit.
    fn read_integer(&mut self) -> (r: Option<isize>)
        requires
            old(self).wf(),
        ensures
            final(self).wf(),
            final(self).text() == old(self).text(),
            final(self).pos() == digits_end(old(self).text(), old(self).pos()),
            ({
                let v = digits_value(old(self).text().subrange(old(self).pos(), final(self).pos()));
                r == if fits(v) { Some(v as isize) } else { None::<isize> }
            }),
    {
        let start = self.position;
        let mut value: isize = 0;
        let mut overflow = false;
        proof {
            assert(self.chars@.subrange(start as int, start as int) =~= Seq::<char>::empty());
        }
        while self.position < self.chars.len() && digit(self.chars[self.position])
            invariant
                self.wf(),
                start <= self.position,
                self.chars@ == old(self).chars@,
                start == old(self).pos(),
                digits_end(self.chars@, start as int) == digits_end(self.chars@, self.pos()),
                ({
                    let v = digits_value(self.chars@.subrange(start as int, self.pos()));
                    &&& overflow ==> !fits(v)
                    &&& !overflow ==> value as int == v
                    &&& v >= 0
                }),
            decreases self.chars@.len() - self.position,
        {
            let c = self.chars[self.position];
            let d = (c as u32 - 48) as isize;
            let ghost before = self.chars@.subrange(start as int, self.pos());
            proof {
                lemma_digits_grow(before, c);
                assert(self.chars@.subrange(start as int, self.pos() + 1) =~= before.push(c));
            }
            if !overflow {
                match value.checked_mul(10) {
                    Some(t) => match t.checked_add(d) {
                        Some(n) => {
                            value = n;
                        },
                        None => {
                            overflow = true;
                        },
                    },
                    None => {
                        overflow = true;
                    },
                }
            }
            self.position = self.position + 1;
        }
        if overflow {
            None
        } else {
            Some(value)
        }
    }

    /// Reads a string body after its opening quote, up to the closing quote
    /// or the end, and moves past the closing quote.
    fn read_string(&mut self) -> (r: String)
        requires
            old(self).wf(),
        ensures
            final(self).wf(),
            final(self).text() == old(self).text(),
            ({
                let q = quote_end(old(self).text(), old(self).pos());
                &&& r@ == old(self).text().subrange(old(self).pos(), q)
                &&& final(self).pos() == if q < old(self).text().len() { q + 1 } else { q }
            }),
    {
        let start = self.position;
        let mut body = String::new();
        while self.position < self.chars.len() && self.chars[self.position] != '"'
            invariant
                self.wf(),
                start <= self.position,
                self.chars@ == old(self).chars@,
                start == old(self).pos(),
                quote_end(self.chars@, start as int) == quote_end(self.chars@, self.pos()),
                body@ == self.chars@.subrange(start as int, self.pos()),
            decreases self.chars@.len() - self.position,
        {
            push_char(&mut body, self.chars[self.position]);
            self.position = self.position + 1;
            assert(body@ =~= self.chars@.subrange(start as int, self.pos()));
        }
        if self.position < self.chars.len() {
            self.position = self.position + 1;
        }
        body
    }

    /// Skips white space and reads the next token; at the end of the input,
    /// and from then on, the end marker.
    pub fn next_token(&mut self) -> (t: Token)
        requires
            old(self).wf(),
        ensures
            final(self).wf(),
            final(self).text() == old(self).text(),
            lexes(old(self).text(), old(self).pos(), t, final(self).pos()),
    {
        self.skip_whitespace();
        if self.position >= self.chars.len() {
            return Token::Eof;
        }
        let c = self.chars[self.position];
        if c == '=' {
            if self.position < self.chars.len() && self.chars.len() - self.position > 1
                && self.chars[self.position + 1] == '=' {
                self.position = self.position + 2;
                Token::Equal
            } else {
                self.position = self.position + 1;
                Token::EqualSign
            }
        } else if c == '!' {
            if self.position < self.chars.len() && self.chars.len() - self.position > 1
                && self.chars[self.position + 1] == '=' {
                self.position = self.position + 2;
                Token::NotEqual
            } else {
                self.position = self.position + 1;
                Token::ExclamationMark
            }
        } else if c == '"' {
            self.position = self.position + 1;
            Token::String(self.read_string())
        } else if letter(c) {
            let word = self.read_identifier();
            match keyword_token(&word) {
                Some(k) => k,
                None => Token::Identifier(word),
            }
        } else if digit(c) {
            match self.read_integer() {
                Some(v) => Token::Integer(v),
                None => Token::Illegal(c),
            }
        } else {
            self.position = self.position + 1;
            match symbol_token(c) {
                Some(t) => t,
                None => Token::Illegal(c),
            }
        }
    }
}

impl Lexer {
    pub proof fn lemma_pos_bound(&self)
        requires
            self.wf(),
        ensures
            0 <= self.pos() <= self.text().len(),
    {
    }
}

} // verus!
