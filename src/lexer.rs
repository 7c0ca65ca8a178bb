//! The scanner: a forward-only stream of tokens read from a source string.
use vstd::prelude::*;
use vstd::string::StrSliceExecFns;
use crate::chars::{alphabetic, is_alphabetic, is_numeric, is_whitespace, numeric, white_space};
use crate::token::{classify_word, SpecToken, Token};

verus! {

/// First index at or after `i` that does not hold a whitespace character.
pub open spec fn skip_ws(s: Seq<char>, i: int) -> int
    decreases s.len() - i,
{
    if 0 <= i < s.len() && white_space(s[i]) {
        skip_ws(s, i + 1)
    } else {
        i
    }
}

/// End of the run of alphabetic characters that starts at `i`.
pub open spec fn word_end(s: Seq<char>, i: int) -> int
    decreases s.len() - i,
{
    if 0 <= i < s.len() && alphabetic(s[i]) {
        word_end(s, i + 1)
    } else {
        i
    }
}

/// End of the run of numeric characters that starts at `i`.
pub open spec fn number_end(s: Seq<char>, i: int) -> int
    decreases s.len() - i,
{
    if 0 <= i < s.len() && numeric(s[i]) {
        number_end(s, i + 1)
    } else {
        i
    }
}

/// The token for the single character `c`, where it is one of the punctuation
/// or operator characters that need no lookahead.
pub open spec fn single_char_token(c: char) -> Option<SpecToken> {
    if c == '+' {
        Some(SpecToken::Plus)
    } else if c == '-' {
        Some(SpecToken::Minus)
    } else if c == '*' {
        Some(SpecToken::Asterisk)
    } else if c == '/' {
        Some(SpecToken::Slash)
    } else if c == '<' {
        Some(SpecToken::LessThan)
    } else if c == '>' {
        Some(SpecToken::GreaterThan)
    } else if c == ',' {
        Some(SpecToken::Comma)
    } else if c == ';' {
        Some(SpecToken::Semicolon)
    } else if c == '(' {
        Some(SpecToken::LParen)
    } else if c == ')' {
        Some(SpecToken::RParen)
    } else if c == '{' {
        Some(SpecToken::LCurly)
    } else if c == '}' {
        Some(SpecToken::RCurly)
    } else {
        None
    }
}

/// The token that starts at index `j` (not whitespace, inside `s`), and the
/// index just past it.
pub open spec fn token_at(s: Seq<char>, j: int) -> (SpecToken, int) {
    let c = s[j];
    let next_is_eq = j + 1 < s.len() && s[j + 1] == '=';
    if c == '=' {
        if next_is_eq {
            (SpecToken::Equal, j + 2)
        } else {
            (SpecToken::Assign, j + 1)
        }
    } else if c == '!' {
        if next_is_eq {
            (SpecToken::NotEqual, j + 2)
        } else {
            (SpecToken::Bang, j + 1)
        }
    } else if single_char_token(c) is Some {
        (single_char_token(c)->Some_0, j + 1)
    } else if alphabetic(c) {
        (classify_word(s.subrange(j, word_end(s, j))), word_end(s, j))
    } else if numeric(c) {
        (SpecToken::Integer(s.subrange(j, number_end(s, j))), number_end(s, j))
    } else {
        (SpecToken::Illegal, j + 1)
    }
}

/// One step of the scanner on the characters `s` from index `i`: the next
/// token and the index where scanning goes on. At the end of input it is
/// `Eof`, and the index stays where it is.
pub open spec fn scan(s: Seq<char>, i: int) -> (SpecToken, int) {
    let j = skip_ws(s, i);
    if j >= s.len() {
        (SpecToken::Eof, i)
    } else {
        token_at(s, j)
    }
}

/// Reads tokens from a borrowed source string, one character of lookahead at a time.
#[derive(Debug, Clone, Copy)]
pub struct Lexer<'a> {
    input: &'a str,
    len: usize,
    position: usize,
    ch: Option<char>,
}

impl<'a> Lexer<'a> {
    /// The source characters.
    pub closed spec fn chars(&self) -> Seq<char> {
        self.input@
    }

    /// Index of the character under the cursor.
    pub closed spec fn pos(&self) -> int {
        self.position as int
    }

    pub closed spec fn wf(&self) -> bool {
        &&& self.len == self.input@.len()
        &&& self.position <= self.len
        &&& self.ch == if self.position < self.len {
            Some(self.input@[self.position as int])
        } else {
            None::<char>
        }
    }

    /// A scanner at the first character of `input`.
    pub fn new(input: &'a str) -> (r: Lexer<'a>)
        ensures
            r.wf(),
            r.chars() == input@,
            r.pos() == 0,
    {
        let len = input.unicode_len();
        let ch = if len > 0 {
            Some(input.get_char(0))
        } else {
            None
        };
        Lexer { input, len, position: 0, ch }
    }

    /// Moves the cursor one character on, unless it is at the end already.
    fn read_char(&mut self)
        requires
            old(self).wf(),
        ensures
            final(self).wf(),
            final(self).input == old(self).input,
            final(self).position == if old(self).position < old(self).len {
                old(self).position + 1
            } else {
                old(self).position as int
            },
    {
        if self.position < self.len {
            self.position = self.position + 1;
            self.ch = if self.position < self.len {
                Some(self.input.get_char(self.position))
            } else {
                None
            };
        }
    }

    /// The character after the cursor, if any.
    fn peek_char(&self) -> (r: Option<char>)
        requires
            self.wf(),
        ensures
            r == if self.position + 1 < self.len {
                Some(self.input@[self.position + 1])
            } else {
                None::<char>
            },
    {
        if self.position < self.len && self.position + 1 < self.len {
            Some(self.input.get_char(self.position + 1))
        } else {
            None
        }
    }

    fn skip_whitespace(&mut self)
        requires
            old(self).wf(),
        ensures
            final(self).wf(),
            final(self).input == old(self).input,
            final(self).pos() == skip_ws(old(self).chars(), old(self).pos()),
    {
        while self.ch.is_some() && is_whitespace(self.ch.unwrap())
            invariant
                self.wf(),
                self.input == old(self).input,
                old(self).pos() <= self.pos(),
                skip_ws(self.chars(), self.pos()) == skip_ws(old(self).chars(), old(self).pos()),
            decreases self.len - self.position,
        {
            self.read_char();
        }
    }

    /// Reads the run of alphabetic characters under the cursor.
    fn read_identifier(&mut self) -> (r: &'a str)
        requires
            old(self).wf(),
        ensures
            final(self).wf(),
            final(self).input == old(self).input,
            final(self).pos() == word_end(old(self).chars(), old(self).pos()),
            r@ == old(self).chars().subrange(old(self).pos(), final(self).pos()),
    {
        let start = self.position;
        while self.ch.is_some() && is_alphabetic(self.ch.unwrap())
            invariant
                self.wf(),
                self.input == old(self).input,
                start == old(self).position <= self.position,
                word_end(self.chars(), self.pos()) == word_end(old(self).chars(), old(self).pos()),
            decreases self.len - self.position,
        {
            self.read_char();
        }
        self.input.substring_char(start, self.position)
    }

    /// Reads the run of numeric characters under the cursor.
    fn read_number(&mut self) -> (r: &'a str)
        requires
            old(self).wf(),
        ensures
            final(self).wf(),
            final(self).input == old(self).input,
            final(self).pos() == number_end(old(self).chars(), old(self).pos()),
            r@ == old(self).chars().subrange(old(self).pos(), final(self).pos()),
    {
        let start = self.position;
        while self.ch.is_some() && is_numeric(self.ch.unwrap())
            invariant
                self.wf(),
                self.input == old(self).input,
                start == old(self).position <= self.position,
                number_end(self.chars(), self.pos()) == number_end(old(self).chars(), old(self).pos()),
            decreases self.len - self.position,
        {
            self.read_char();
        }
        self.input.substring_char(start, self.position)
    }

    /// The next token of the stream. Once the input is used up it is `Eof`,
    /// on this call and every later one, and the scanner stays as it is.
    pub fn next_token(&mut self) -> (r: Token<'a>)
        requires
            old(self).wf(),
        ensures
            final(self).wf(),
            final(self).chars() == old(self).chars(),
            (r@, final(self).pos()) == scan(old(self).chars(), old(self).pos()),
            r is Eof ==> *final(self) == *old(self),
            0 <= final(self).pos() <= final(self).chars().len(),
    {
        let start = *self;
        self.skip_whitespace();
        let ch = match self.ch {
            None => {
                proof { lemma_skip_ws_stays(start.chars(), start.pos()); }
                *self = start;
                return Token::Eof;
            },
            Some(c) => c,
        };
        let token = if ch == '=' {
            if self.peek_char() == Some('=') {
                self.read_char();
                Token::Equal
            } else {
                Token::Assign
            }
        } else if ch == '+' {
            Token::Plus
        } else if ch == '-' {
            Token::Minus
        } else if ch == '!' {
            if self.peek_char() == Some('=') {
                self.read_char();
                Token::NotEqual
            } else {
                Token::Bang
            }
        } else if ch == '*' {
            Token::Asterisk
        } else if ch == '/' {
            Token::Slash
        } else if ch == '<' {
            Token::LessThan
        } else if ch == '>' {
            Token::GreaterThan
        } else if ch == ',' {
            Token::Comma
        } else if ch == ';' {
            Token::Semicolon
        } else if ch == '(' {
            Token::LParen
        } else if ch == ')' {
            Token::RParen
        } else if ch == '{' {
            Token::LCurly
        } else if ch == '}' {
            Token::RCurly
        } else if is_alphabetic(ch) {
            let literal = self.read_identifier();
            return Token::lookup_ident(literal);
        } else if is_numeric(ch) {
            let literal = self.read_number();
            return Token::Integer(literal);
        } else {
            Token::Illegal
        };
        self.read_char();
        token
    }

    /// The next token, or `None` where the stream has reached `Eof`.
    pub fn next(&mut self) -> (r: Option<Token<'a>>)
        requires
            old(self).wf(),
        ensures
            final(self).wf(),
            final(self).chars() == old(self).chars(),
            final(self).pos() == scan(old(self).chars(), old(self).pos()).1,
            match r {
                None => scan(old(self).chars(), old(self).pos()).0 is Eof,
                Some(t) => t@ == scan(old(self).chars(), old(self).pos()).0 && !(t is Eof),
            },
    {
        let token = self.next_token();
        if let Token::Eof = token {
            None
        } else {
            Some(token)
        }
    }
}

impl<'a> Lexer<'a> {
    pub proof fn lemma_bounds(&self)
        requires
            self.wf(),
        ensures
            0 <= self.pos() <= self.chars().len(),
    {
    }
}

/// Skipping whitespace stays between the start index and the end of input.
pub proof fn lemma_skip_ws_stays(s: Seq<char>, i: int)
    requires
        0 <= i <= s.len(),
    ensures
        skip_ws(s, i) >= i,
        skip_ws(s, i) <= s.len(),
    decreases s.len() - i,
{
    if i < s.len() && white_space(s[i]) {
        lemma_skip_ws_stays(s, i + 1);
    }
}

/// Once the scanner yields `Eof` it stays in place, so every later step
/// yields `Eof` again from the same position.
pub proof fn law_eof_is_final(s: Seq<char>, i: int)
    requires
        0 <= i <= s.len(),
        scan(s, i).0 is Eof,
    ensures
        scan(s, i).1 == i,
        scan(s, scan(s, i).1) == scan(s, i),
{
}

/// A run of alphabetic characters ends after its start and within the input.
pub proof fn lemma_word_end(s: Seq<char>, i: int)
    requires
        0 <= i <= s.len(),
    ensures
        i <= word_end(s, i) <= s.len(),
    decreases s.len() - i,
{
    if i < s.len() && alphabetic(s[i]) {
        lemma_word_end(s, i + 1);
    }
}

/// A run of numeric characters ends after its start and within the input.
pub proof fn lemma_number_end(s: Seq<char>, i: int)
    requires
        0 <= i <= s.len(),
    ensures
        i <= number_end(s, i) <= s.len(),
    decreases s.len() - i,
{
    if i < s.len() && numeric(s[i]) {
        lemma_number_end(s, i + 1);
    }
}

/// Every token but `Eof` consumes at least one character; `Eof` consumes none.
pub proof fn lemma_scan_progress(s: Seq<char>, i: int)
    requires
        0 <= i <= s.len(),
    ensures
        scan(s, i).0 is Eof ==> scan(s, i).1 == i,
        !(scan(s, i).0 is Eof) ==> i < scan(s, i).1 <= s.len(),
{
    lemma_skip_ws_stays(s, i);
    let j = skip_ws(s, i);
    if j < s.len() {
        lemma_word_end(s, j + 1);
        lemma_number_end(s, j + 1);
        if alphabetic(s[j]) {
            assert(word_end(s, j) == word_end(s, j + 1));
        }
        if numeric(s[j]) {
            assert(number_end(s, j) == number_end(s, j + 1));
        }
    }
}

} // verus!
