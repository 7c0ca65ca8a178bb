//! Tokens: the lexical categories of the language and keyword lookup.
use vstd::prelude::*;
use vstd::string::{StrSliceExecFns, StringExecFns};

verus! {

/// A token. `Identifier` and `Integer` carry the source text they were read from.
#[derive(Debug, Clone, Copy)]
pub enum Token<'a> {
    Illegal,
    Eof,
    Identifier(&'a str),
    Integer(&'a str),
    Assign,
    Plus,
    Minus,
    Bang,
    Asterisk,
    Slash,
    Equal,
    NotEqual,
    LessThan,
    GreaterThan,
    Comma,
    Semicolon,
    LParen,
    RParen,
    LCurly,
    RCurly,
    Function,
    Let,
    True,
    False,
    If,
    Else,
    Return,
}

/// Mathematical model of a token: its text, where it has one, as a sequence of characters.
pub enum SpecToken {
    Illegal,
    Eof,
    Identifier(Seq<char>),
    Integer(Seq<char>),
    Assign,
    Plus,
    Minus,
    Bang,
    Asterisk,
    Slash,
    Equal,
    NotEqual,
    LessThan,
    GreaterThan,
    Comma,
    Semicolon,
    LParen,
    RParen,
    LCurly,
    RCurly,
    Function,
    Let,
    True,
    False,
    If,
    Else,
    Return,
}

impl<'a> View for Token<'a> {
    type V = SpecToken;

    open spec fn view(&self) -> SpecToken {
        match *self {
            Token::Illegal => SpecToken::Illegal,
            Token::Eof => SpecToken::Eof,
            Token::Identifier(s) => SpecToken::Identifier(s@),
            Token::Integer(s) => SpecToken::Integer(s@),
            Token::Assign => SpecToken::Assign,
            Token::Plus => SpecToken::Plus,
            Token::Minus => SpecToken::Minus,
            Token::Bang => SpecToken::Bang,
            Token::Asterisk => SpecToken::Asterisk,
            Token::Slash => SpecToken::Slash,
            Token::Equal => SpecToken::Equal,
            Token::NotEqual => SpecToken::NotEqual,
            Token::LessThan => SpecToken::LessThan,
            Token::GreaterThan => SpecToken::GreaterThan,
            Token::Comma => SpecToken::Comma,
            Token::Semicolon => SpecToken::Semicolon,
            Token::LParen => SpecToken::LParen,
            Token::RParen => SpecToken::RParen,
            Token::LCurly => SpecToken::LCurly,
            Token::RCurly => SpecToken::RCurly,
            Token::Function => SpecToken::Function,
            Token::Let => SpecToken::Let,
            Token::True => SpecToken::True,
            Token::False => SpecToken::False,
            Token::If => SpecToken::If,
            Token::Else => SpecToken::Else,
            Token::Return => SpecToken::Return,
        }
    }
}

/// The token that an identifier-shaped word stands for: one of the seven
/// reserved words, or else an identifier carrying the word.
pub open spec fn classify_word(w: Seq<char>) -> SpecToken {
    if w == seq!['f', 'n'] {
        SpecToken::Function
    } else if w == seq!['l', 'e', 't'] {
        SpecToken::Let
    } else if w == seq!['t', 'r', 'u', 'e'] {
        SpecToken::True
    } else if w == seq!['f', 'a', 'l', 's', 'e'] {
        SpecToken::False
    } else if w == seq!['i', 'f'] {
        SpecToken::If
    } else if w == seq!['e', 'l', 's', 'e'] {
        SpecToken::Else
    } else if w == seq!['r', 'e', 't', 'u', 'r', 'n'] {
        SpecToken::Return
    } else {
        SpecToken::Identifier(w)
    }
}

/// Whether `s` holds exactly the characters of `w`.
pub fn text_is(s: &str, w: &str) -> (r: bool)
    ensures
        r == (s@ == w@),
{
    let n = s.unicode_len();
    let m = w.unicode_len();
    if n != m {
        return false;
    }
    let mut i: usize = 0;
    while i < n
        invariant
            n == s@.len(),
            m == w@.len(),
            n == m,
            i <= n,
            s@.subrange(0, i as int) == w@.subrange(0, i as int),
        decreases n - i,
    {
        if s.get_char(i) != w.get_char(i) {
            assert(s@[i as int] != w@[i as int]);
            return false;
        }
        assert(s@.subrange(0, i + 1) == s@.subrange(0, i as int).push(s@[i as int]));
        assert(w@.subrange(0, i + 1) == w@.subrange(0, i as int).push(w@[i as int]));
        i = i + 1;
    }
    assert(s@ == s@.subrange(0, n as int));
    assert(w@ == w@.subrange(0, n as int));
    true
}

impl<'a> Token<'a> {
    /// Classifies an identifier-shaped word: a reserved word becomes its keyword
    /// token, any other word an `Identifier` carrying it.
    pub fn lookup_ident(word: &'a str) -> (r: Token<'a>)
        ensures
            r@ == classify_word(word@),
            r is Identifier ==> r->Identifier_0 == word,
    {
        proof {
            reveal_strlit("fn");
            assert("fn"@ =~= seq!['f', 'n']);
            reveal_strlit("let");
            assert("let"@ =~= seq!['l', 'e', 't']);
            reveal_strlit("true");
            assert("true"@ =~= seq!['t', 'r', 'u', 'e']);
            reveal_strlit("false");
            assert("false"@ =~= seq!['f', 'a', 'l', 's', 'e']);
            reveal_strlit("if");
            assert("if"@ =~= seq!['i', 'f']);
            reveal_strlit("else");
            assert("else"@ =~= seq!['e', 'l', 's', 'e']);
            reveal_strlit("return");
            assert("return"@ =~= seq!['r', 'e', 't', 'u', 'r', 'n']);
        }
        if text_is(word, "fn") {
            Token::Function
        } else if text_is(word, "let") {
            Token::Let
        } else if text_is(word, "true") {
            Token::True
        } else if text_is(word, "false") {
            Token::False
        } else if text_is(word, "if") {
            Token::If
        } else if text_is(word, "else") {
            Token::Else
        } else if text_is(word, "return") {
            Token::Return
        } else {
            Token::Identifier(word)
        }
    }
}


/// Position of a token's variant in the list of variants.
pub open spec fn variant_index(t: SpecToken) -> u8 {
    match t {
        SpecToken::Illegal => 0,
        SpecToken::Eof => 1,
        SpecToken::Identifier(_) => 2,
        SpecToken::Integer(_) => 3,
        SpecToken::Assign => 4,
        SpecToken::Plus => 5,
        SpecToken::Minus => 6,
        SpecToken::Bang => 7,
        SpecToken::Asterisk => 8,
        SpecToken::Slash => 9,
        SpecToken::Equal => 10,
        SpecToken::NotEqual => 11,
        SpecToken::LessThan => 12,
        SpecToken::GreaterThan => 13,
        SpecToken::Comma => 14,
        SpecToken::Semicolon => 15,
        SpecToken::LParen => 16,
        SpecToken::RParen => 17,
        SpecToken::LCurly => 18,
        SpecToken::RCurly => 19,
        SpecToken::Function => 20,
        SpecToken::Let => 21,
        SpecToken::True => 22,
        SpecToken::False => 23,
        SpecToken::If => 24,
        SpecToken::Else => 25,
        SpecToken::Return => 26,
    }
}

impl<'a> Token<'a> {
    fn variant(&self) -> (r: u8)
        ensures
            r == variant_index(self@),
    {
        match self {
            Token::Illegal => 0,
            Token::Eof => 1,
            Token::Identifier(_) => 2,
            Token::Integer(_) => 3,
            Token::Assign => 4,
            Token::Plus => 5,
            Token::Minus => 6,
            Token::Bang => 7,
            Token::Asterisk => 8,
            Token::Slash => 9,
            Token::Equal => 10,
            Token::NotEqual => 11,
            Token::LessThan => 12,
            Token::GreaterThan => 13,
            Token::Comma => 14,
            Token::Semicolon => 15,
            Token::LParen => 16,
            Token::RParen => 17,
            Token::LCurly => 18,
            Token::RCurly => 19,
            Token::Function => 20,
            Token::Let => 21,
            Token::True => 22,
            Token::False => 23,
            Token::If => 24,
            Token::Else => 25,
            Token::Return => 26,
        }
    }

    /// Same variant and, where there is one, the same text.
    pub fn same_as(&self, other: &Token) -> (r: bool)
        ensures
            r == (self@ == other@),
    {
        match (self, other) {
            (Token::Identifier(a), Token::Identifier(b)) => text_is(a, b),
            (Token::Integer(a), Token::Integer(b)) => text_is(a, b),
            _ => {
                let v = self.variant();
                let w = other.variant();
                if v == 2 || v == 3 || w == 2 || w == 3 {
                    false
                } else {
                    v == w
                }
            },
        }
    }
}

impl<'a> PartialEq for Token<'a> {
    fn eq(&self, other: &Token<'a>) -> (r: bool) {
        self.same_as(other)
    }
}

impl<'a> vstd::std_specs::cmp::PartialEqSpecImpl for Token<'a> {
    open spec fn obeys_eq_spec() -> bool {
        true
    }

    open spec fn eq_spec(&self, other: &Token<'a>) -> bool {
        self@ == other@
    }
}


/// The lexeme a token stands for: its own text for identifiers and integers,
/// the fixed spelling for every other token.
pub open spec fn literal_of(t: SpecToken) -> Seq<char> {
    match t {
        SpecToken::Identifier(w) => w,
        SpecToken::Integer(w) => w,
        SpecToken::Illegal => seq!['I', 'L', 'L', 'E', 'G', 'A', 'L'],
        SpecToken::Eof => seq!['E', 'O', 'F'],
        SpecToken::Assign => seq!['='],
        SpecToken::Plus => seq!['+'],
        SpecToken::Minus => seq!['-'],
        SpecToken::Bang => seq!['!'],
        SpecToken::Asterisk => seq!['*'],
        SpecToken::Slash => seq!['/'],
        SpecToken::Equal => seq!['=', '='],
        SpecToken::NotEqual => seq!['!', '='],
        SpecToken::LessThan => seq!['<'],
        SpecToken::GreaterThan => seq!['>'],
        SpecToken::Comma => seq![','],
        SpecToken::Semicolon => seq![';'],
        SpecToken::LParen => seq!['('],
        SpecToken::RParen => seq![')'],
        SpecToken::LCurly => seq!['{'],
        SpecToken::RCurly => seq!['}'],
        SpecToken::Function => seq!['f', 'n'],
        SpecToken::Let => seq!['l', 'e', 't'],
        SpecToken::True => seq!['t', 'r', 'u', 'e'],
        SpecToken::False => seq!['f', 'a', 'l', 's', 'e'],
        SpecToken::If => seq!['i', 'f'],
        SpecToken::Else => seq!['e', 'l', 's', 'e'],
        SpecToken::Return => seq!['r', 'e', 't', 'u', 'r', 'n'],
    }
}

impl<'a> Token<'a> {
    /// The lexeme of `t` as a string slice.
    pub fn literal(&self) -> (r: &'a str)
        ensures
            r@ == literal_of(self@),
    {
        proof {
            reveal_strlit("ILLEGAL");
            assert("ILLEGAL"@ =~= seq!['I', 'L', 'L', 'E', 'G', 'A', 'L']);
            reveal_strlit("EOF");
            assert("EOF"@ =~= seq!['E', 'O', 'F']);
            reveal_strlit("=");
            assert("="@ =~= seq!['=']);
            reveal_strlit("+");
            assert("+"@ =~= seq!['+']);
            reveal_strlit("-");
            assert("-"@ =~= seq!['-']);
            reveal_strlit("!");
            assert("!"@ =~= seq!['!']);
            reveal_strlit("*");
            assert("*"@ =~= seq!['*']);
            reveal_strlit("/");
            assert("/"@ =~= seq!['/']);
            reveal_strlit("==");
            assert("=="@ =~= seq!['=', '=']);
            reveal_strlit("!=");
            assert("!="@ =~= seq!['!', '=']);
            reveal_strlit("<");
            assert("<"@ =~= seq!['<']);
            reveal_strlit(">");
            assert(">"@ =~= seq!['>']);
            reveal_strlit(",");
            assert(","@ =~= seq![',']);
            reveal_strlit(";");
            assert(";"@ =~= seq![';']);
            reveal_strlit("(");
            assert("("@ =~= seq!['(']);
            reveal_strlit(")");
            assert(")"@ =~= seq![')']);
            reveal_strlit("{");
            assert("{"@ =~= seq!['{']);
            reveal_strlit("}");
            assert("}"@ =~= seq!['}']);
            reveal_strlit("fn");
            assert("fn"@ =~= seq!['f', 'n']);
            reveal_strlit("let");
            assert("let"@ =~= seq!['l', 'e', 't']);
            reveal_strlit("true");
            assert("true"@ =~= seq!['t', 'r', 'u', 'e']);
            reveal_strlit("false");
            assert("false"@ =~= seq!['f', 'a', 'l', 's', 'e']);
            reveal_strlit("if");
            assert("if"@ =~= seq!['i', 'f']);
            reveal_strlit("else");
            assert("else"@ =~= seq!['e', 'l', 's', 'e']);
            reveal_strlit("return");
            assert("return"@ =~= seq!['r', 'e', 't', 'u', 'r', 'n']);
        }
        match *self {
            Token::Identifier(w) => w,
            Token::Integer(w) => w,
            Token::Illegal => "ILLEGAL",
            Token::Eof => "EOF",
            Token::Assign => "=",
            Token::Plus => "+",
            Token::Minus => "-",
            Token::Bang => "!",
            Token::Asterisk => "*",
            Token::Slash => "/",
            Token::Equal => "==",
            Token::NotEqual => "!=",
            Token::LessThan => "<",
            Token::GreaterThan => ">",
            Token::Comma => ",",
            Token::Semicolon => ";",
            Token::LParen => "(",
            Token::RParen => ")",
            Token::LCurly => "{",
            Token::RCurly => "}",
            Token::Function => "fn",
            Token::Let => "let",
            Token::True => "true",
            Token::False => "false",
            Token::If => "if",
            Token::Else => "else",
            Token::Return => "return",
        }
    }

    /// The lexeme of `t` as an owned string.
    pub fn lookup_literal(t: &Token) -> (r: String)
        ensures
            r@ == literal_of(t@),
    {
        String::from_str(t.literal())
    }
}

} // verus!
