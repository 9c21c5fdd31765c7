//! The token model: a closed classification of lexical units.

use vstd::prelude::*;
use vstd::string::*;

verus! {

/// The kind of a lexical unit.
#[allow(dead_code)]
#[derive(Debug, PartialEq, Eq, Clone, Copy, Structural)]
pub enum TokenType {
    Illegal,
    EOF,
    Ident,
    Int,
    Assign,
    Plus,
    Comma,
    SemiColon,
    Lparen,
    Rparen,
    Lbrace,
    Rbrace,
    Function,
    Let,
    Equal,
    NotEq,
}

/// A classified lexeme: its kind and its raw text.
#[derive(Debug)]
pub struct Token {
    pub typo: TokenType,
    pub literal: String,
}

/// The mathematical value of a token.
pub struct TokenView {
    pub typo: TokenType,
    pub literal: Seq<char>,
}

impl View for Token {
    type V = TokenView;

    open spec fn view(&self) -> TokenView {
        TokenView { typo: self.typo, literal: self.literal@ }
    }
}

/// The keyword table: the kind of an identifier-shaped lexeme.
pub open spec fn keyword_kind(text: Seq<char>) -> TokenType {
    if text == seq!['l', 'e', 't'] {
        TokenType::Let
    } else if text == seq!['f', 'n'] {
        TokenType::Function
    } else {
        TokenType::Ident
    }
}

/// The text of a token whose kind allows one text only.  Names, integers
/// and illegal characters have no fixed text.
pub open spec fn fixed_text(kind: TokenType) -> Option<Seq<char>> {
    match kind {
        TokenType::Illegal => None,
        TokenType::EOF => Some(seq!['\0']),
        TokenType::Ident => None,
        TokenType::Int => None,
        TokenType::Assign => Some(seq!['=']),
        TokenType::Plus => Some(seq!['+']),
        TokenType::Comma => Some(seq![',']),
        TokenType::SemiColon => Some(seq![';']),
        TokenType::Lparen => Some(seq!['(']),
        TokenType::Rparen => Some(seq![')']),
        TokenType::Lbrace => Some(seq!['{']),
        TokenType::Rbrace => Some(seq!['}']),
        TokenType::Function => Some(seq!['f', 'n']),
        TokenType::Let => Some(seq!['l', 'e', 't']),
        TokenType::Equal => Some(seq!['=', '=']),
        TokenType::NotEq => Some(seq!['!', '=']),
    }
}

/// Resolves an identifier-shaped lexeme against the keyword table.
pub fn lookup_ident(text: &String) -> (kind: TokenType)
    ensures
        kind == keyword_kind(text@),
{
    proof {
        reveal_strlit("let");
        reveal_strlit("fn");
        assert("let"@ =~= seq!['l', 'e', 't']);
        assert("fn"@ =~= seq!['f', 'n']);
    }
    if *text == String::from_str("let") {
        TokenType::Let
    } else if *text == String::from_str("fn") {
        TokenType::Function
    } else {
        TokenType::Ident
    }
}

impl Token {
    pub fn new(typo: TokenType, literal: String) -> (tok: Self)
        ensures
            tok.typo == typo,
            tok.literal == literal,
    {
        Token { typo, literal }
    }
}

impl PartialEq for Token {
    fn eq(&self, other: &Self) -> (equal: bool) {
        self.typo == other.typo && self.literal == other.literal
    }
}

impl vstd::std_specs::cmp::PartialEqSpecImpl for Token {
    open spec fn obeys_eq_spec() -> bool {
        true
    }

    open spec fn eq_spec(&self, other: &Self) -> bool {
        self.typo == other.typo && self.literal@ == other.literal@
    }
}

impl Clone for Token {
    fn clone(&self) -> (res: Self)
        ensures
            res == *self,
    {
        Token { typo: self.typo, literal: self.literal.clone() }
    }
}

} // verus!
