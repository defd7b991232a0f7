//! The lexer: source text to the eight commands.

use vstd::prelude::*;

verus! {

/// One of the eight commands of the language.
#[derive(PartialEq, Eq, Structural, Debug, Clone, Copy)]
pub enum Token {
    /// `<`
    LT,
    /// `>`
    GT,
    /// `+`
    PLUS,
    /// `-`
    MINUS,
    /// `.`
    DOT,
    /// `,`
    COMMA,
    /// `[`
    LSQB,
    /// `]`
    RSQB,
}

/// The command that a character stands for, if it stands for one.
pub open spec fn token_of(c: char) -> Option<Token> {
    if c == '<' {
        Some(Token::LT)
    } else if c == '>' {
        Some(Token::GT)
    } else if c == '+' {
        Some(Token::PLUS)
    } else if c == '-' {
        Some(Token::MINUS)
    } else if c == '.' {
        Some(Token::DOT)
    } else if c == ',' {
        Some(Token::COMMA)
    } else if c == '[' {
        Some(Token::LSQB)
    } else if c == ']' {
        Some(Token::RSQB)
    } else {
        None
    }
}

/// The commands of a text, in order; every other character is skipped.
pub open spec fn lex(s: Seq<char>) -> Seq<Token>
    decreases s.len(),
{
    if s.len() == 0 {
        Seq::empty()
    } else {
        match token_of(s.last()) {
            Some(t) => lex(s.drop_last()).push(t),
            None => lex(s.drop_last()),
        }
    }
}

/// A text has no more commands than characters.
pub proof fn lemma_lex_len(s: Seq<char>)
    ensures
        lex(s).len() <= s.len(),
    decreases s.len(),
{
    if s.len() > 0 {
        lemma_lex_len(s.drop_last());
    }
}

/// Classifies one character.
pub fn classify(c: char) -> (t: Option<Token>)
    ensures
        t == token_of(c),
{
    match c {
        '<' => Some(Token::LT),
        '>' => Some(Token::GT),
        '+' => Some(Token::PLUS),
        '-' => Some(Token::MINUS),
        '.' => Some(Token::DOT),
        ',' => Some(Token::COMMA),
        '[' => Some(Token::LSQB),
        ']' => Some(Token::RSQB),
        _ => None,
    }
}

/// Reads the commands out of a source text. Characters that are no command
/// are comments and are dropped; there is no input on which lexing fails.
pub fn tokenize(codes: &str) -> (tokens: Vec<Token>)
    ensures
        tokens@ == lex(codes@),
{
    let mut tokens: Vec<Token> = Vec::new();
    for c in it: codes.chars()
        invariant
            it.seq() == codes@,
            tokens@ == lex(codes@.take(it.index() as int)),
    {
        proof {
            let k = it.index() as int;
            assert(codes@.take(k + 1).drop_last() == codes@.take(k));
        }
        match classify(c) {
            Some(t) => tokens.push(t),
            None => {},
        }
    }
    proof {
        assert(codes@.take(codes@.len() as int) == codes@);
    }
    tokens
}

} // verus!
