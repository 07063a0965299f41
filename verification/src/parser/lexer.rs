//! From characters to tokens.

use vstd::prelude::*;
use crate::text::{chars_of, string_is};

verus! {

/// A lexical unit. `DoubleQuote` stands for a double quote that opens no string
/// literal, since no second one follows it; `Illegal` for a character that
/// starts no token.
#[derive(PartialEq, Debug)]
pub enum Token {
    Identifier { name: String },
    Integer { string: String },
    StringLiteral { string: String },
    Let,
    If,
    Else,
    Function,
    Assign,
    Return,
    Plus,
    Minus,
    Asterisk,
    Slash,
    Bang,
    True,
    False,
    Equal,
    NotEqual,
    LessThan,
    GreaterThan,
    LessThanEqual,
    GreaterThanEqual,
    OpenParenthesis,
    CloseParenthesis,
    OpenBrace,
    CloseBrace,
    OpenSquare,
    CloseSquare,
    Comma,
    Colon,
    Semicolon,
    SingleQuote,
    DoubleQuote,
    Illegal { character: char },
}

/// What a [`Token`] stands for: the same unit, its text as a sequence.
pub enum TokenView {
    Identifier { name: Seq<char> },
    Integer { string: Seq<char> },
    StringLiteral { string: Seq<char> },
    Let,
    If,
    Else,
    Function,
    Assign,
    Return,
    Plus,
    Minus,
    Asterisk,
    Slash,
    Bang,
    True,
    False,
    Equal,
    NotEqual,
    LessThan,
    GreaterThan,
    LessThanEqual,
    GreaterThanEqual,
    OpenParenthesis,
    CloseParenthesis,
    OpenBrace,
    CloseBrace,
    OpenSquare,
    CloseSquare,
    Comma,
    Colon,
    Semicolon,
    SingleQuote,
    DoubleQuote,
    Illegal { character: char },
}

impl View for Token {
    type V = TokenView;

    open spec fn view(&self) -> TokenView {
        match self {
            Token::Identifier { name } => TokenView::Identifier { name: name@ },
            Token::Integer { string } => TokenView::Integer { string: string@ },
            Token::StringLiteral { string } => TokenView::StringLiteral { string: string@ },
            Token::Let => TokenView::Let,
            Token::If => TokenView::If,
            Token::Else => TokenView::Else,
            Token::Function => TokenView::Function,
            Token::Assign => TokenView::Assign,
            Token::Return => TokenView::Return,
            Token::Plus => TokenView::Plus,
            Token::Minus => TokenView::Minus,
            Token::Asterisk => TokenView::Asterisk,
            Token::Slash => TokenView::Slash,
            Token::Bang => TokenView::Bang,
            Token::True => TokenView::True,
            Token::False => TokenView::False,
            Token::Equal => TokenView::Equal,
            Token::NotEqual => TokenView::NotEqual,
            Token::LessThan => TokenView::LessThan,
            Token::GreaterThan => TokenView::GreaterThan,
            Token::LessThanEqual => TokenView::LessThanEqual,
            Token::GreaterThanEqual => TokenView::GreaterThanEqual,
            Token::OpenParenthesis => TokenView::OpenParenthesis,
            Token::CloseParenthesis => TokenView::CloseParenthesis,
            Token::OpenBrace => TokenView::OpenBrace,
            Token::CloseBrace => TokenView::CloseBrace,
            Token::OpenSquare => TokenView::OpenSquare,
            Token::CloseSquare => TokenView::CloseSquare,
            Token::Comma => TokenView::Comma,
            Token::Colon => TokenView::Colon,
            Token::Semicolon => TokenView::Semicolon,
            Token::SingleQuote => TokenView::SingleQuote,
            Token::DoubleQuote => TokenView::DoubleQuote,
            Token::Illegal { character } => TokenView::Illegal { character: *character },
        }
    }
}

impl DeepView for Token {
    type V = TokenView;

    open spec fn deep_view(&self) -> TokenView {
        self@
    }
}

impl Clone for Token {
    fn clone(&self) -> (copy: Self)
        ensures
            copy@ == self@,
    {
        match self {
            Token::Identifier { name } => Token::Identifier { name: name.clone() },
            Token::Integer { string } => Token::Integer { string: string.clone() },
            Token::StringLiteral { string } => Token::StringLiteral { string: string.clone() },
            Token::Let => Token::Let,
            Token::If => Token::If,
            Token::Else => Token::Else,
            Token::Function => Token::Function,
            Token::Assign => Token::Assign,
            Token::Return => Token::Return,
            Token::Plus => Token::Plus,
            Token::Minus => Token::Minus,
            Token::Asterisk => Token::Asterisk,
            Token::Slash => Token::Slash,
            Token::Bang => Token::Bang,
            Token::True => Token::True,
            Token::False => Token::False,
            Token::Equal => Token::Equal,
            Token::NotEqual => Token::NotEqual,
            Token::LessThan => Token::LessThan,
            Token::GreaterThan => Token::GreaterThan,
            Token::LessThanEqual => Token::LessThanEqual,
            Token::GreaterThanEqual => Token::GreaterThanEqual,
            Token::OpenParenthesis => Token::OpenParenthesis,
            Token::CloseParenthesis => Token::CloseParenthesis,
            Token::OpenBrace => Token::OpenBrace,
            Token::CloseBrace => Token::CloseBrace,
            Token::OpenSquare => Token::OpenSquare,
            Token::CloseSquare => Token::CloseSquare,
            Token::Comma => Token::Comma,
            Token::Colon => Token::Colon,
            Token::Semicolon => Token::Semicolon,
            Token::SingleQuote => Token::SingleQuote,
            Token::DoubleQuote => Token::DoubleQuote,
            Token::Illegal { character } => Token::Illegal { character: *character },
        }
    }
}

impl Token {
    /// Whether two tokens are the same unit with the same text.
    pub fn equals(&self, other: &Token) -> (same: bool)
        ensures
            same == (self@ == other@),
    {
        match self {
            Token::Identifier { name } => match other {
                Token::Identifier { name: other_name } => *name == *other_name,
                _ => false,
            },
            Token::Integer { string } => match other {
                Token::Integer { string: other_string } => *string == *other_string,
                _ => false,
            },
            Token::StringLiteral { string } => match other {
                Token::StringLiteral { string: other_string } => *string == *other_string,
                _ => false,
            },
            Token::Illegal { character } => match other {
                Token::Illegal { character: other_character } => *character == *other_character,
                _ => false,
            },
            Token::Let => matches!(other, Token::Let),
            Token::If => matches!(other, Token::If),
            Token::Else => matches!(other, Token::Else),
            Token::Function => matches!(other, Token::Function),
            Token::Assign => matches!(other, Token::Assign),
            Token::Return => matches!(other, Token::Return),
            Token::Plus => matches!(other, Token::Plus),
            Token::Minus => matches!(other, Token::Minus),
            Token::Asterisk => matches!(other, Token::Asterisk),
            Token::Slash => matches!(other, Token::Slash),
            Token::Bang => matches!(other, Token::Bang),
            Token::True => matches!(other, Token::True),
            Token::False => matches!(other, Token::False),
            Token::Equal => matches!(other, Token::Equal),
            Token::NotEqual => matches!(other, Token::NotEqual),
            Token::LessThan => matches!(other, Token::LessThan),
            Token::GreaterThan => matches!(other, Token::GreaterThan),
            Token::LessThanEqual => matches!(other, Token::LessThanEqual),
            Token::GreaterThanEqual => matches!(other, Token::GreaterThanEqual),
            Token::OpenParenthesis => matches!(other, Token::OpenParenthesis),
            Token::CloseParenthesis => matches!(other, Token::CloseParenthesis),
            Token::OpenBrace => matches!(other, Token::OpenBrace),
            Token::CloseBrace => matches!(other, Token::CloseBrace),
            Token::OpenSquare => matches!(other, Token::OpenSquare),
            Token::CloseSquare => matches!(other, Token::CloseSquare),
            Token::Comma => matches!(other, Token::Comma),
            Token::Colon => matches!(other, Token::Colon),
            Token::Semicolon => matches!(other, Token::Semicolon),
            Token::SingleQuote => matches!(other, Token::SingleQuote),
            Token::DoubleQuote => matches!(other, Token::DoubleQuote),
        }
    }
}

/// Whether a character is whitespace: one of the code points with the
/// Unicode property `White_Space`.
pub open spec fn white_space(c: char) -> bool {
    let code = c as u32;
    ||| 0x09 <= code <= 0x0D
    ||| code == 0x20
    ||| code == 0x85
    ||| code == 0xA0
    ||| code == 0x1680
    ||| 0x2000 <= code <= 0x200A
    ||| code == 0x2028
    ||| code == 0x2029
    ||| code == 0x202F
    ||| code == 0x205F
    ||| code == 0x3000
}

/// Whether `c` has the Unicode property `Alphabetic`.
pub uninterp spec fn unicode_alphabetic(c: char) -> bool;

/// Whether a character is a letter: of the ASCII characters `a` to `z` and `A`
/// to `Z`, of the others those with the Unicode property `Alphabetic`.
pub open spec fn letter(c: char) -> bool {
    if c as u32 <= 0x7F {
        'a' <= c <= 'z' || 'A' <= c <= 'Z'
    } else {
        unicode_alphabetic(c)
    }
}

/// The classes of characters that the scanner runs over.
#[derive(PartialEq, Eq, Clone, Copy, Debug, Structural)]
pub enum CharClass {
    Whitespace,
    Letter,
    Digit,
    /// Anything but a double quote.
    Quoted,
}

/// Whether a character is of a class.
pub open spec fn in_class(c: char, class: CharClass) -> bool {
    match class {
        CharClass::Whitespace => white_space(c),
        CharClass::Letter => letter(c),
        CharClass::Digit => '0' <= c <= '9',
        CharClass::Quoted => c != '"',
    }
}

/// The end of the longest run of characters of `class` that starts at `pos`.
pub open spec fn run_end(s: Seq<char>, pos: nat, class: CharClass) -> nat
    decreases s.len() - pos,
{
    if pos < s.len() && in_class(s[pos as int], class) {
        run_end(s, pos + 1, class)
    } else {
        pos
    }
}

/// The token that a word is: a keyword, or else an identifier.
pub open spec fn word_token(word: Seq<char>) -> TokenView {
    if word == "let"@ {
        TokenView::Let
    } else if word == "if"@ {
        TokenView::If
    } else if word == "else"@ {
        TokenView::Else
    } else if word == "fn"@ {
        TokenView::Function
    } else if word == "return"@ {
        TokenView::Return
    } else if word == "true"@ {
        TokenView::True
    } else if word == "false"@ {
        TokenView::False
    } else {
        TokenView::Identifier { name: word }
    }
}

/// The token that starts with the operator character at `start`: `long` where
/// an `=` follows the character, else `short`.
pub open spec fn operator_token(s: Seq<char>, start: nat, long: TokenView, short: TokenView) -> (
    TokenView,
    nat,
) {
    if start + 1 < s.len() && s[start + 1 as int] == '=' {
        (long, start + 2)
    } else {
        (short, (start + 1) as nat)
    }
}

/// The first token at or after `pos`, with the position behind it; `None` where
/// the source holds no further token.
///
/// Whitespace before a token is passed over. A word is a run of letters, a
/// number a run of digits. A string literal runs from a double quote to the
/// next one and holds what stands between them, as it stands.
pub open spec fn next_token_at(s: Seq<char>, pos: nat) -> Option<(TokenView, nat)> {
    let start = run_end(s, pos, CharClass::Whitespace);
    if start >= s.len() {
        None
    } else {
        let c = s[start as int];
        let next = (start + 1) as nat;
        if c == '+' {
            Some((TokenView::Plus, next))
        } else if c == '-' {
            Some((TokenView::Minus, next))
        } else if c == '*' {
            Some((TokenView::Asterisk, next))
        } else if c == '/' {
            Some((TokenView::Slash, next))
        } else if c == ';' {
            Some((TokenView::Semicolon, next))
        } else if c == '(' {
            Some((TokenView::OpenParenthesis, next))
        } else if c == ')' {
            Some((TokenView::CloseParenthesis, next))
        } else if c == '{' {
            Some((TokenView::OpenBrace, next))
        } else if c == '}' {
            Some((TokenView::CloseBrace, next))
        } else if c == '[' {
            Some((TokenView::OpenSquare, next))
        } else if c == ']' {
            Some((TokenView::CloseSquare, next))
        } else if c == ',' {
            Some((TokenView::Comma, next))
        } else if c == ':' {
            Some((TokenView::Colon, next))
        } else if c == '!' {
            Some(operator_token(s, start, TokenView::NotEqual, TokenView::Bang))
        } else if c == '=' {
            Some(operator_token(s, start, TokenView::Equal, TokenView::Assign))
        } else if c == '<' {
            Some(operator_token(s, start, TokenView::LessThanEqual, TokenView::LessThan))
        } else if c == '>' {
            Some(operator_token(s, start, TokenView::GreaterThanEqual, TokenView::GreaterThan))
        } else if c == '\'' {
            Some((TokenView::SingleQuote, next))
        } else if c == '"' {
            let end = run_end(s, next, CharClass::Quoted);
            if end < s.len() {
                Some(
                    (
                        TokenView::StringLiteral { string: s.subrange(next as int, end as int) },
                        (end + 1) as nat,
                    ),
                )
            } else {
                Some((TokenView::DoubleQuote, next))
            }
        } else if letter(c) {
            let end = run_end(s, next, CharClass::Letter);
            Some((word_token(s.subrange(start as int, end as int)), end))
        } else if '0' <= c <= '9' {
            let end = run_end(s, next, CharClass::Digit);
            Some((TokenView::Integer { string: s.subrange(start as int, end as int) }, end))
        } else {
            Some((TokenView::Illegal { character: c }, next))
        }
    }
}

/// All the tokens of `s` from `pos` on, in order.
pub open spec fn tokens_from(s: Seq<char>, pos: nat) -> Seq<TokenView>
    decreases s.len() - pos,
{
    match next_token_at(s, pos) {
        Some((token, next)) => if pos < next <= s.len() {
            seq![token] + tokens_from(s, next)
        } else {
            seq![token]
        },
        None => Seq::empty(),
    }
}

/// All the tokens of a source text.
pub open spec fn tokens_of(s: Seq<char>) -> Seq<TokenView> {
    tokens_from(s, 0)
}

/// A run ends inside the text, at or after its start, on a character that is
/// not of the class, and holds only characters of the class.
pub proof fn lemma_run_end(s: Seq<char>, pos: nat, class: CharClass)
    requires
        pos <= s.len(),
    ensures
        pos <= run_end(s, pos, class) <= s.len(),
        run_end(s, pos, class) < s.len() ==> !in_class(s[run_end(s, pos, class) as int], class),
        forall|i: int| pos <= i < run_end(s, pos, class) ==> in_class(#[trigger] s[i], class),
    decreases s.len() - pos,
{
    if pos < s.len() && in_class(s[pos as int], class) {
        lemma_run_end(s, pos + 1, class);
    }
}

/// Every token takes at least one character, and none reaches past the end.
pub proof fn lemma_next_token_advances(s: Seq<char>, pos: nat)
    requires
        pos <= s.len(),
    ensures
        next_token_at(s, pos) matches Some((_, next)) ==> pos < next <= s.len(),
{
    let start = run_end(s, pos, CharClass::Whitespace);
    lemma_run_end(s, pos, CharClass::Whitespace);
    if start < s.len() {
        lemma_run_end(s, start + 1, CharClass::Quoted);
        lemma_run_end(s, start + 1, CharClass::Letter);
        lemma_run_end(s, start + 1, CharClass::Digit);
    }
}

/// Whether a character is whitespace.
pub fn is_whitespace(c: char) -> (r: bool)
    ensures
        r == white_space(c),
{
    let code = c as u32;
    (0x09 <= code && code <= 0x0D) || code == 0x20 || code == 0x85 || code == 0xA0 || code
        == 0x1680 || (0x2000 <= code && code <= 0x200A) || code == 0x2028 || code == 0x2029
        || code == 0x202F || code == 0x205F || code == 0x3000
}

/// `char::is_alphabetic`: whether the character has the Unicode property
/// `Alphabetic`. The result is named, not computed here.
#[verifier::external_body]
fn is_alphabetic(c: char) -> (r: bool)
    ensures
        r == unicode_alphabetic(c),
{
    c.is_alphabetic()
}

/// Whether a character is a letter.
pub fn is_letter(c: char) -> (r: bool)
    ensures
        r == letter(c),
{
    if c as u32 <= 0x7F {
        (c >= 'a' && c <= 'z') || (c >= 'A' && c <= 'Z')
    } else {
        is_alphabetic(c)
    }
}

/// Whether a character is a decimal digit.
pub fn is_number(c: char) -> (r: bool)
    ensures
        r == ('0' <= c <= '9'),
{
    c >= '0' && c <= '9'
}

fn is_of_class(c: char, class: CharClass) -> (r: bool)
    ensures
        r == in_class(c, class),
{
    match class {
        CharClass::Whitespace => is_whitespace(c),
        CharClass::Letter => is_letter(c),
        CharClass::Digit => is_number(c),
        CharClass::Quoted => c != '"',
    }
}

/// A scanner over a source text: it hands out the tokens one by one.
pub struct Lexer {
    chars: Vec<char>,
    position: usize,
}

impl Lexer {
    #[verifier::type_invariant]
    spec fn within(&self) -> bool {
        self.position <= self.chars@.len()
    }

    /// The text that is scanned.
    pub closed spec fn source(&self) -> Seq<char> {
        self.chars@
    }

    /// How many characters have been taken.
    pub closed spec fn position(&self) -> nat {
        self.position as nat
    }

    /// The tokens that are still to come.
    pub open spec fn remaining(&self) -> Seq<TokenView> {
        tokens_from(self.source(), self.position())
    }

    /// A scanner at the start of `source`.
    pub fn new(source: &str) -> (lexer: Self)
        ensures
            lexer.source() == source@,
            lexer.position() == 0,
    {
        Lexer { chars: chars_of(source), position: 0 }
    }

    fn next_char(&mut self) -> (c: Option<char>)
        ensures
            final(self).source() == old(self).source(),
            old(self).position() <= old(self).source().len(),
            old(self).position() < old(self).source().len() ==> c == Some(
                old(self).source()[old(self).position() as int],
            ) && final(self).position() == old(self).position() + 1,
            old(self).position() >= old(self).source().len() ==> c is None && final(self).position() == old(self).position(),
    {
        proof {
            use_type_invariant(&*self);
        }
        if self.position < self.chars.len() {
            let c = self.chars[self.position];
            self.position = self.position + 1;
            Some(c)
        } else {
            None
        }
    }

    /// Moves past the longest run of characters of `class`.
    fn skip_run(&mut self, class: CharClass)
        ensures
            final(self).source() == old(self).source(),
            final(self).position() == run_end(old(self).source(), old(self).position(), class),
            old(self).position() <= final(self).position() <= old(self).source().len(),
    {
        proof {
            use_type_invariant(&*self);
        }
        while self.position < self.chars.len() && is_of_class(self.chars[self.position], class)
            invariant
                self.chars == old(self).chars,
                old(self).position <= self.position <= self.chars@.len(),
                run_end(self.chars@, self.position as nat, class) == run_end(
                    self.chars@,
                    old(self).position as nat,
                    class,
                ),
            decreases self.chars@.len() - self.position,
        {
            self.position = self.position + 1;
        }
    }

    /// The characters from `start` up to the position, as a string.
    fn text_since(&self, start: usize) -> (text: String)
        requires
            start <= self.position(),
        ensures
            self.position() <= self.source().len(),
            text@ == self.source().subrange(start as int, self.position() as int),
    {
        proof {
            use_type_invariant(self);
        }
        let mut text = String::new();
        let mut i: usize = start;
        while i < self.position
            invariant
                start <= i <= self.position <= self.chars@.len(),
                text@ == self.chars@.subrange(start as int, i as int),
            decreases self.position - i,
        {
            text.push(self.chars[i]);
            i += 1;
            assert(self.chars@.subrange(start as int, i as int) =~= self.chars@.subrange(
                start as int,
                i - 1,
            ).push(self.chars@[i - 1]));
        }
        text
    }

    fn next_char_skipping_whitespace(&mut self) -> (c: Option<char>)
        ensures
            final(self).source() == old(self).source(),
            old(self).position() <= old(self).source().len(),
            ({
                let start = run_end(old(self).source(), old(self).position(), CharClass::Whitespace);
                &&& start <= old(self).source().len()
                &&& start < old(self).source().len() ==> c == Some(old(self).source()[start as int])
                    && final(self).position() == start + 1
                &&& start >= old(self).source().len() ==> c is None && final(self).position()
                    == start
            }),
    {
        self.skip_run(CharClass::Whitespace);
        self.next_char()
    }

    /// The token that the operator character just taken starts: `long` where an
    /// `=` follows it, else `short`.
    fn next_operator_token(&mut self, long: Token, short: Token) -> (token: Token)
        requires
            old(self).position() >= 1,
        ensures
            final(self).source() == old(self).source(),
            (token@, final(self).position()) == operator_token(
                old(self).source(),
                (old(self).position() - 1) as nat,
                long@,
                short@,
            ),
    {
        proof {
            use_type_invariant(&*self);
        }
        if self.position < self.chars.len() && self.chars[self.position] == '=' {
            self.position = self.position + 1;
            long
        } else {
            short
        }
    }

    fn next_token_starting_with_equal(&mut self) -> (token: Token)
        requires
            old(self).position() >= 1,
        ensures
            final(self).source() == old(self).source(),
            (token@, final(self).position()) == operator_token(
                old(self).source(),
                (old(self).position() - 1) as nat,
                TokenView::Equal,
                TokenView::Assign,
            ),
    {
        self.next_operator_token(Token::Equal, Token::Assign)
    }

    fn next_token_starting_with_bang(&mut self) -> (token: Token)
        requires
            old(self).position() >= 1,
        ensures
            final(self).source() == old(self).source(),
            (token@, final(self).position()) == operator_token(
                old(self).source(),
                (old(self).position() - 1) as nat,
                TokenView::NotEqual,
                TokenView::Bang,
            ),
    {
        self.next_operator_token(Token::NotEqual, Token::Bang)
    }

    fn next_token_starting_with_less_than(&mut self) -> (token: Token)
        requires
            old(self).position() >= 1,
        ensures
            final(self).source() == old(self).source(),
            (token@, final(self).position()) == operator_token(
                old(self).source(),
                (old(self).position() - 1) as nat,
                TokenView::LessThanEqual,
                TokenView::LessThan,
            ),
    {
        self.next_operator_token(Token::LessThanEqual, Token::LessThan)
    }

    fn next_token_starting_with_greater_than(&mut self) -> (token: Token)
        requires
            old(self).position() >= 1,
        ensures
            final(self).source() == old(self).source(),
            (token@, final(self).position()) == operator_token(
                old(self).source(),
                (old(self).position() - 1) as nat,
                TokenView::GreaterThanEqual,
                TokenView::GreaterThan,
            ),
    {
        self.next_operator_token(Token::GreaterThanEqual, Token::GreaterThan)
    }

    /// The number whose first digit was just taken.
    fn next_number_token(&mut self) -> (token: Token)
        requires
            old(self).position() >= 1,
        ensures
            final(self).source() == old(self).source(),
            final(self).position() == run_end(
                old(self).source(),
                old(self).position(),
                CharClass::Digit,
            ),
            token@ == (TokenView::Integer {
                string: old(self).source().subrange(
                    old(self).position() - 1,
                    final(self).position() as int,
                ),
            }),
    {
        let start = self.position - 1;
        self.skip_run(CharClass::Digit);
        Token::Integer { string: self.text_since(start) }
    }

    /// The keyword or identifier whose first letter was just taken.
    fn next_word_token(&mut self) -> (token: Token)
        requires
            old(self).position() >= 1,
        ensures
            final(self).source() == old(self).source(),
            final(self).position() == run_end(
                old(self).source(),
                old(self).position(),
                CharClass::Letter,
            ),
            token@ == word_token(
                old(self).source().subrange(
                    old(self).position() - 1,
                    final(self).position() as int,
                ),
            ),
    {
        let start = self.position - 1;
        self.skip_run(CharClass::Letter);
        let word = self.text_since(start);
        if string_is(&word, "let") {
            Token::Let
        } else if string_is(&word, "if") {
            Token::If
        } else if string_is(&word, "else") {
            Token::Else
        } else if string_is(&word, "fn") {
            Token::Function
        } else if string_is(&word, "return") {
            Token::Return
        } else if string_is(&word, "true") {
            Token::True
        } else if string_is(&word, "false") {
            Token::False
        } else {
            Token::Identifier { name: word }
        }
    }

    /// The token whose opening quote was just taken: the string literal up to
    /// the next quote, or the quote alone where no second one follows.
    fn next_string_literal_token(&mut self) -> (token: Token)
        ensures
            final(self).source() == old(self).source(),
            ({
                let end = run_end(old(self).source(), old(self).position(), CharClass::Quoted);
                if end < old(self).source().len() {
                    &&& token@ == (TokenView::StringLiteral {
                        string: old(self).source().subrange(
                            old(self).position() as int,
                            end as int,
                        ),
                    })
                    &&& final(self).position() == end + 1
                } else {
                    &&& token@ == TokenView::DoubleQuote
                    &&& final(self).position() == old(self).position()
                }
            }),
    {
        let start = self.position;
        self.skip_run(CharClass::Quoted);
        proof {
            use_type_invariant(&*self);
        }
        if self.position < self.chars.len() {
            let string = self.text_since(start);
            self.position = self.position + 1;
            Token::StringLiteral { string }
        } else {
            self.position = start;
            Token::DoubleQuote
        }
    }

    /// The next token, or `None` where the text holds no further token.
    pub fn next_token(&mut self) -> (token: Option<Token>)
        ensures
            final(self).source() == old(self).source(),
            match next_token_at(old(self).source(), old(self).position()) {
                Some((t, next)) => {
                    &&& token matches Some(tk)
                    &&& tk@ == t
                    &&& final(self).position() == next
                    &&& old(self).position() < next <= old(self).source().len()
                },
                None => token is None && final(self).position() == old(self).source().len(),
            },
    {
        proof {
            use_type_invariant(&*self);
            lemma_next_token_advances(self.source(), self.position());
            lemma_run_end(self.source(), self.position(), CharClass::Whitespace);
        }
        match self.next_char_skipping_whitespace() {
            Some(c) => {
                if c == '+' {
                    Some(Token::Plus)
                } else if c == '-' {
                    Some(Token::Minus)
                } else if c == '*' {
                    Some(Token::Asterisk)
                } else if c == '/' {
                    Some(Token::Slash)
                } else if c == ';' {
                    Some(Token::Semicolon)
                } else if c == '(' {
                    Some(Token::OpenParenthesis)
                } else if c == ')' {
                    Some(Token::CloseParenthesis)
                } else if c == '{' {
                    Some(Token::OpenBrace)
                } else if c == '}' {
                    Some(Token::CloseBrace)
                } else if c == '[' {
                    Some(Token::OpenSquare)
                } else if c == ']' {
                    Some(Token::CloseSquare)
                } else if c == ',' {
                    Some(Token::Comma)
                } else if c == ':' {
                    Some(Token::Colon)
                } else if c == '!' {
                    Some(self.next_token_starting_with_bang())
                } else if c == '=' {
                    Some(self.next_token_starting_with_equal())
                } else if c == '<' {
                    Some(self.next_token_starting_with_less_than())
                } else if c == '>' {
                    Some(self.next_token_starting_with_greater_than())
                } else if c == '\'' {
                    Some(Token::SingleQuote)
                } else if c == '"' {
                    Some(self.next_string_literal_token())
                } else if is_letter(c) {
                    Some(self.next_word_token())
                } else if is_number(c) {
                    Some(self.next_number_token())
                } else {
                    Some(Token::Illegal { character: c })
                }
            },
            None => None,
        }
    }

    /// All the tokens that are still to come, in order.
    pub fn collect(&mut self) -> (tokens: Vec<Token>)
        ensures
            tokens.deep_view() == old(self).remaining(),
            final(self).source() == old(self).source(),
            final(self).remaining() == Seq::<TokenView>::empty(),
    {
        let mut tokens: Vec<Token> = Vec::new();
        let ghost all = self.remaining();
        let ghost source = self.source();
        proof {
            use_type_invariant(&*self);
        }
        loop
            invariant
                self.source() == source,
                self.position() <= self.source().len(),
                all == tokens.deep_view() + tokens_from(self.source(), self.position()),
            ensures
                all == tokens.deep_view(),
                tokens_from(self.source(), self.position()) == Seq::<TokenView>::empty(),
            decreases self.source().len() - self.position(),
        {
            let ghost before = tokens.deep_view();
            match self.next_token() {
                Some(token) => {
                    tokens.push(token);
                    assert(tokens.deep_view() =~= before.push(token@));
                    assert(before.push(token@) + tokens_from(self.source(), self.position())
                        =~= before + (seq![token@] + tokens_from(
                        self.source(),
                        self.position(),
                    )));
                },
                None => {
                    proof {
                        lemma_run_end(
                            self.source(),
                            self.position(),
                            CharClass::Whitespace,
                        );
                    }
                    assert(before + Seq::<TokenView>::empty() =~= before);
                    break ;
                },
            }
        }
        tokens
    }
}

} // verus!
