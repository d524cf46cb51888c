//! The scanner: a cursor over a source text that hands out one token per
//! call.

use vstd::prelude::*;
use crate::lexical;
use crate::lexical::{LexError, Lexeme, Region};

verus! {

/// A token of the language.
///
/// A quoted string is delivered as an `Identifier` that carries the decoded
/// text of the string. `Error` carries the message of a [`LexError`].
#[derive(Debug, PartialEq, Clone)]
pub enum Token {
    Let,
    Function,
    Identifier(String),
    IntLiteral(i32),
    TypeInt,
    TypeVoid,
    Plus,
    Minus,
    Star,
    Slash,
    Equals,
    Colon,
    Semicolon,
    LParen,
    RParen,
    LBrace,
    RBrace,
    Return,
    If,
    Else,
    For,
    While,
    True,
    False,
    Comma,
    Eof,
    Error(String),
}

impl View for Token {
    type V = Lexeme;

    open spec fn view(&self) -> Lexeme {
        match self {
            Token::Let => Lexeme::Let,
            Token::Function => Lexeme::Function,
            Token::Identifier(text) => Lexeme::Identifier(text@),
            Token::IntLiteral(value) => Lexeme::IntLiteral(*value),
            Token::TypeInt => Lexeme::TypeInt,
            Token::TypeVoid => Lexeme::TypeVoid,
            Token::Plus => Lexeme::Plus,
            Token::Minus => Lexeme::Minus,
            Token::Star => Lexeme::Star,
            Token::Slash => Lexeme::Slash,
            Token::Equals => Lexeme::Equals,
            Token::Colon => Lexeme::Colon,
            Token::Semicolon => Lexeme::Semicolon,
            Token::LParen => Lexeme::LParen,
            Token::RParen => Lexeme::RParen,
            Token::LBrace => Lexeme::LBrace,
            Token::RBrace => Lexeme::RBrace,
            Token::Return => Lexeme::Return,
            Token::If => Lexeme::If,
            Token::Else => Lexeme::Else,
            Token::For => Lexeme::For,
            Token::While => Lexeme::While,
            Token::True => Lexeme::True,
            Token::False => Lexeme::False,
            Token::Comma => Lexeme::Comma,
            Token::Eof => Lexeme::Eof,
            Token::Error(message) => Lexeme::Error(message@),
        }
    }
}

/// A scanner over one source text.
///
/// It holds the text, a cursor that only moves forward, and the depth of
/// the block comment that the cursor is in, which is zero between calls.
pub struct Lexer {
    input: Vec<char>,
    position: usize,
    nesting_level: usize,
}

/// The region that the scanner's two comment markers stand for.
pub open spec fn region_of(in_line_comment: bool, depth: nat) -> Region {
    if depth > 0 {
        Region::BlockComment(depth)
    } else if in_line_comment {
        Region::LineComment
    } else {
        Region::Code
    }
}

impl Lexer {
    /// The text that is scanned.
    pub closed spec fn source(&self) -> Seq<char> {
        self.input@
    }

    /// The number of characters that the scanner has passed.
    pub closed spec fn cursor(&self) -> int {
        self.position as int
    }

    /// The number of block comments that are open around the cursor.
    pub closed spec fn depth(&self) -> nat {
        self.nesting_level as nat
    }

    /// The cursor is inside the text or at its end, and outside any comment.
    pub open spec fn well_formed(&self) -> bool {
        &&& 0 <= self.cursor() <= self.source().len()
        &&& self.depth() == 0
    }

    /// A scanner at the start of `input`.
    pub fn new(input: String) -> (lexer: Lexer)
        ensures
            lexer.well_formed(),
            lexer.source() == input@,
            lexer.cursor() == 0,
    {
        let mut chars: Vec<char> = Vec::new();
        let text = input.as_str();
        for c in it: text.chars()
            invariant
                chars@ == it.seq().take(it.index() as int),
        {
            chars.push(c);
        }
        Lexer { input: chars, position: 0, nesting_level: 0 }
    }

    /// The character under the cursor, if the text has not ended.
    fn get_char(&self) -> (c: Option<char>)
        requires
            self.position <= self.input.len(),
        ensures
            c == if self.position < self.input.len() {
                Some(self.input@[self.position as int])
            } else {
                None
            },
    {
        if self.position < self.input.len() {
            Some(self.input[self.position])
        } else {
            None
        }
    }

    /// Whether the cursor stands on `first` followed by `second`.
    fn at_pair(&self, first: char, second: char) -> (found: bool)
        requires
            self.position <= self.input.len(),
        ensures
            found == lexical::pair_at(self.input@, self.position as int, first, second),
    {
        self.position < self.input.len() && self.input.len() - self.position > 1
            && self.input[self.position] == first && self.input[self.position + 1] == second
    }

    /// Moves the cursor over one character.
    fn advance(&mut self)
        requires
            old(self).position < old(self).input.len(),
        ensures
            final(self).position == old(self).position + 1,
            final(self).input == old(self).input,
            final(self).nesting_level == old(self).nesting_level,
    {
        self.position += 1;
    }

    /// Whether `c` may stand in a keyword or an identifier.
    fn is_identifier_char(c: char) -> (answer: bool)
        ensures
            answer == lexical::is_identifier_char(c),
    {
        c.is_alphanumeric() || c == '_'
    }

    /// Whether `c` separates tokens.
    fn is_whitespace(c: char) -> (answer: bool)
        ensures
            answer == lexical::is_whitespace(c),
    {
        c == ' ' || c == '\t' || c == '\n' || c == '\r'
    }

    /// Whether `c` is a token by itself.
    fn is_operator(c: char) -> (answer: bool)
        ensures
            answer == lexical::is_operator(c),
    {
        c == '+' || c == '-' || c == '*' || c == '/' || c == '=' || c == ':' || c == ';'
            || c == '(' || c == ')' || c == '{' || c == '}' || c == ','
    }

    /// Whether `c` is a decimal digit.
    fn is_digit(c: char) -> (answer: bool)
        ensures
            answer == lexical::is_digit(c),
    {
        '0' <= c && c <= '9'
    }

    /// Moves the cursor to the start of the next token, over whitespace and
    /// comments. Returns `false`, with the cursor at the end of the text, if
    /// the text ends inside a block comment.
    fn skip_trivia(&mut self) -> (closed: bool)
        requires
            old(self).well_formed(),
        ensures
            final(self).well_formed(),
            final(self).input == old(self).input,
            match lexical::token_start(old(self).source(), old(self).cursor(), Region::Code) {
                Some(start) => closed && final(self).cursor() == start,
                None => !closed && final(self).cursor() == final(self).source().len(),
            },
    {
        let mut in_line_comment = false;
        loop
            invariant
                self.position <= self.input.len(),
                self.input == old(self).input,
                self.nesting_level <= self.position,
                self.nesting_level > 0 ==> !in_line_comment,
                lexical::token_start(
                    self.input@,
                    self.position as int,
                    region_of(in_line_comment, self.nesting_level as nat),
                ) == lexical::token_start(old(self).input@, old(self).position as int, Region::Code),
            decreases self.input.len() - self.position,
        {
            match self.get_char() {
                None => {
                    if self.nesting_level > 0 {
                        self.nesting_level = 0;
                        return false;
                    }
                    return true;
                },
                Some(c) => {
                    if self.nesting_level > 0 {
                        if self.at_pair('*', '/') {
                            self.position += 2;
                            self.nesting_level -= 1;
                        } else if self.at_pair('/', '*') {
                            self.position += 2;
                            self.nesting_level += 1;
                        } else {
                            self.advance();
                        }
                    } else if in_line_comment {
                        if c == '\n' {
                            in_line_comment = false;
                        }
                        self.advance();
                    } else if Lexer::is_whitespace(c) {
                        self.advance();
                    } else if self.at_pair('/', '/') {
                        self.position += 2;
                        in_line_comment = true;
                    } else if self.at_pair('/', '*') {
                        self.position += 2;
                        self.nesting_level = 1;
                    } else {
                        return true;
                    }
                },
            }
        }
    }

    /// Scans the run of digits under the cursor.
    fn scan_number(&mut self) -> (token: Token)
        requires
            old(self).well_formed(),
        ensures
            final(self).well_formed(),
            final(self).input == old(self).input,
            final(self).cursor() == lexical::digits_end(old(self).source(), old(self).cursor()),
            token@ == lexical::number(
                old(self).source().subrange(old(self).cursor(), final(self).cursor()),
            ),
    {
        let start = self.position;
        let mut value: i64 = 0;
        let mut overflow = false;
        proof {
            lexical::lemma_digits_end(self.input@, start as int);
            assert(self.input@.subrange(start as int, start as int) =~= Seq::<char>::empty());
        }
        while self.position < self.input.len() && Lexer::is_digit(self.input[self.position])
            invariant
                self.nesting_level == 0,
                self.input == old(self).input,
                start == old(self).position,
                start <= self.position <= self.input.len(),
                lexical::digits_end(self.input@, self.position as int) == lexical::digits_end(
                    self.input@,
                    start as int,
                ),
                0 <= value <= i32::MAX,
                !overflow ==> value == lexical::decimal(
                    self.input@.subrange(start as int, self.position as int),
                ),
                overflow ==> lexical::decimal(
                    self.input@.subrange(start as int, self.position as int),
                ) > i32::MAX,
            decreases self.input.len() - self.position,
        {
            let c = self.input[self.position];
            let digit: i64 = (c as u32 - '0' as u32) as i64;
            proof {
                let before = self.input@.subrange(start as int, self.position as int);
                let after = self.input@.subrange(start as int, self.position as int + 1);
                assert(after.drop_last() =~= before);
                assert(after.last() == c);
                assert(lexical::decimal(after) == 10 * lexical::decimal(before)
                    + lexical::digit_value(c));
            }
            if !overflow {
                let next: i64 = value * 10 + digit;
                if next > i32::MAX as i64 {
                    overflow = true;
                } else {
                    value = next;
                }
            }
            self.position += 1;
        }
        if overflow {
            Token::Error(LexError::IntegerOverflow.message())
        } else {
            Token::IntLiteral(value as i32)
        }
    }

    /// Scans a quoted string whose opening quote the cursor has passed.
    fn scan_string(&mut self) -> (token: Token)
        requires
            old(self).well_formed(),
        ensures
            final(self).well_formed(),
            final(self).input == old(self).input,
            token@ == lexical::string_body(old(self).source(), old(self).cursor(), seq![]).token,
            final(self).cursor() == lexical::string_body(
                old(self).source(),
                old(self).cursor(),
                seq![],
            ).next,
    {
        let mut text = String::new();
        loop
            invariant
                self.nesting_level == 0,
                self.input == old(self).input,
                self.position <= self.input.len(),
                lexical::string_body(self.input@, self.position as int, text@)
                    == lexical::string_body(old(self).input@, old(self).position as int, seq![]),
            decreases self.input.len() - self.position,
        {
            match self.get_char() {
                None => {
                    return Token::Error(LexError::UnterminatedString.message());
                },
                Some(c) => {
                    self.advance();
                    if c == '"' {
                        return Token::Identifier(text);
                    } else if c == '\\' {
                        match self.get_char() {
                            None => {
                                return Token::Error(LexError::UnterminatedString.message());
                            },
                            Some(escaped) => {
                                self.advance();
                                match Lexer::unescape(escaped) {
                                    Some(decoded) => {
                                        text.push(decoded);
                                    },
                                    None => {
                                        return Token::Error(LexError::InvalidEscape.message());
                                    },
                                }
                            },
                        }
                    } else {
                        text.push(c);
                    }
                },
            }
        }
    }

    /// The character that a backslash followed by `c` stands for.
    fn unescape(c: char) -> (decoded: Option<char>)
        ensures
            decoded == lexical::unescape(c),
    {
        if c == 'n' {
            Some('\n')
        } else if c == 't' {
            Some('\t')
        } else if c == '\\' {
            Some('\\')
        } else if c == '"' {
            Some('"')
        } else {
            None
        }
    }

    /// Whether the characters from `start` to `end` spell `word`.
    fn spells(&self, start: usize, end: usize, word: &str) -> (same: bool)
        requires
            start <= end <= self.input.len(),
        ensures
            same == (self.input@.subrange(start as int, end as int) == word@),
    {
        let mut at = start;
        let mut same = true;
        for c in it: word.chars()
            invariant
                it.seq() == word@,
                start <= at <= end,
                end <= self.input.len(),
                same ==> at - start == it.index(),
                same ==> self.input@.subrange(start as int, at as int) == it.seq().take(
                    it.index() as int,
                ),
                !same ==> self.input@.subrange(start as int, end as int) != it.seq(),
        {
            if same {
                if at < end && self.input[at] == c {
                    proof {
                        assert(self.input@.subrange(start as int, at + 1)
                            =~= self.input@.subrange(start as int, at as int).push(c));
                        assert(word@.take(at - start + 1) =~= word@.take(at - start).push(c));
                    }
                    at += 1;
                } else {
                    proof {
                        let text = self.input@.subrange(start as int, end as int);
                        if text == word@ {
                            assert(text[at - start] == word@[at - start]);
                        }
                    }
                    same = false;
                }
            }
        }
        proof {
            if same {
                assert(word@.take(word@.len() as int) =~= word@);
            }
        }
        same && at == end
    }

    /// The keyword that the characters from `start` to `end` spell, if they
    /// spell one.
    fn keyword(&self, start: usize, end: usize) -> (found: Option<Token>)
        requires
            start <= end <= self.input.len(),
        ensures
            match lexical::keyword(self.input@.subrange(start as int, end as int)) {
                Some(token) => found matches Some(t) && t@ == token,
                None => found is None,
            },
    {
        if self.spells(start, end, "let") {
            Some(Token::Let)
        } else if self.spells(start, end, "function") {
            Some(Token::Function)
        } else if self.spells(start, end, "int") {
            Some(Token::TypeInt)
        } else if self.spells(start, end, "void") {
            Some(Token::TypeVoid)
        } else if self.spells(start, end, "return") {
            Some(Token::Return)
        } else if self.spells(start, end, "if") {
            Some(Token::If)
        } else if self.spells(start, end, "else") {
            Some(Token::Else)
        } else if self.spells(start, end, "for") {
            Some(Token::For)
        } else if self.spells(start, end, "while") {
            Some(Token::While)
        } else if self.spells(start, end, "true") {
            Some(Token::True)
        } else if self.spells(start, end, "false") {
            Some(Token::False)
        } else {
            None
        }
    }

    /// The characters from `start` to `end`, as a string.
    fn text(&self, start: usize, end: usize) -> (text: String)
        requires
            start <= end <= self.input.len(),
        ensures
            text@ == self.input@.subrange(start as int, end as int),
    {
        let mut text = String::new();
        let mut at = start;
        while at < end
            invariant
                start <= at <= end <= self.input.len(),
                text@ == self.input@.subrange(start as int, at as int),
            decreases end - at,
        {
            text.push(self.input[at]);
            at += 1;
            assert(self.input@.subrange(start as int, at as int) =~= self.input@.subrange(
                start as int,
                at - 1,
            ).push(self.input@[at - 1]));
        }
        text
    }

    /// Scans the run of identifier characters under the cursor: a keyword
    /// if the whole run spells one, an identifier otherwise.
    fn scan_word(&mut self) -> (token: Token)
        requires
            old(self).well_formed(),
        ensures
            final(self).well_formed(),
            final(self).input == old(self).input,
            final(self).cursor() == lexical::word_end(old(self).source(), old(self).cursor()),
            token@ == lexical::word(
                old(self).source().subrange(old(self).cursor(), final(self).cursor()),
            ),
    {
        let start = self.position;
        while self.position < self.input.len() && Lexer::is_identifier_char(
            self.input[self.position],
        )
            invariant
                self.nesting_level == 0,
                self.input == old(self).input,
                start <= self.position <= self.input.len(),
                lexical::word_end(self.input@, self.position as int) == lexical::word_end(
                    self.input@,
                    start as int,
                ),
            decreases self.input.len() - self.position,
        {
            self.position += 1;
        }
        match self.keyword(start, self.position) {
            Some(token) => token,
            None => Token::Identifier(self.text(start, self.position)),
        }
    }

    /// The token that the operator character `c` denotes.
    fn operator_token(c: char) -> (token: Token)
        requires
            lexical::is_operator(c),
        ensures
            token@ == lexical::operator(c),
    {
        if c == '+' {
            Token::Plus
        } else if c == '-' {
            Token::Minus
        } else if c == '*' {
            Token::Star
        } else if c == '/' {
            Token::Slash
        } else if c == '=' {
            Token::Equals
        } else if c == ':' {
            Token::Colon
        } else if c == ';' {
            Token::Semicolon
        } else if c == '(' {
            Token::LParen
        } else if c == ')' {
            Token::RParen
        } else if c == '{' {
            Token::LBrace
        } else if c == '}' {
            Token::RBrace
        } else {
            Token::Comma
        }
    }

    /// Produces the next token and moves the cursor behind it.
    ///
    /// Whitespace and comments before the token are skipped. What cannot be
    /// a token is reported as an `Error` token, with the cursor behind the
    /// text at fault, so that the next call goes on from there. At the end
    /// of the text the token is `Eof`, on this call and on every later one.
    pub fn next_token(&mut self) -> (token: Token)
        requires
            old(self).well_formed(),
        ensures
            final(self).well_formed(),
            final(self).source() == old(self).source(),
            token@ == lexical::scan(old(self).source(), old(self).cursor()).token,
            final(self).cursor() == lexical::scan(old(self).source(), old(self).cursor()).next,
            old(self).cursor() <= final(self).cursor() <= old(self).source().len(),
            token@ != Lexeme::Eof ==> old(self).cursor() < final(self).cursor(),
            token@ == Lexeme::Eof ==> final(self).cursor() == old(self).source().len(),
    {
        proof {
            lexical::lemma_scan_advances(self.source(), self.cursor());
        }
        if !self.skip_trivia() {
            return Token::Error(LexError::UnterminatedComment.message());
        }
        match self.get_char() {
            None => Token::Eof,
            Some(c) => {
                if Lexer::is_digit(c) {
                    self.scan_number()
                } else if c == '"' {
                    self.advance();
                    self.scan_string()
                } else if Lexer::is_operator(c) {
                    self.advance();
                    Lexer::operator_token(c)
                } else if Lexer::is_identifier_char(c) {
                    self.scan_word()
                } else {
                    self.advance();
                    Token::Error(LexError::InvalidCharacter(c).message())
                }
            },
        }
    }
}

} // verus!
