//! The lexical structure of the language, as mathematics.
//!
//! A source text is a `Seq<char>`. [`scan`] says which token starts at a
//! cursor and where the cursor stands afterwards; [`tokens_from`] is the
//! whole stream that repeated scanning delivers. The scanner in
//! [`crate::lexer`] is proved against these definitions.

use vstd::prelude::*;
use crate::std_specs::alphanumeric;

verus! {

/// The value of a token: the token's kind, and its text as a sequence of
/// characters where it carries one.
pub enum Lexeme {
    Let,
    Function,
    Identifier(Seq<char>),
    IntLiteral(i32),
    TypeInt,
    TypeVoid,
    Plus,
    Minus,
    Star,
    Slash,
    Equals,
    Colon,
    Semicolon,
    LParen,
    RParen,
    LBrace,
    RBrace,
    Return,
    If,
    Else,
    For,
    While,
    True,
    False,
    Comma,
    Eof,
    Error(Seq<char>),
}

/// The ways in which a text can fail to be a token.
#[derive(Clone, Copy, Debug, PartialEq, Eq)]
pub enum LexError {
    /// The text ended inside a quoted string.
    UnterminatedString,
    /// The text ended inside a block comment.
    UnterminatedComment,
    /// A backslash in a string was followed by a character that names no
    /// escape.
    InvalidEscape,
    /// A character that starts no token.
    InvalidCharacter(char),
    /// A run of digits whose value does not fit in an `i32`.
    IntegerOverflow,
}

impl LexError {
    /// The message that an error token carries.
    pub open spec fn text(self) -> Seq<char> {
        match self {
            LexError::UnterminatedString => "Unterminated string literal"@,
            LexError::UnterminatedComment => "Unterminated multi-line comment"@,
            LexError::InvalidEscape => "Invalid escape sequence"@,
            LexError::InvalidCharacter(c) => "Invalid character: "@.push(c),
            LexError::IntegerOverflow => "Integer literal out of range"@,
        }
    }

    /// The error token that reports this error.
    pub open spec fn lexeme(self) -> Lexeme {
        Lexeme::Error(self.text())
    }

    /// Renders the message of this error.
    pub fn message(&self) -> (message: String)
        ensures
            message@ == self.text(),
    {
        match self {
            LexError::UnterminatedString => "Unterminated string literal".to_owned(),
            LexError::UnterminatedComment => "Unterminated multi-line comment".to_owned(),
            LexError::InvalidEscape => "Invalid escape sequence".to_owned(),
            LexError::InvalidCharacter(c) => {
                let mut message = "Invalid character: ".to_owned();
                message.push(*c);
                message
            },
            LexError::IntegerOverflow => "Integer literal out of range".to_owned(),
        }
    }
}

/// A token together with the cursor that follows it.
pub struct Scanned {
    pub token: Lexeme,
    pub next: int,
}

/// Space, tab, carriage return and line feed separate tokens.
pub open spec fn is_whitespace(c: char) -> bool {
    c == ' ' || c == '\t' || c == '\n' || c == '\r'
}

/// The ten decimal digits.
pub open spec fn is_digit(c: char) -> bool {
    '0' <= c && c <= '9'
}

/// The number that a decimal digit stands for.
pub open spec fn digit_value(c: char) -> nat
    recommends
        is_digit(c),
{
    (c as u32 - '0' as u32) as nat
}

/// The characters of which keywords and identifiers are made.
pub open spec fn is_identifier_char(c: char) -> bool {
    alphanumeric(c) || c == '_'
}

/// The characters that are a token by themselves.
pub open spec fn is_operator(c: char) -> bool {
    c == '+' || c == '-' || c == '*' || c == '/' || c == '=' || c == ':' || c == ';' || c == '('
        || c == ')' || c == '{' || c == '}' || c == ','
}

/// The token that a one-character operator or punctuation mark denotes.
pub open spec fn operator(c: char) -> Lexeme
    recommends
        is_operator(c),
{
    if c == '+' {
        Lexeme::Plus
    } else if c == '-' {
        Lexeme::Minus
    } else if c == '*' {
        Lexeme::Star
    } else if c == '/' {
        Lexeme::Slash
    } else if c == '=' {
        Lexeme::Equals
    } else if c == ':' {
        Lexeme::Colon
    } else if c == ';' {
        Lexeme::Semicolon
    } else if c == '(' {
        Lexeme::LParen
    } else if c == ')' {
        Lexeme::RParen
    } else if c == '{' {
        Lexeme::LBrace
    } else if c == '}' {
        Lexeme::RBrace
    } else {
        Lexeme::Comma
    }
}

/// The keyword that `text` spells, if it spells one.
pub open spec fn keyword(text: Seq<char>) -> Option<Lexeme> {
    if text == "let"@ {
        Some(Lexeme::Let)
    } else if text == "function"@ {
        Some(Lexeme::Function)
    } else if text == "int"@ {
        Some(Lexeme::TypeInt)
    } else if text == "void"@ {
        Some(Lexeme::TypeVoid)
    } else if text == "return"@ {
        Some(Lexeme::Return)
    } else if text == "if"@ {
        Some(Lexeme::If)
    } else if text == "else"@ {
        Some(Lexeme::Else)
    } else if text == "for"@ {
        Some(Lexeme::For)
    } else if text == "while"@ {
        Some(Lexeme::While)
    } else if text == "true"@ {
        Some(Lexeme::True)
    } else if text == "false"@ {
        Some(Lexeme::False)
    } else {
        None
    }
}

/// The token for a complete run of identifier characters: the keyword it
/// spells, or else an identifier with that text.
pub open spec fn word(text: Seq<char>) -> Lexeme {
    match keyword(text) {
        Some(token) => token,
        None => Lexeme::Identifier(text),
    }
}

/// The value of a run of decimal digits.
pub open spec fn decimal(digits: Seq<char>) -> nat
    decreases digits.len(),
{
    if digits.len() == 0 {
        0
    } else {
        10 * decimal(digits.drop_last()) + digit_value(digits.last())
    }
}

/// The token for a complete run of digits: its value where that fits in an
/// `i32`, an error otherwise.
pub open spec fn number(digits: Seq<char>) -> Lexeme {
    if decimal(digits) <= i32::MAX {
        Lexeme::IntLiteral(decimal(digits) as i32)
    } else {
        LexError::IntegerOverflow.lexeme()
    }
}

/// The end of the longest run of digits that starts at `pos`.
pub open spec fn digits_end(input: Seq<char>, pos: int) -> int
    decreases input.len() - pos,
{
    if 0 <= pos < input.len() && is_digit(input[pos]) {
        digits_end(input, pos + 1)
    } else {
        pos
    }
}

/// The end of the longest run of identifier characters that starts at `pos`.
pub open spec fn word_end(input: Seq<char>, pos: int) -> int
    decreases input.len() - pos,
{
    if 0 <= pos < input.len() && is_identifier_char(input[pos]) {
        word_end(input, pos + 1)
    } else {
        pos
    }
}

/// The character that a backslash followed by `c` stands for in a string.
pub open spec fn unescape(c: char) -> Option<char> {
    if c == 'n' {
        Some('\n')
    } else if c == 't' {
        Some('\t')
    } else if c == '\\' {
        Some('\\')
    } else if c == '"' {
        Some('"')
    } else {
        None
    }
}

/// The rest of a quoted string whose opening quote has been passed, `text`
/// being what has been decoded of it so far.
///
/// The string ends at the first quote that no backslash escapes; its token
/// is an `Identifier` that carries the decoded text. A backslash followed by
/// a character that [`unescape`] does not know ends the scan right after
/// that character, with an error; so does the end of the text.
pub open spec fn string_body(input: Seq<char>, pos: int, text: Seq<char>) -> Scanned
    decreases input.len() - pos,
{
    if pos < 0 || pos >= input.len() {
        Scanned { token: LexError::UnterminatedString.lexeme(), next: pos }
    } else if input[pos] == '"' {
        Scanned { token: Lexeme::Identifier(text), next: pos + 1 }
    } else if input[pos] == '\\' {
        if pos + 1 >= input.len() {
            Scanned { token: LexError::UnterminatedString.lexeme(), next: pos + 1 }
        } else {
            match unescape(input[pos + 1]) {
                Some(c) => string_body(input, pos + 2, text.push(c)),
                None => Scanned { token: LexError::InvalidEscape.lexeme(), next: pos + 2 },
            }
        }
    } else {
        string_body(input, pos + 1, text.push(input[pos]))
    }
}

/// What the cursor is inside of while the scanner looks for the start of a
/// token.
pub enum Region {
    /// Ordinary text.
    Code,
    /// A comment that runs to the end of the line.
    LineComment,
    /// A block comment, with the number of `/*` that are still open.
    BlockComment(nat),
}

/// Whether the two characters at `pos` are `first` and `second`.
pub open spec fn pair_at(input: Seq<char>, pos: int, first: char, second: char) -> bool {
    0 <= pos && pos + 1 < input.len() && input[pos] == first && input[pos + 1] == second
}

/// The region in which the cursor stands after a `*/` that closes one level
/// of a block comment `depth` levels deep.
pub open spec fn after_close(depth: nat) -> Region {
    if depth <= 1 {
        Region::Code
    } else {
        Region::BlockComment((depth - 1) as nat)
    }
}

/// Where the next token starts, for a cursor at `pos` inside `region`:
/// the first position in ordinary text that holds neither whitespace nor
/// the opening of a comment. `None` if the text ends inside a block comment.
///
/// `//` opens a comment that ends with the line. `/*` opens a block comment;
/// inside one, every further `/*` opens a nested level and every `*/` closes
/// one, and ordinary text resumes when the outermost level is closed.
pub open spec fn token_start(input: Seq<char>, pos: int, region: Region) -> Option<int>
    decreases input.len() - pos,
{
    if pos < 0 || pos >= input.len() {
        match region {
            Region::BlockComment(_) => None,
            _ => Some(pos),
        }
    } else {
        match region {
            Region::Code => {
                if is_whitespace(input[pos]) {
                    token_start(input, pos + 1, Region::Code)
                } else if pair_at(input, pos, '/', '/') {
                    token_start(input, pos + 2, Region::LineComment)
                } else if pair_at(input, pos, '/', '*') {
                    token_start(input, pos + 2, Region::BlockComment(1))
                } else {
                    Some(pos)
                }
            },
            Region::LineComment => {
                if input[pos] == '\n' {
                    token_start(input, pos + 1, Region::Code)
                } else {
                    token_start(input, pos + 1, Region::LineComment)
                }
            },
            Region::BlockComment(depth) => {
                if pair_at(input, pos, '*', '/') {
                    token_start(input, pos + 2, after_close(depth))
                } else if pair_at(input, pos, '/', '*') {
                    token_start(input, pos + 2, Region::BlockComment(depth + 1))
                } else {
                    token_start(input, pos + 1, region)
                }
            },
        }
    }
}

/// The token that starts exactly at `pos`, which is where [`token_start`]
/// has led: no whitespace and no comment is skipped here.
///
/// Decided by the character at `pos`: a digit starts a number, a quote a
/// string, an operator character is a token by itself, an identifier
/// character starts a word; any other character is an error and is passed
/// over. Past the end of the text there is only `Eof`.
pub open spec fn token_at(input: Seq<char>, pos: int) -> Scanned {
    if pos < 0 || pos >= input.len() {
        Scanned { token: Lexeme::Eof, next: pos }
    } else {
        let c = input[pos];
        if is_digit(c) {
            let end = digits_end(input, pos);
            Scanned { token: number(input.subrange(pos, end)), next: end }
        } else if c == '"' {
            string_body(input, pos + 1, Seq::empty())
        } else if is_operator(c) {
            Scanned { token: operator(c), next: pos + 1 }
        } else if is_identifier_char(c) {
            let end = word_end(input, pos);
            Scanned { token: word(input.subrange(pos, end)), next: end }
        } else {
            Scanned { token: LexError::InvalidCharacter(c).lexeme(), next: pos + 1 }
        }
    }
}

/// One step of the scanner on `input` with the cursor at `pos`: the next
/// token, and the cursor behind it.
///
/// Whitespace and comments before the token are skipped. A block comment
/// that the text does not close yields an error at the end of the text.
pub open spec fn scan(input: Seq<char>, pos: int) -> Scanned {
    match token_start(input, pos, Region::Code) {
        Some(start) => token_at(input, start),
        None => Scanned { token: LexError::UnterminatedComment.lexeme(), next: input.len() as int },
    }
}

/// The tokens that repeated scanning delivers from `pos` on, up to and
/// including the first `Eof`.
///
/// A scan that yields another token than `Eof` moves the cursor forward
/// ([`lemma_scan_advances`]), so the condition on the cursor never decides;
/// it is there for the definition to be well-founded.
pub open spec fn tokens_from(input: Seq<char>, pos: int) -> Seq<Lexeme>
    decreases input.len() - pos,
{
    let step = scan(input, pos);
    if step.token != Lexeme::Eof && pos < step.next <= input.len() {
        seq![step.token] + tokens_from(input, step.next)
    } else {
        seq![Lexeme::Eof]
    }
}

/// A run of digits ends inside the text, and behind its first digit.
pub proof fn lemma_digits_end(input: Seq<char>, pos: int)
    requires
        0 <= pos <= input.len(),
    ensures
        pos <= digits_end(input, pos) <= input.len(),
        pos < input.len() && is_digit(input[pos]) ==> pos < digits_end(input, pos),
    decreases input.len() - pos,
{
    if pos < input.len() && is_digit(input[pos]) {
        lemma_digits_end(input, pos + 1);
    }
}

/// A run of identifier characters ends inside the text, and behind its
/// first character.
pub proof fn lemma_word_end(input: Seq<char>, pos: int)
    requires
        0 <= pos <= input.len(),
    ensures
        pos <= word_end(input, pos) <= input.len(),
        pos < input.len() && is_identifier_char(input[pos]) ==> pos < word_end(input, pos),
    decreases input.len() - pos,
{
    if pos < input.len() && is_identifier_char(input[pos]) {
        lemma_word_end(input, pos + 1);
    }
}

/// The scan of a string ends inside the text and not before the place
/// where it began; it never yields `Eof`.
pub proof fn lemma_string_body(input: Seq<char>, pos: int, text: Seq<char>)
    requires
        0 <= pos <= input.len(),
    ensures
        pos <= string_body(input, pos, text).next <= input.len(),
        string_body(input, pos, text).token != Lexeme::Eof,
    decreases input.len() - pos,
{
    if pos < input.len() && input[pos] != '"' {
        if input[pos] == '\\' {
            if pos + 1 < input.len() {
                match unescape(input[pos + 1]) {
                    Some(c) => lemma_string_body(input, pos + 2, text.push(c)),
                    None => {},
                }
            }
        } else {
            lemma_string_body(input, pos + 1, text.push(input[pos]));
        }
    }
}

/// A token starts inside the text and not before the cursor.
pub proof fn lemma_token_start(input: Seq<char>, pos: int, region: Region)
    requires
        0 <= pos <= input.len(),
    ensures
        token_start(input, pos, region) matches Some(start) ==> pos <= start <= input.len(),
    decreases input.len() - pos,
{
    if pos < input.len() {
        match region {
            Region::Code => {
                if is_whitespace(input[pos]) {
                    lemma_token_start(input, pos + 1, Region::Code);
                } else if pair_at(input, pos, '/', '/') {
                    lemma_token_start(input, pos + 2, Region::LineComment);
                } else if pair_at(input, pos, '/', '*') {
                    lemma_token_start(input, pos + 2, Region::BlockComment(1));
                }
            },
            Region::LineComment => {
                if input[pos] == '\n' {
                    lemma_token_start(input, pos + 1, Region::Code);
                } else {
                    lemma_token_start(input, pos + 1, Region::LineComment);
                }
            },
            Region::BlockComment(depth) => {
                if pair_at(input, pos, '*', '/') {
                    lemma_token_start(input, pos + 2, after_close(depth));
                } else if pair_at(input, pos, '/', '*') {
                    lemma_token_start(input, pos + 2, Region::BlockComment(depth + 1));
                } else {
                    lemma_token_start(input, pos + 1, region);
                }
            },
        }
    }
}

/// The cursor never goes back, and only the end of the text stops it: a
/// scan that yields a token other than `Eof` moves the cursor forward, and
/// a scan that yields `Eof` leaves it at the end of the text.
pub proof fn lemma_scan_advances(input: Seq<char>, pos: int)
    requires
        0 <= pos <= input.len(),
    ensures
        pos <= scan(input, pos).next <= input.len(),
        scan(input, pos).token != Lexeme::Eof ==> pos < scan(input, pos).next,
        scan(input, pos).token == Lexeme::Eof ==> scan(input, pos).next == input.len(),
{
    lemma_token_start(input, pos, Region::Code);
    match token_start(input, pos, Region::Code) {
        Some(start) => {
            if start < input.len() {
                lemma_digits_end(input, start);
                lemma_word_end(input, start);
                lemma_string_body(input, start + 1, Seq::empty());
            }
        },
        None => {
            assert(pos < input.len());
        },
    }
}

/// `Eof` is final: once a scan has yielded `Eof`, scanning again from where
/// it left the cursor yields `Eof` again and leaves the cursor in place.
pub proof fn lemma_eof_is_final(input: Seq<char>, pos: int)
    requires
        0 <= pos <= input.len(),
        scan(input, pos).token == Lexeme::Eof,
    ensures
        scan(input, scan(input, pos).next) == scan(input, pos),
{
    lemma_scan_advances(input, pos);
    lemma_token_start(input, pos, Region::Code);
}

/// The stream from a cursor is the token scanned there, followed, unless
/// that token is `Eof`, by the stream from the cursor behind it.
pub proof fn lemma_tokens_from_unfold(input: Seq<char>, pos: int)
    requires
        0 <= pos <= input.len(),
    ensures
        tokens_from(input, pos) == if scan(input, pos).token == Lexeme::Eof {
            seq![Lexeme::Eof]
        } else {
            seq![scan(input, pos).token] + tokens_from(input, scan(input, pos).next)
        },
{
    lemma_scan_advances(input, pos);
}

} // verus!
