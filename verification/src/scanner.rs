//! The scanner: source text in, a flat sequence of tokens out.

use crate::text::{
    all_digits, bracketed, characters, debug_quoted, decimal_digits, decimal_value, digit_value,
    integer_digits, is_digit, lemma_decimal_digits_are_digits, lemma_decimal_round_trip,
    lemma_decimal_value_grows, newline_count, push_bracketed, push_integer, push_text, quote,
    same_text,
};
use vstd::prelude::*;
use vstd::std_specs::cmp::PartialEqSpecImpl;

verus! {

/// A classified lexical unit.
#[derive(Debug)]
pub enum Token {
    StringLiteral(String),
    NumberLiteral(i64),
    BooleanLiteral(bool),
    BuiltinFn(String),
    Keyword(String),
    Identifier(String),
    // Brackets
    ParenLeft,
    ParenRight,
    CurlyLeft,
    CurlyRight,
    SquareLeft,
    SquareRight,
    // Operators
    OpAdd,
    OpSub,
    OpDiv,
    OpMul,
    OpAssign,
    OpEq,
    OpUneq,
    OpLess,
    OpMore,
    OpLessEq,
    OpMoreEq,
    OpNot,
    OpSemicolon,
    OpColon,
    OpMod,
    BitwiseXor,
    BitwiseAnd,
    BitwiseOr,
    OpPeriod,
    OpNewline,
    OpComma,
    /// What a reader finds past the last token of a sequence.
    End,
}

/// What a token is, with its text as a sequence of characters.
pub enum TokenView {
    StringLiteral(Seq<char>),
    NumberLiteral(i64),
    BooleanLiteral(bool),
    BuiltinFn(Seq<char>),
    Keyword(Seq<char>),
    Identifier(Seq<char>),
    ParenLeft,
    ParenRight,
    CurlyLeft,
    CurlyRight,
    SquareLeft,
    SquareRight,
    OpAdd,
    OpSub,
    OpDiv,
    OpMul,
    OpAssign,
    OpEq,
    OpUneq,
    OpLess,
    OpMore,
    OpLessEq,
    OpMoreEq,
    OpNot,
    OpSemicolon,
    OpColon,
    OpMod,
    BitwiseXor,
    BitwiseAnd,
    BitwiseOr,
    OpPeriod,
    OpNewline,
    OpComma,
    End,
}

impl View for Token {
    type V = TokenView;

    open spec fn view(&self) -> TokenView {
        match self {
            Token::StringLiteral(s) => TokenView::StringLiteral(s@),
            Token::NumberLiteral(n) => TokenView::NumberLiteral(*n),
            Token::BooleanLiteral(b) => TokenView::BooleanLiteral(*b),
            Token::BuiltinFn(s) => TokenView::BuiltinFn(s@),
            Token::Keyword(s) => TokenView::Keyword(s@),
            Token::Identifier(s) => TokenView::Identifier(s@),
            Token::ParenLeft => TokenView::ParenLeft,
            Token::ParenRight => TokenView::ParenRight,
            Token::CurlyLeft => TokenView::CurlyLeft,
            Token::CurlyRight => TokenView::CurlyRight,
            Token::SquareLeft => TokenView::SquareLeft,
            Token::SquareRight => TokenView::SquareRight,
            Token::OpAdd => TokenView::OpAdd,
            Token::OpSub => TokenView::OpSub,
            Token::OpDiv => TokenView::OpDiv,
            Token::OpMul => TokenView::OpMul,
            Token::OpAssign => TokenView::OpAssign,
            Token::OpEq => TokenView::OpEq,
            Token::OpUneq => TokenView::OpUneq,
            Token::OpLess => TokenView::OpLess,
            Token::OpMore => TokenView::OpMore,
            Token::OpLessEq => TokenView::OpLessEq,
            Token::OpMoreEq => TokenView::OpMoreEq,
            Token::OpNot => TokenView::OpNot,
            Token::OpSemicolon => TokenView::OpSemicolon,
            Token::OpColon => TokenView::OpColon,
            Token::OpMod => TokenView::OpMod,
            Token::BitwiseXor => TokenView::BitwiseXor,
            Token::BitwiseAnd => TokenView::BitwiseAnd,
            Token::BitwiseOr => TokenView::BitwiseOr,
            Token::OpPeriod => TokenView::OpPeriod,
            Token::OpNewline => TokenView::OpNewline,
            Token::OpComma => TokenView::OpComma,
            Token::End => TokenView::End,
        }
    }
}

impl Clone for Token {
    fn clone(&self) -> (copy: Token)
        ensures
            copy@ == self@,
    {
        match self {
            Token::StringLiteral(s) => Token::StringLiteral(s.clone()),
            Token::NumberLiteral(n) => Token::NumberLiteral(*n),
            Token::BooleanLiteral(b) => Token::BooleanLiteral(*b),
            Token::BuiltinFn(s) => Token::BuiltinFn(s.clone()),
            Token::Keyword(s) => Token::Keyword(s.clone()),
            Token::Identifier(s) => Token::Identifier(s.clone()),
            Token::ParenLeft => Token::ParenLeft,
            Token::ParenRight => Token::ParenRight,
            Token::CurlyLeft => Token::CurlyLeft,
            Token::CurlyRight => Token::CurlyRight,
            Token::SquareLeft => Token::SquareLeft,
            Token::SquareRight => Token::SquareRight,
            Token::OpAdd => Token::OpAdd,
            Token::OpSub => Token::OpSub,
            Token::OpDiv => Token::OpDiv,
            Token::OpMul => Token::OpMul,
            Token::OpAssign => Token::OpAssign,
            Token::OpEq => Token::OpEq,
            Token::OpUneq => Token::OpUneq,
            Token::OpLess => Token::OpLess,
            Token::OpMore => Token::OpMore,
            Token::OpLessEq => Token::OpLessEq,
            Token::OpMoreEq => Token::OpMoreEq,
            Token::OpNot => Token::OpNot,
            Token::OpSemicolon => Token::OpSemicolon,
            Token::OpColon => Token::OpColon,
            Token::OpMod => Token::OpMod,
            Token::BitwiseXor => Token::BitwiseXor,
            Token::BitwiseAnd => Token::BitwiseAnd,
            Token::BitwiseOr => Token::BitwiseOr,
            Token::OpPeriod => Token::OpPeriod,
            Token::OpNewline => Token::OpNewline,
            Token::OpComma => Token::OpComma,
            Token::End => Token::End,
        }
    }
}

/// Two tokens are equal when they are of the same kind and carry the same
/// payload.
impl PartialEq for Token {
    fn eq(&self, other: &Token) -> (equal: bool) {
        match (self, other) {
            (Token::StringLiteral(a), Token::StringLiteral(b)) => *a == *b,
            (Token::NumberLiteral(a), Token::NumberLiteral(b)) => *a == *b,
            (Token::BooleanLiteral(a), Token::BooleanLiteral(b)) => *a == *b,
            (Token::BuiltinFn(a), Token::BuiltinFn(b)) => *a == *b,
            (Token::Keyword(a), Token::Keyword(b)) => *a == *b,
            (Token::Identifier(a), Token::Identifier(b)) => *a == *b,
            (Token::ParenLeft, Token::ParenLeft) => true,
            (Token::ParenRight, Token::ParenRight) => true,
            (Token::CurlyLeft, Token::CurlyLeft) => true,
            (Token::CurlyRight, Token::CurlyRight) => true,
            (Token::SquareLeft, Token::SquareLeft) => true,
            (Token::SquareRight, Token::SquareRight) => true,
            (Token::OpAdd, Token::OpAdd) => true,
            (Token::OpSub, Token::OpSub) => true,
            (Token::OpDiv, Token::OpDiv) => true,
            (Token::OpMul, Token::OpMul) => true,
            (Token::OpAssign, Token::OpAssign) => true,
            (Token::OpEq, Token::OpEq) => true,
            (Token::OpUneq, Token::OpUneq) => true,
            (Token::OpLess, Token::OpLess) => true,
            (Token::OpMore, Token::OpMore) => true,
            (Token::OpLessEq, Token::OpLessEq) => true,
            (Token::OpMoreEq, Token::OpMoreEq) => true,
            (Token::OpNot, Token::OpNot) => true,
            (Token::OpSemicolon, Token::OpSemicolon) => true,
            (Token::OpColon, Token::OpColon) => true,
            (Token::OpMod, Token::OpMod) => true,
            (Token::BitwiseXor, Token::BitwiseXor) => true,
            (Token::BitwiseAnd, Token::BitwiseAnd) => true,
            (Token::BitwiseOr, Token::BitwiseOr) => true,
            (Token::OpPeriod, Token::OpPeriod) => true,
            (Token::OpNewline, Token::OpNewline) => true,
            (Token::OpComma, Token::OpComma) => true,
            (Token::End, Token::End) => true,
            _ => false,
        }
    }
}

impl PartialEqSpecImpl for Token {
    open spec fn obeys_eq_spec() -> bool {
        true
    }

    open spec fn eq_spec(&self, other: &Token) -> bool {
        self@ == other@
    }
}

/// The views of a sequence of tokens, in order.
pub open spec fn token_views(tokens: Seq<Token>) -> Seq<TokenView> {
    tokens.map_values(|t: Token| t@)
}

/// The name of a token's kind, as it is written in diagnostics.
pub open spec fn kind_name(token: TokenView) -> Seq<char> {
    match token {
        TokenView::StringLiteral(_) => "StringLiteral"@,
        TokenView::NumberLiteral(_) => "NumberLiteral"@,
        TokenView::BooleanLiteral(_) => "BooleanLiteral"@,
        TokenView::BuiltinFn(_) => "BuiltinFn"@,
        TokenView::Keyword(_) => "Keyword"@,
        TokenView::Identifier(_) => "Identifier"@,
        TokenView::ParenLeft => "ParenLeft"@,
        TokenView::ParenRight => "ParenRight"@,
        TokenView::CurlyLeft => "CurlyLeft"@,
        TokenView::CurlyRight => "CurlyRight"@,
        TokenView::SquareLeft => "SquareLeft"@,
        TokenView::SquareRight => "SquareRight"@,
        TokenView::OpAdd => "OpAdd"@,
        TokenView::OpSub => "OpSub"@,
        TokenView::OpDiv => "OpDiv"@,
        TokenView::OpMul => "OpMul"@,
        TokenView::OpAssign => "OpAssign"@,
        TokenView::OpEq => "OpEq"@,
        TokenView::OpUneq => "OpUneq"@,
        TokenView::OpLess => "OpLess"@,
        TokenView::OpMore => "OpMore"@,
        TokenView::OpLessEq => "OpLessEq"@,
        TokenView::OpMoreEq => "OpMoreEq"@,
        TokenView::OpNot => "OpNot"@,
        TokenView::OpSemicolon => "OpSemicolon"@,
        TokenView::OpColon => "OpColon"@,
        TokenView::OpMod => "OpMod"@,
        TokenView::BitwiseXor => "BitwiseXor"@,
        TokenView::BitwiseAnd => "BitwiseAnd"@,
        TokenView::BitwiseOr => "BitwiseOr"@,
        TokenView::OpPeriod => "OpPeriod"@,
        TokenView::OpNewline => "OpNewline"@,
        TokenView::OpComma => "OpComma"@,
        TokenView::End => "End"@,
    }
}

/// A token's payload as it is written in diagnostics: between round
/// brackets, a string quoted, a number as its numeral. Empty for a token
/// without payload.
pub open spec fn payload_text(token: TokenView) -> Seq<char> {
    match token {
        TokenView::StringLiteral(s)
        | TokenView::BuiltinFn(s)
        | TokenView::Keyword(s)
        | TokenView::Identifier(s) => bracketed(debug_quoted(s)),
        TokenView::NumberLiteral(n) => bracketed(integer_digits(n as int)),
        TokenView::BooleanLiteral(b) => bracketed(
            if b {
                "true"@
            } else {
                "false"@
            },
        ),
        _ => Seq::empty(),
    }
}

/// How a token is written in diagnostics: the name of its kind, then its
/// payload.
pub open spec fn debug_text(token: TokenView) -> Seq<char> {
    kind_name(token) + payload_text(token)
}

impl Token {
    /// The name of this token's kind.
    pub fn kind(&self) -> (name: &'static str)
        ensures
            name@ == kind_name(self@),
    {
        match self {
            Token::StringLiteral(_) => "StringLiteral",
            Token::NumberLiteral(_) => "NumberLiteral",
            Token::BooleanLiteral(_) => "BooleanLiteral",
            Token::BuiltinFn(_) => "BuiltinFn",
            Token::Keyword(_) => "Keyword",
            Token::Identifier(_) => "Identifier",
            Token::ParenLeft => "ParenLeft",
            Token::ParenRight => "ParenRight",
            Token::CurlyLeft => "CurlyLeft",
            Token::CurlyRight => "CurlyRight",
            Token::SquareLeft => "SquareLeft",
            Token::SquareRight => "SquareRight",
            Token::OpAdd => "OpAdd",
            Token::OpSub => "OpSub",
            Token::OpDiv => "OpDiv",
            Token::OpMul => "OpMul",
            Token::OpAssign => "OpAssign",
            Token::OpEq => "OpEq",
            Token::OpUneq => "OpUneq",
            Token::OpLess => "OpLess",
            Token::OpMore => "OpMore",
            Token::OpLessEq => "OpLessEq",
            Token::OpMoreEq => "OpMoreEq",
            Token::OpNot => "OpNot",
            Token::OpSemicolon => "OpSemicolon",
            Token::OpColon => "OpColon",
            Token::OpMod => "OpMod",
            Token::BitwiseXor => "BitwiseXor",
            Token::BitwiseAnd => "BitwiseAnd",
            Token::BitwiseOr => "BitwiseOr",
            Token::OpPeriod => "OpPeriod",
            Token::OpNewline => "OpNewline",
            Token::OpComma => "OpComma",
            Token::End => "End",
        }
    }

    /// Appends to `out` this token as diagnostics write it.
    pub fn push_debug(&self, out: &mut String)
        ensures
            final(out)@ == old(out)@ + debug_text(self@),
    {
        push_text(out, self.kind());
        let ghost named = out@;
        match self {
            Token::StringLiteral(s) | Token::BuiltinFn(s) | Token::Keyword(s) | Token::Identifier(s) => {
                let quoted = quote(s.as_str());
                push_bracketed(out, quoted.as_str());
            },
            Token::NumberLiteral(n) => {
                let mut numeral = String::new();
                push_integer(&mut numeral, *n);
                assert(numeral@ =~= integer_digits(*n as int));
                push_bracketed(out, numeral.as_str());
            },
            Token::BooleanLiteral(b) => {
                push_bracketed(
                    out,
                    if *b {
                        "true"
                    } else {
                        "false"
                    },
                );
            },
            _ => {
                assert(out@ =~= named + payload_text(self@));
            },
        }
        assert(out@ =~= old(out)@ + debug_text(self@));
    }
}

/// White space: the characters that carry the Unicode property White_Space.
pub open spec fn is_whitespace(c: char) -> bool {
    let n = c as u32;
    ||| 0x09 <= n <= 0x0D
    ||| n == 0x20
    ||| n == 0x85
    ||| n == 0xA0
    ||| n == 0x1680
    ||| 0x2000 <= n <= 0x200A
    ||| n == 0x2028
    ||| n == 0x2029
    ||| n == 0x202F
    ||| n == 0x205F
    ||| n == 0x3000
}

/// An ASCII letter or the underscore: what identifiers and keywords are
/// made of.
pub open spec fn is_word_char(c: char) -> bool {
    ('a' <= c && c <= 'z') || ('A' <= c && c <= 'Z') || c == '_'
}

/// The reserved words.
pub open spec fn is_keyword(word: Seq<char>) -> bool {
    ||| word == "let"@
    ||| word == "mut"@
    ||| word == "pub"@
    ||| word == "fn"@
    ||| word == "struct"@
    ||| word == "enum"@
    ||| word == "from"@
    ||| word == "import"@
    ||| word == "or"@
    ||| word == "and"@
}

/// The token that a run of letters and underscores makes.
pub open spec fn word_token(word: Seq<char>) -> TokenView {
    if is_keyword(word) {
        TokenView::Keyword(word)
    } else {
        TokenView::Identifier(word)
    }
}

/// The token that a character makes on its own, if it makes one.
pub open spec fn punctuation(c: char) -> Option<TokenView> {
    if c == '.' {
        Some(TokenView::OpPeriod)
    } else if c == '+' {
        Some(TokenView::OpAdd)
    } else if c == '-' {
        Some(TokenView::OpSub)
    } else if c == '*' {
        Some(TokenView::OpMul)
    } else if c == '/' {
        Some(TokenView::OpDiv)
    } else if c == '!' {
        Some(TokenView::OpNot)
    } else if c == '%' {
        Some(TokenView::OpMod)
    } else if c == ':' {
        Some(TokenView::OpColon)
    } else if c == ';' {
        Some(TokenView::OpSemicolon)
    } else if c == '=' {
        Some(TokenView::OpAssign)
    } else if c == '{' {
        Some(TokenView::CurlyLeft)
    } else if c == '}' {
        Some(TokenView::CurlyRight)
    } else if c == '(' {
        Some(TokenView::ParenLeft)
    } else if c == ')' {
        Some(TokenView::ParenRight)
    } else if c == '[' {
        Some(TokenView::SquareLeft)
    } else if c == ']' {
        Some(TokenView::SquareRight)
    } else if c == '>' {
        Some(TokenView::OpMore)
    } else if c == '<' {
        Some(TokenView::OpLess)
    } else if c == '^' {
        Some(TokenView::BitwiseXor)
    } else if c == '|' {
        Some(TokenView::BitwiseOr)
    } else if c == '&' {
        Some(TokenView::BitwiseAnd)
    } else if c == ',' {
        Some(TokenView::OpComma)
    } else {
        None
    }
}

/// The characters of `s` from index `from` up to, not including, index `to`.
pub open spec fn stretch(s: Seq<char>, from: int, to: int) -> Seq<char> {
    Seq::new((to - from) as nat, |i: int| s[from + i])
}

/// Where the run of word characters that starts at `from` ends: the first
/// index at or after `from` that holds no word character, or the length of
/// the source.
pub open spec fn word_end(s: Seq<char>, from: int) -> int
    decreases s.len() - from,
{
    if 0 <= from < s.len() && is_word_char(s[from]) {
        word_end(s, from + 1)
    } else {
        from
    }
}

/// Where the run of digits that starts at `from` ends.
pub open spec fn digits_end(s: Seq<char>, from: int) -> int
    decreases s.len() - from,
{
    if 0 <= from < s.len() && is_digit(s[from]) {
        digits_end(s, from + 1)
    } else {
        from
    }
}

/// The text of a string literal whose body is read from index `at` on.
/// A backslash is dropped and the character after it is taken as it is,
/// a double quote among them; a double quote that no backslash precedes
/// ends the literal, and so does the end of the source.
pub open spec fn literal_text(s: Seq<char>, at: int, escaped: bool) -> Seq<char>
    decreases s.len() - at,
{
    if at < 0 || at >= s.len() {
        Seq::empty()
    } else if escaped {
        seq![s[at]] + literal_text(s, at + 1, false)
    } else if s[at] == '\\' {
        literal_text(s, at + 1, true)
    } else if s[at] == '"' {
        Seq::empty()
    } else {
        seq![s[at]] + literal_text(s, at + 1, false)
    }
}

/// The index after the double quote that closes the literal whose body is
/// read from `at` on, or the length of the source where none closes it.
pub open spec fn literal_end(s: Seq<char>, at: int, escaped: bool) -> int
    decreases s.len() - at,
{
    if at < 0 || at >= s.len() {
        at
    } else if escaped {
        literal_end(s, at + 1, false)
    } else if s[at] == '\\' {
        literal_end(s, at + 1, true)
    } else if s[at] == '"' {
        at + 1
    } else {
        literal_end(s, at + 1, false)
    }
}

/// Why a source cannot be scanned.
#[derive(Debug, Clone, Copy, PartialEq, Eq)]
pub enum ScanError {
    /// A character that begins no token stands at `position`.
    UnknownCharacter { character: char, position: usize },
    /// The number that begins at `position` does not fit in 64 bits with
    /// sign.
    NumberTooLarge { position: usize },
}

/// One step of the scanner: the token it makes, if any, and the index at
/// which the next step begins.
pub struct Lexeme {
    pub token: Option<TokenView>,
    pub end: int,
}

/// The step that the scanner takes at index `at` of a source.
pub open spec fn lexeme_at(s: Seq<char>, at: int) -> Result<Lexeme, ScanError>
    recommends
        0 <= at < s.len(),
{
    let c = s[at];
    if is_whitespace(c) {
        Ok(
            Lexeme {
                token: if c == '\n' {
                    Some(TokenView::OpNewline)
                } else {
                    None
                },
                end: at + 1,
            },
        )
    } else if is_word_char(c) {
        let end = word_end(s, at);
        Ok(Lexeme { token: Some(word_token(stretch(s, at, end))), end })
    } else if is_digit(c) {
        let end = digits_end(s, at);
        let value = decimal_value(stretch(s, at, end));
        if value <= i64::MAX {
            Ok(Lexeme { token: Some(TokenView::NumberLiteral(value as i64)), end })
        } else {
            Err(ScanError::NumberTooLarge { position: at as usize })
        }
    } else if c == '"' {
        Ok(
            Lexeme {
                token: Some(TokenView::StringLiteral(literal_text(s, at + 1, false))),
                end: literal_end(s, at + 1, false),
            },
        )
    } else {
        match punctuation(c) {
            Some(token) => Ok(Lexeme { token: Some(token), end: at + 1 }),
            None => Err(ScanError::UnknownCharacter { character: c, position: at as usize }),
        }
    }
}

/// What scanning a source from some index on gives: the tokens made, the
/// index at which scanning stopped, and the error that stopped it, if one
/// did.
pub struct Scanned {
    pub tokens: Seq<TokenView>,
    pub stop: int,
    pub error: Option<ScanError>,
}

/// Scanning the source `s` from index `at` on: step by step to the end of
/// the source, or to the first step that fails. On failure `stop` is the
/// index at which the failing step began.
pub open spec fn scan_from(s: Seq<char>, at: int) -> Scanned
    decreases s.len() - at,
{
    if at < 0 || at >= s.len() {
        Scanned { tokens: Seq::empty(), stop: at, error: None }
    } else {
        match lexeme_at(s, at) {
            Err(error) => Scanned { tokens: Seq::empty(), stop: at, error: Some(error) },
            Ok(lexeme) => {
                proof {
                    lemma_lexeme_advances(s, at);
                }
                let rest = scan_from(s, lexeme.end);
                Scanned {
                    tokens: match lexeme.token {
                        Some(token) => seq![token] + rest.tokens,
                        None => rest.tokens,
                    },
                    stop: rest.stop,
                    error: rest.error,
                }
            },
        }
    }
}

/// A run of word characters is maximal: it holds word characters only, and
/// ends at the end of the source or before a character of another kind.
pub proof fn lemma_word_end(s: Seq<char>, from: int)
    requires
        0 <= from <= s.len(),
    ensures
        from <= word_end(s, from) <= s.len(),
        forall|i: int| from <= i < word_end(s, from) ==> is_word_char(#[trigger] s[i]),
        word_end(s, from) == s.len() || !is_word_char(s[word_end(s, from)]),
        from < s.len() && is_word_char(s[from]) ==> from < word_end(s, from),
    decreases s.len() - from,
{
    if from < s.len() && is_word_char(s[from]) {
        lemma_word_end(s, from + 1);
    }
}

/// A run of digits is maximal: it holds digits only, and ends at the end of
/// the source or before a character that is no digit.
pub proof fn lemma_digits_end(s: Seq<char>, from: int)
    requires
        0 <= from <= s.len(),
    ensures
        from <= digits_end(s, from) <= s.len(),
        forall|i: int| from <= i < digits_end(s, from) ==> is_digit(#[trigger] s[i]),
        digits_end(s, from) == s.len() || !is_digit(s[digits_end(s, from)]),
        from < s.len() && is_digit(s[from]) ==> from < digits_end(s, from),
    decreases s.len() - from,
{
    if from < s.len() && is_digit(s[from]) {
        lemma_digits_end(s, from + 1);
    }
}

/// A string literal ends within the source, at or after the index from
/// which its body is read.
pub proof fn lemma_literal_end(s: Seq<char>, at: int, escaped: bool)
    requires
        0 <= at <= s.len(),
    ensures
        at <= literal_end(s, at, escaped) <= s.len(),
    decreases s.len() - at,
{
    if at < s.len() {
        if escaped {
            lemma_literal_end(s, at + 1, false);
        } else if s[at] == '\\' {
            lemma_literal_end(s, at + 1, true);
        } else if s[at] == '"' {
        } else {
            lemma_literal_end(s, at + 1, false);
        }
    }
}

/// Every step of the scanner moves forward and stays within the source.
pub proof fn lemma_lexeme_advances(s: Seq<char>, at: int)
    requires
        0 <= at < s.len(),
    ensures
        lexeme_at(s, at) matches Ok(lexeme) ==> at < lexeme.end <= s.len(),
{
    lemma_word_end(s, at);
    lemma_digits_end(s, at);
    lemma_literal_end(s, at + 1, false);
}

/// Whether `c` is white space.
pub fn whitespace(c: char) -> (yes: bool)
    ensures
        yes == is_whitespace(c),
{
    let n: u32 = c as u32;
    (0x09 <= n && n <= 0x0D) || n == 0x20 || n == 0x85 || n == 0xA0 || n == 0x1680 || (0x2000 <= n
        && n <= 0x200A) || n == 0x2028 || n == 0x2029 || n == 0x202F || n == 0x205F || n == 0x3000
}

/// Whether `c` is a letter of ASCII or the underscore.
pub fn word_char(c: char) -> (yes: bool)
    ensures
        yes == is_word_char(c),
{
    ('a' <= c && c <= 'z') || ('A' <= c && c <= 'Z') || c == '_'
}

/// Whether `c` is a decimal digit.
pub fn digit(c: char) -> (yes: bool)
    ensures
        yes == is_digit(c),
{
    '0' <= c && c <= '9'
}

/// Whether `word` is reserved.
pub fn keyword(word: &str) -> (yes: bool)
    ensures
        yes == is_keyword(word@),
{
    same_text(word, "let") || same_text(word, "mut") || same_text(word, "pub") || same_text(
        word,
        "fn",
    ) || same_text(word, "struct") || same_text(word, "enum") || same_text(word, "from")
        || same_text(word, "import") || same_text(word, "or") || same_text(word, "and")
}

/// The token that `c` makes on its own, if it makes one.
pub fn punctuation_token(c: char) -> (token: Option<Token>)
    ensures
        match token {
            Some(t) => punctuation(c) == Some(t@),
            None => punctuation(c) is None,
        },
{
    if c == '.' {
        Some(Token::OpPeriod)
    } else if c == '+' {
        Some(Token::OpAdd)
    } else if c == '-' {
        Some(Token::OpSub)
    } else if c == '*' {
        Some(Token::OpMul)
    } else if c == '/' {
        Some(Token::OpDiv)
    } else if c == '!' {
        Some(Token::OpNot)
    } else if c == '%' {
        Some(Token::OpMod)
    } else if c == ':' {
        Some(Token::OpColon)
    } else if c == ';' {
        Some(Token::OpSemicolon)
    } else if c == '=' {
        Some(Token::OpAssign)
    } else if c == '{' {
        Some(Token::CurlyLeft)
    } else if c == '}' {
        Some(Token::CurlyRight)
    } else if c == '(' {
        Some(Token::ParenLeft)
    } else if c == ')' {
        Some(Token::ParenRight)
    } else if c == '[' {
        Some(Token::SquareLeft)
    } else if c == ']' {
        Some(Token::SquareRight)
    } else if c == '>' {
        Some(Token::OpMore)
    } else if c == '<' {
        Some(Token::OpLess)
    } else if c == '^' {
        Some(Token::BitwiseXor)
    } else if c == '|' {
        Some(Token::BitwiseOr)
    } else if c == '&' {
        Some(Token::BitwiseAnd)
    } else if c == ',' {
        Some(Token::OpComma)
    } else {
        None
    }
}

/// A source text, a cursor into it, and the tokens made so far.
pub struct Scanner {
    pub source: Vec<char>,
    pub current: usize,
    pub tokens: Vec<Token>,
}

impl Scanner {
    /// The characters of the source.
    pub open spec fn text(&self) -> Seq<char> {
        self.source@
    }

    /// The index of the character under the cursor.
    pub open spec fn cursor(&self) -> int {
        self.current as int
    }

    /// A scanner over `source` with its cursor at the character of index
    /// `current`, and no token made yet.
    pub fn new(source: String, current: usize) -> (scanner: Scanner)
        ensures
            scanner.text() == source@,
            scanner.cursor() == current,
            scanner.tokens@ == Seq::<Token>::empty(),
    {
        Scanner { source: characters(source.as_str()), current, tokens: Vec::new() }
    }

    /// The character under the cursor, if the cursor is within the source.
    pub fn get_current(&self) -> (c: Option<char>)
        ensures
            c == if self.cursor() < self.text().len() {
                Some(self.text()[self.cursor()])
            } else {
                None
            },
    {
        if self.current < self.source.len() {
            Some(self.source[self.current])
        } else {
            None
        }
    }

    /// Moves the cursor one character on and gives the character then
    /// under it, if the cursor is then within the source.
    pub fn advance(&mut self) -> (c: Option<char>)
        requires
            old(self).cursor() < usize::MAX,
        ensures
            final(self).text() == old(self).text(),
            final(self).tokens == old(self).tokens,
            final(self).cursor() == old(self).cursor() + 1,
            c == if final(self).cursor() < final(self).text().len() {
                Some(final(self).text()[final(self).cursor()])
            } else {
                None
            },
    {
        self.current += 1;
        self.get_current()
    }

    /// Reads the run of word characters under the cursor and leaves the
    /// cursor after it.
    pub fn identifier(&mut self) -> (token: Token)
        ensures
            final(self).text() == old(self).text(),
            final(self).tokens == old(self).tokens,
            final(self).cursor() == word_end(old(self).text(), old(self).cursor()),
            token@ == word_token(
                stretch(old(self).text(), old(self).cursor(), final(self).cursor()),
            ),
    {
        let ghost s = self.source@;
        let start = self.current;
        let mut word = String::new();
        assert(word@ =~= stretch(s, start as int, start as int));
        while self.current < self.source.len() && word_char(self.source[self.current])
            invariant
                self.source@ == s,
                s == old(self).source@,
                start == old(self).current,
                self.tokens == old(self).tokens,
                start <= self.current,
                word@ == stretch(s, start as int, self.current as int),
                word_end(s, start as int) == word_end(s, self.current as int),
            decreases s.len() - self.current,
        {
            word.push(self.source[self.current]);
            self.current += 1;
            assert(word@ =~= stretch(s, start as int, self.current as int));
        }
        if keyword(word.as_str()) {
            Token::Keyword(word)
        } else {
            Token::Identifier(word)
        }
    }

    /// Reads the run of digits under the cursor as a decimal number and
    /// leaves the cursor after it. A number above `i64::MAX` is an error,
    /// and leaves the cursor where it was.
    pub fn number(&mut self) -> (token: Result<Token, ScanError>)
        ensures
            final(self).text() == old(self).text(),
            final(self).tokens == old(self).tokens,
            ({
                let s = old(self).text();
                let start = old(self).cursor();
                let end = digits_end(s, start);
                let value = decimal_value(stretch(s, start, end));
                if value <= i64::MAX {
                    &&& token matches Ok(t)
                    &&& t@ == TokenView::NumberLiteral(value as i64)
                    &&& final(self).cursor() == end
                } else {
                    &&& token == Err::<Token, ScanError>(
                        ScanError::NumberTooLarge { position: start as usize },
                    )
                    &&& final(self).cursor() == start
                }
            }),
    {
        let ghost s = self.source@;
        let start = self.current;
        let mut value: i64 = 0;
        assert(stretch(s, start as int, start as int) =~= Seq::<char>::empty());
        while self.current < self.source.len() && digit(self.source[self.current])
            invariant
                self.source@ == s,
                s == old(self).source@,
                start == old(self).current,
                self.tokens == old(self).tokens,
                start <= self.current,
                0 <= value,
                value == decimal_value(stretch(s, start as int, self.current as int)),
                digits_end(s, start as int) == digits_end(s, self.current as int),
            decreases s.len() - self.current,
        {
            let c = self.source[self.current];
            let d: i64 = ((c as u32) - 48) as i64;
            proof {
                let run = stretch(s, start as int, self.current + 1);
                assert(run.drop_last() =~= stretch(s, start as int, self.current as int));
                assert(run.last() == c);
                assert(d == digit_value(c));
                assert(decimal_value(run) == value * 10 + d);
                lemma_digits_end(s, self.current as int);
                let end = digits_end(s, start as int);
                let full = stretch(s, start as int, end);
                assert(full.take(self.current + 1 - start) =~= run);
                lemma_decimal_value_grows(full, self.current + 1 - start);
            }
            if value > (i64::MAX - d) / 10 {
                self.current = start;
                return Err(ScanError::NumberTooLarge { position: start });
            }
            value = value * 10 + d;
            self.current += 1;
        }
        Ok(Token::NumberLiteral(value))
    }

    /// Reads a string literal: steps over the character under the cursor,
    /// which opens it, decodes what follows to the double quote that
    /// closes it, and leaves the cursor after that quote. Past the end of
    /// the source there is nothing to read: the literal is empty and the
    /// cursor stays.
    pub fn string(&mut self) -> (token: Token)
        ensures
            final(self).text() == old(self).text(),
            final(self).tokens == old(self).tokens,
            token@ == TokenView::StringLiteral(
                literal_text(old(self).text(), old(self).cursor() + 1, false),
            ),
            final(self).cursor() == if old(self).cursor() < old(self).text().len() {
                literal_end(old(self).text(), old(self).cursor() + 1, false)
            } else {
                old(self).cursor()
            },
    {
        if self.current >= self.source.len() {
            return Token::StringLiteral(String::new());
        }
        let ghost s = self.source@;
        let ghost start = self.current + 1;
        let mut text = String::new();
        let mut escaping = false;
        let mut closed = false;
        assert(self.current < self.source.len());
        self.current += 1;
        while !closed && self.current < self.source.len()
            invariant
                self.source@ == s,
                s == old(self).source@,
                start == old(self).current + 1,
                self.tokens == old(self).tokens,
                start <= self.current <= s.len(),
                closed ==> literal_text(s, start, false) == text@ && literal_end(s, start, false)
                    == self.current,
                !closed ==> literal_text(s, start, false) == text@ + literal_text(
                    s,
                    self.current as int,
                    escaping,
                ) && literal_end(s, start, false) == literal_end(s, self.current as int, escaping),
            decreases s.len() - self.current,
        {
            let c = self.source[self.current];
            let ghost before = text@;
            if escaping {
                text.push(c);
                escaping = false;
            } else if c == '\\' {
                escaping = true;
            } else if c == '"' {
                closed = true;
            } else {
                text.push(c);
            }
            self.current += 1;
            proof {
                if !closed {
                    assert(before + (seq![c] + literal_text(s, self.current as int, false))
                        =~= before.push(c) + literal_text(s, self.current as int, false));
                } else {
                    assert(before + Seq::<char>::empty() =~= before);
                }
            }
        }
        proof {
            assert(text@ + Seq::<char>::empty() =~= text@);
        }
        Token::StringLiteral(text)
    }

    /// Scans the source from the cursor on and appends the tokens it makes
    /// to `tokens`. The cursor is left at the end of the source, or, on an
    /// error, at the character where the failing token began.
    pub fn scan(&mut self) -> (outcome: Result<(), ScanError>)
        ensures
            scanned(*old(self), *final(self), outcome),
    {
        let ghost s = self.source@;
        let ghost before = token_views(self.tokens@);
        let ghost whole = scan_from(s, self.current as int);
        let ghost mut made: Seq<TokenView> = Seq::empty();
        proof {
            assert(before + made =~= before);
            assert(made + scan_from(s, self.current as int).tokens =~= whole.tokens);
        }
        while self.current < self.source.len()
            invariant
                self.source@ == s,
                s == old(self).source@,
                before == token_views(old(self).tokens@),
                whole == scan_from(s, old(self).current as int),
                token_views(self.tokens@) == before + made,
                whole.tokens == made + scan_from(s, self.current as int).tokens,
                whole.stop == scan_from(s, self.current as int).stop,
                whole.error == scan_from(s, self.current as int).error,
            decreases s.len() - self.current,
        {
            let c = self.source[self.current];
            let ghost at = self.current as int;
            let ghost held = self.tokens@;
            proof {
                lemma_lexeme_advances(s, at);
            }
            let token: Option<Token> = if whitespace(c) {
                self.current += 1;
                if c == '\n' {
                    Some(Token::OpNewline)
                } else {
                    None
                }
            } else if word_char(c) {
                Some(self.identifier())
            } else if digit(c) {
                match self.number() {
                    Ok(token) => Some(token),
                    Err(error) => {
                        return Err(error);
                    },
                }
            } else if c == '"' {
                Some(self.string())
            } else {
                match punctuation_token(c) {
                    Some(token) => {
                        self.current += 1;
                        Some(token)
                    },
                    None => {
                        return Err(ScanError::UnknownCharacter { character: c, position: self.current });
                    },
                }
            };
            match token {
                Some(token) => {
                    proof {
                        assert(token_views(held.push(token)) =~= token_views(held).push(token@));
                        assert(before + made.push(token@) =~= (before + made).push(token@));
                        assert(made.push(token@) + scan_from(s, self.current as int).tokens
                            =~= made + (seq![token@] + scan_from(s, self.current as int).tokens));
                        made = made.push(token@);
                    }
                    self.tokens.push(token);
                },
                None => {},
            }
        }
        Ok(())
    }
}

/// What `scan` does to a scanner: `after` is `before` once scanned, and
/// `outcome` what the scan returned. The source stays; the tokens that
/// `scan_from` gives for the source and the cursor are appended, the cursor
/// rests where `scan_from` stops, and its error, if any, is returned.
pub open spec fn scanned(before: Scanner, after: Scanner, outcome: Result<(), ScanError>) -> bool {
    let whole = scan_from(before.text(), before.cursor());
    &&& after.text() == before.text()
    &&& token_views(after.tokens@) == token_views(before.tokens@) + whole.tokens
    &&& after.cursor() == whole.stop
    &&& outcome == match whole.error {
        Some(error) => Err::<(), ScanError>(error),
        None => Ok::<(), ScanError>(()),
    }
}


/// `count` newline tokens.
pub open spec fn newline_tokens(count: nat) -> Seq<TokenView> {
    Seq::new(count, |i: int| TokenView::OpNewline)
}

/// Whether a text is white space throughout.
pub open spec fn all_whitespace(s: Seq<char>) -> bool {
    forall|i: int| 0 <= i < s.len() ==> is_whitespace(#[trigger] s[i])
}

/// `lemma_blank_source`, from any index on.
proof fn lemma_blank_from(s: Seq<char>, at: int)
    requires
        all_whitespace(s),
        0 <= at <= s.len(),
    ensures
        scan_from(s, at) == (Scanned {
            tokens: newline_tokens(newline_count(s.skip(at))),
            stop: s.len() as int,
            error: None,
        }),
    decreases s.len() - at,
{
    if at < s.len() {
        lemma_blank_from(s, at + 1);
        assert(s.skip(at).drop_first() =~= s.skip(at + 1));
        assert(s.skip(at)[0] == s[at]);
        let rest = newline_tokens(newline_count(s.skip(at + 1)));
        if s[at] == '\n' {
            assert(seq![TokenView::OpNewline] + rest =~= newline_tokens(newline_count(s.skip(at))));
        }
    } else {
        assert(scan_from(s, at).tokens =~= newline_tokens(0));
    }
}

/// A source of white space alone scans without error to one newline token
/// for each of its newline characters, and to nothing else.
pub proof fn lemma_blank_source(s: Seq<char>)
    requires
        all_whitespace(s),
    ensures
        scan_from(s, 0) == (Scanned {
            tokens: newline_tokens(newline_count(s)),
            stop: s.len() as int,
            error: None,
        }),
{
    lemma_blank_from(s, 0);
    assert(s.skip(0) =~= s);
}

/// Whether every character of a text makes a token on its own.
pub open spec fn all_punctuation(s: Seq<char>) -> bool {
    forall|i: int| 0 <= i < s.len() ==> punctuation(#[trigger] s[i]) is Some
}

/// The tokens that the characters of a text make on their own, from index
/// `from` on.
pub open spec fn punctuation_tokens(s: Seq<char>, from: int) -> Seq<TokenView> {
    Seq::new((s.len() - from) as nat, |i: int| punctuation(s[from + i])->Some_0)
}

/// A source of characters that each make a token on their own scans to
/// these tokens, one for each character, in order.
pub proof fn lemma_scans_punctuation(s: Seq<char>, at: int)
    requires
        all_punctuation(s),
        0 <= at <= s.len(),
    ensures
        scan_from(s, at) == (Scanned {
            tokens: punctuation_tokens(s, at),
            stop: s.len() as int,
            error: None,
        }),
    decreases s.len() - at,
{
    if at < s.len() {
        lemma_scans_punctuation(s, at + 1);
        let c = s[at];
        assert(punctuation(c) is Some);
        assert(!is_whitespace(c) && !is_word_char(c) && !is_digit(c) && c != '"');
        assert(seq![punctuation(c)->Some_0] + punctuation_tokens(s, at + 1)
            =~= punctuation_tokens(s, at));
    } else {
        assert(scan_from(s, at).tokens =~= punctuation_tokens(s, at));
    }
}

/// A source that is one run of digits scans to one number, the number that
/// the digits write, if that number fits in 64 bits with sign.
pub proof fn lemma_scans_digits(digits: Seq<char>)
    requires
        digits.len() > 0,
        all_digits(digits),
        decimal_value(digits) <= i64::MAX,
    ensures
        scan_from(digits, 0) == (Scanned {
            tokens: seq![TokenView::NumberLiteral(decimal_value(digits) as i64)],
            stop: digits.len() as int,
            error: None,
        }),
{
    lemma_digits_end(digits, 0);
    let end = digits_end(digits, 0);
    assert(end == digits.len()) by {
        if end < digits.len() {
            assert(is_digit(digits[end]));
        }
    }
    assert(stretch(digits, 0, end) =~= digits);
    assert(is_digit(digits[0]));
    let token = TokenView::NumberLiteral(decimal_value(digits) as i64);
    assert(lexeme_at(digits, 0) == Ok::<Lexeme, ScanError>(Lexeme { token: Some(token), end }));
    assert(scan_from(digits, end).tokens =~= Seq::<TokenView>::empty());
    assert(seq![token] + Seq::<TokenView>::empty() =~= seq![token]);
}

/// Writing a number in decimal and scanning what was written gives the
/// number back.
pub proof fn lemma_scans_numeral(n: nat)
    requires
        n <= i64::MAX,
    ensures
        scan_from(decimal_digits(n), 0) == (Scanned {
            tokens: seq![TokenView::NumberLiteral(n as i64)],
            stop: decimal_digits(n).len() as int,
            error: None,
        }),
{
    lemma_decimal_digits_are_digits(n);
    lemma_decimal_round_trip(n);
    lemma_scans_digits(decimal_digits(n));
}

/// A text as it stands inside a string literal: with a backslash before
/// each double quote and each backslash.
pub open spec fn escaped(text: Seq<char>) -> Seq<char>
    decreases text.len(),
{
    if text.len() == 0 {
        Seq::empty()
    } else if text[0] == '"' || text[0] == '\\' {
        seq!['\\', text[0]] + escaped(text.drop_first())
    } else {
        seq![text[0]] + escaped(text.drop_first())
    }
}

/// The string literal that writes `text`.
pub open spec fn quoted(text: Seq<char>) -> Seq<char> {
    seq!['"'] + escaped(text) + seq!['"']
}

/// Where the escaped form of `text` and a double quote stand from index
/// `at` to the end of `s`, a literal read from `at` on decodes to `text` and
/// ends with `s`.
proof fn lemma_literal_decodes(s: Seq<char>, at: int, text: Seq<char>)
    requires
        0 <= at <= s.len(),
        s.skip(at) == escaped(text) + seq!['"'],
    ensures
        literal_text(s, at, false) == text,
        literal_end(s, at, false) == s.len(),
    decreases text.len(),
{
    let body = escaped(text) + seq!['"'];
    assert(s.len() - at == body.len());
    assert(forall|i: int| 0 <= i < body.len() ==> s[at + i] == #[trigger] s.skip(at)[i]);
    if text.len() == 0 {
        assert(s.skip(at)[0] == '"');
        assert(literal_text(s, at, false) =~= text);
    } else {
        let rest = text.drop_first();
        let tail = escaped(rest) + seq!['"'];
        if text[0] == '"' || text[0] == '\\' {
            assert(body =~= seq!['\\', text[0]] + tail);
            assert(s.skip(at)[0] == '\\');
            assert(s.skip(at)[1] == text[0]);
            assert(s.skip(at + 2) =~= tail) by {
                assert forall|i: int| 0 <= i < tail.len() implies s.skip(at + 2)[i] == tail[i] by {
                    assert(s.skip(at)[i + 2] == body[i + 2]);
                }
            }
            lemma_literal_decodes(s, at + 2, rest);
            assert(literal_text(s, at + 1, true) == seq![text[0]] + literal_text(s, at + 2, false));
            assert(literal_end(s, at + 1, true) == literal_end(s, at + 2, false));
            assert(seq![text[0]] + rest =~= text);
        } else {
            assert(body =~= seq![text[0]] + tail);
            assert(s.skip(at)[0] == text[0]);
            assert(s.skip(at + 1) =~= tail) by {
                assert forall|i: int| 0 <= i < tail.len() implies s.skip(at + 1)[i] == tail[i] by {
                    assert(s.skip(at)[i + 1] == body[i + 1]);
                }
            }
            lemma_literal_decodes(s, at + 1, rest);
            assert(seq![text[0]] + rest =~= text);
        }
    }
}

/// Writing a text as a string literal and scanning the literal gives the
/// text back, double quotes and backslashes included.
pub proof fn lemma_scans_quoted(text: Seq<char>)
    ensures
        scan_from(quoted(text), 0) == (Scanned {
            tokens: seq![TokenView::StringLiteral(text)],
            stop: quoted(text).len() as int,
            error: None,
        }),
{
    let s = quoted(text);
    assert(s[0] == '"');
    assert(s.skip(1) =~= escaped(text) + seq!['"']);
    lemma_literal_decodes(s, 1, text);
    let token = TokenView::StringLiteral(text);
    assert(lexeme_at(s, 0) == Ok::<Lexeme, ScanError>(
        Lexeme { token: Some(token), end: s.len() as int },
    ));
    assert(scan_from(s, s.len() as int).tokens =~= Seq::<TokenView>::empty());
    assert(seq![token] + Seq::<TokenView>::empty() =~= seq![token]);
}

/// Whether `body` can stand between the double quotes of a string literal:
/// no double quote in it ends the literal early, and no backslash at its end
/// takes the closing quote. `escaping` says whether a backslash stands just
/// before `body`.
pub open spec fn is_literal_body(body: Seq<char>, escaping: bool) -> bool
    decreases body.len(),
{
    if body.len() == 0 {
        !escaping
    } else if escaping {
        is_literal_body(body.drop_first(), false)
    } else if body[0] == '\\' {
        is_literal_body(body.drop_first(), true)
    } else if body[0] == '"' {
        false
    } else {
        is_literal_body(body.drop_first(), false)
    }
}

/// The text that the body of a string literal writes: the body without the
/// backslashes that escape, each character after one taken as it is. So
/// every backslash before a double quote is dropped and the quote kept.
pub open spec fn decoded(body: Seq<char>, escaping: bool) -> Seq<char>
    decreases body.len(),
{
    if body.len() == 0 {
        Seq::empty()
    } else if escaping {
        seq![body[0]] + decoded(body.drop_first(), false)
    } else if body[0] == '\\' {
        decoded(body.drop_first(), true)
    } else {
        seq![body[0]] + decoded(body.drop_first(), false)
    }
}

/// Where a body and the double quote that closes it stand in a source from
/// index `at` on, whatever follows them, a literal read from `at` on decodes
/// to what the body writes and ends after that quote.
pub proof fn lemma_literal_in_source(s: Seq<char>, at: int, body: Seq<char>, escaping: bool)
    requires
        0 <= at,
        at + body.len() < s.len(),
        s.subrange(at, at + body.len()) == body,
        s[at + body.len()] == '"',
        is_literal_body(body, escaping),
    ensures
        literal_text(s, at, escaping) == decoded(body, escaping),
        literal_end(s, at, escaping) == at + body.len() + 1,
    decreases body.len(),
{
    if body.len() > 0 {
        let rest = body.drop_first();
        assert(s.subrange(at, at + body.len())[0] == s[at]);
        assert(s.subrange(at + 1, at + 1 + rest.len()) =~= rest) by {
            assert forall|i: int| 0 <= i < rest.len() implies s.subrange(
                at + 1,
                at + 1 + rest.len(),
            )[i] == rest[i] by {
                assert(s.subrange(at, at + body.len())[i + 1] == body[i + 1]);
            }
        }
        if escaping {
            lemma_literal_in_source(s, at + 1, rest, false);
        } else if body[0] == '\\' {
            lemma_literal_in_source(s, at + 1, rest, true);
        } else {
            lemma_literal_in_source(s, at + 1, rest, false);
        }
    }
}

/// A string literal anywhere in a source scans to one token with the text
/// that its body writes, and scanning goes on after the double quote that
/// closes it.
pub proof fn lemma_scans_literal(s: Seq<char>, at: int, body: Seq<char>)
    requires
        0 <= at,
        at + body.len() + 1 < s.len(),
        s[at] == '"',
        s.subrange(at + 1, at + 1 + body.len()) == body,
        s[at + 1 + body.len()] == '"',
        is_literal_body(body, false),
    ensures
        lexeme_at(s, at) == Ok::<Lexeme, ScanError>(
            Lexeme {
                token: Some(TokenView::StringLiteral(decoded(body, false))),
                end: at + body.len() + 2,
            },
        ),
        scan_from(s, at) == (Scanned {
            tokens: seq![TokenView::StringLiteral(decoded(body, false))] + scan_from(
                s,
                at + body.len() + 2,
            ).tokens,
            stop: scan_from(s, at + body.len() + 2).stop,
            error: scan_from(s, at + body.len() + 2).error,
        }),
{
    lemma_literal_in_source(s, at + 1, body, false);
}

/// The escaped form of a text is a body, and writes the text.
pub proof fn lemma_escaped_decodes(text: Seq<char>)
    ensures
        is_literal_body(escaped(text), false),
        decoded(escaped(text), false) == text,
    decreases text.len(),
{
    if text.len() > 0 {
        let rest = text.drop_first();
        lemma_escaped_decodes(rest);
        let body = escaped(text);
        if text[0] == '"' || text[0] == '\\' {
            assert(body[0] == '\\');
            let tail = body.drop_first();
            assert(tail[0] == text[0]);
            assert(tail.drop_first() =~= escaped(rest));
            assert(is_literal_body(tail, true));
            assert(decoded(tail, true) == seq![text[0]] + decoded(escaped(rest), false));
        } else {
            assert(body[0] == text[0]);
            assert(body.drop_first() =~= escaped(rest));
        }
        assert(seq![text[0]] + rest =~= text);
    }
}

/// A text written as a string literal anywhere in a source scans back to
/// the text, double quotes and backslashes included, whatever stands
/// before and after the literal.
pub proof fn lemma_scans_quoted_in_source(s: Seq<char>, at: int, text: Seq<char>)
    requires
        0 <= at,
        at + quoted(text).len() <= s.len(),
        s.subrange(at, at + quoted(text).len()) == quoted(text),
    ensures
        scan_from(s, at) == (Scanned {
            tokens: seq![TokenView::StringLiteral(text)] + scan_from(
                s,
                at + quoted(text).len(),
            ).tokens,
            stop: scan_from(s, at + quoted(text).len()).stop,
            error: scan_from(s, at + quoted(text).len()).error,
        }),
{
    let body = escaped(text);
    let literal = quoted(text);
    lemma_escaped_decodes(text);
    assert(literal.len() == body.len() + 2);
    assert forall|i: int| 0 <= i < literal.len() implies s[at + i] == literal[i] by {
        assert(s.subrange(at, at + literal.len())[i] == s[at + i]);
    }
    assert(literal[0] == '"');
    assert(literal[body.len() as int + 1] == '"');
    assert(s.subrange(at + 1, at + 1 + body.len()) =~= body) by {
        assert forall|i: int| 0 <= i < body.len() implies s.subrange(
            at + 1,
            at + 1 + body.len(),
        )[i] == body[i] by {
            assert(literal[i + 1] == body[i]);
        }
    }
    lemma_scans_literal(s, at, body);
}

/// Scanning is a function of the source and the cursor: two scanners that
/// agree on both, and on the tokens made before, agree after `scan` on the
/// tokens, on the cursor and on the outcome.
pub proof fn lemma_scan_repeats(
    first: Scanner,
    second: Scanner,
    first_after: Scanner,
    second_after: Scanner,
    first_outcome: Result<(), ScanError>,
    second_outcome: Result<(), ScanError>,
)
    requires
        first.text() == second.text(),
        first.cursor() == second.cursor(),
        token_views(first.tokens@) == token_views(second.tokens@),
        scanned(first, first_after, first_outcome),
        scanned(second, second_after, second_outcome),
    ensures
        token_views(first_after.tokens@) == token_views(second_after.tokens@),
        first_after.cursor() == second_after.cursor(),
        first_outcome == second_outcome,
{
}

} // verus!
