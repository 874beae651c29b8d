//! The lexer: raw input lines to classified tokens.
//!
//! `Token::tokenize` classifies one lexeme; `Lexer::next` consumes one
//! maximal token from a cursor over the input lines; the free function
//! `tokenize` drives a lexer over a whole line.  The token stream of a
//! line is pinned down by the spec functions `tokens_from_line` and
//! `tokens_rest`.

use vstd::prelude::*;
use vstd::string::StrSliceExecFns;
use vstd::string::StringExecFns;

use crate::numeric::is_dec_literal;
use crate::numeric::is_int_literal;
use crate::numeric::is_part_dec_numeric;
use crate::numeric::is_nonzero_digit_char;
use crate::numeric::is_part_int_numeric;
use crate::text::adjacent_pairs;
use crate::text::str_eq;
use crate::text::string_from_chars;

verus! {

// ---------------------------------------------------------------------------
// Token kinds
// ---------------------------------------------------------------------------
/// The closed set of token kinds.  The lexer only produces the sentinel,
/// the literal kinds, the punctuation kinds and the unclassified kind;
/// identifier and type-keyword kinds are left to a later semantic pass.
#[derive(Debug, PartialEq, Eq, Structural, Clone, Copy)]
pub enum TokenType {
    /// End-of-input sentinel: every call past the last token returns it.
    EndToken,
    /// Unclassified lexeme; rejected later, never a lexing error.
    NoType,
    /// Integer literal such as `100`, `5`, `34298`, `-43`.
    NumericIntLiteral,
    /// Decimal literal such as `100.10`, `45.453` (not `.3`, not `54`).
    NumericDecLiteral,
    /// Identifier, assigned by a semantic pass over unclassified tokens.
    Identifier,
    TypeNumberKeyword,
    TypeIntKeyword,
    TypeRatioKeyword,
    TypeRealKeyword,
    TypeDecKeyword,
    TypeComplexKeyword,
    TypeImaginaryKeyword,
    TypeSizeKeyword,
    TypeLiteralKeyword,
    TypeTypeKeyword,
    TypeOptionKeyword,
    TypeStringKeyword,
    LeftBrace,
    RightBrace,
    LeftBracket,
    RightBracket,
    LeftParen,
    RightParen,
    Dot,
    Comma,
    Assignment,
    Semicolon,
    Colon,
    Tag,
    Reference,
    Question,
    At,
    Percent,
    Bang,
    BackSlash,
    Space,
    Tab,
    Newline,
    SingleQuote,
    DoubleQuote,
    Addition,
    Subtraction,
    Multiplication,
    Division,
}

// ---------------------------------------------------------------------------
// Character classes
// ---------------------------------------------------------------------------
pub open spec fn is_whitespace_char(c: char) -> bool {
    c == '\t' || c == ' ' || c == '\n'
}

pub open spec fn is_symbol_char(c: char) -> bool {
    c == '[' || c == ']' || c == '{' || c == '}' || c == '(' || c == ')' || c == '.' || c == ','
        || c == ':' || c == ';' || c == '=' || c == '\'' || c == '"' || c == '\\' || c == '+'
        || c == '-' || c == '*' || c == '/' || c == '^' || c == '>' || c == '<' || c == '~'
}

/// A character that extends the current token: neither whitespace nor a
/// boundary symbol.
pub open spec fn is_word_char(c: char) -> bool {
    !is_whitespace_char(c) && !is_symbol_char(c)
}

/// Whether the token being scanned ends after `cur` when `next` follows.
pub open spec fn spec_ends_token(cur: char, next: char) -> bool {
    is_whitespace_char(next) || is_symbol_char(cur) || is_symbol_char(next)
}

/// Whether `ch` is one of the boundary symbol characters.
pub fn is_char_symbol(ch: char) -> (b: bool)
    ensures
        b == is_symbol_char(ch),
{
    match ch {
        '[' | ']' | '{' | '}' | '(' | ')' | '.' | ',' | ':' | ';' | '=' | '\'' | '\"' | '\\'
            | '+' | '-' | '*' | '/' | '^' | '>' | '<' | '~' => true,
        _ => false,
    }
}

/// Whether `ch` is a whitespace character.
pub fn is_char_whitespace(ch: char) -> (b: bool)
    ensures
        b == is_whitespace_char(ch),
{
    match ch {
        '\t' | ' ' | '\n' => true,
        _ => false,
    }
}

/// Whether the current token ends after `cur` when `next` follows:
/// whitespace always terminates, and symbols are atomic on either side.
pub fn ends_token(cur: char, next: char) -> (b: bool)
    ensures
        b == spec_ends_token(cur, next),
{
    if is_char_whitespace(next) {
        return true;
    }
    if is_char_symbol(cur) || is_char_symbol(next) {
        return true;
    }
    false
}

// ---------------------------------------------------------------------------
// Type keywords
// ---------------------------------------------------------------------------
pub open spec fn is_type_text(s: Seq<char>) -> bool {
    s == "number"@ || s == "int"@ || s == "ratio"@ || s == "real"@ || s == "dec"@
        || s == "complex"@ || s == "imaginary"@ || s == "size"@ || s == "literal"@ || s == "type"@
        || s == "option"@ || s == "string"@
}

/// Whether a token text is one of the recognized type keywords.
pub fn is_type(maybe_type: String) -> (b: bool)
    ensures
        b == is_type_text(maybe_type@),
{
    let s = maybe_type.as_str();
    str_eq(s, "number") || str_eq(s, "int") || str_eq(s, "ratio") || str_eq(s, "real") || str_eq(
        s,
        "dec",
    ) || str_eq(s, "complex") || str_eq(s, "imaginary") || str_eq(s, "size") || str_eq(
        s,
        "literal",
    ) || str_eq(s, "type") || str_eq(s, "option") || str_eq(s, "string")
}

// ---------------------------------------------------------------------------
// Classification of one lexeme
// ---------------------------------------------------------------------------
/// The dedicated kind of a one-character token, or `NoType`.
pub open spec fn single_char_kind(c: char) -> TokenType {
    if c == '{' {
        TokenType::LeftBrace
    } else if c == '}' {
        TokenType::RightBrace
    } else if c == '[' {
        TokenType::LeftBracket
    } else if c == ']' {
        TokenType::RightBracket
    } else if c == '(' {
        TokenType::LeftParen
    } else if c == ')' {
        TokenType::RightParen
    } else if c == '.' {
        TokenType::Dot
    } else if c == ',' {
        TokenType::Comma
    } else if c == '=' {
        TokenType::Assignment
    } else if c == ';' {
        TokenType::Semicolon
    } else if c == ':' {
        TokenType::Colon
    } else if c == '#' {
        TokenType::Tag
    } else if c == '&' {
        TokenType::Reference
    } else if c == '?' {
        TokenType::Question
    } else if c == '@' {
        TokenType::At
    } else if c == '%' {
        TokenType::Percent
    } else if c == '!' {
        TokenType::Bang
    } else if c == '\\' {
        TokenType::BackSlash
    } else if c == ' ' {
        TokenType::Space
    } else if c == '\t' {
        TokenType::Tab
    } else if c == '\n' {
        TokenType::Newline
    } else if c == '\'' {
        TokenType::SingleQuote
    } else if c == '"' {
        TokenType::DoubleQuote
    } else if c == '+' {
        TokenType::Addition
    } else if c == '-' {
        TokenType::Subtraction
    } else if c == '*' {
        TokenType::Multiplication
    } else if c == '/' {
        TokenType::Division
    } else {
        TokenType::NoType
    }
}

/// The kind `Token::tokenize` assigns to a lexeme: one-character tokens by
/// the dedicated table, then numeric literals, then unclassified.
pub open spec fn spec_classify(s: Seq<char>) -> TokenType {
    if s.len() == 1 && single_char_kind(s[0]) != TokenType::NoType {
        single_char_kind(s[0])
    } else if is_int_literal(s) {
        TokenType::NumericIntLiteral
    } else if is_dec_literal(s) {
        TokenType::NumericDecLiteral
    } else {
        TokenType::NoType
    }
}

// ---------------------------------------------------------------------------
// Tokens
// ---------------------------------------------------------------------------
/// The mathematical content of a token: its kind and its text.
pub ghost struct TokenM {
    pub kind: TokenType,
    pub text: Seq<char>,
}

/// The smallest classified unit of source text.
#[derive(Debug, PartialEq)]
pub struct Token {
    pub token_type: TokenType,
    pub value: String,
}

impl View for Token {
    type V = TokenM;

    open spec fn view(&self) -> TokenM {
        TokenM { kind: self.token_type, text: self.value@ }
    }
}

impl Clone for Token {
    fn clone(&self) -> (r: Self)
        ensures
            r == *self,
    {
        Token { token_type: self.token_type, value: self.value.clone() }
    }
}

pub trait TokenTrait: Sized {
    fn default() -> Self;

    fn tokenize(tokens: String) -> Self;

    fn from_chars(chars: Vec<char>) -> Self;
}

impl Token {
    /// The unclassified empty token.
    pub fn default() -> (t: Token)
        ensures
            t@.kind == TokenType::NoType,
            t@.text == Seq::<char>::empty(),
    {
        Token { token_type: TokenType::NoType, value: String::new() }
    }

    /// Classify one lexeme into a token carrying the lexeme unchanged.
    pub fn tokenize(tokens: String) -> (t: Token)
        ensures
            t@.kind == spec_classify(tokens@),
            t@.text == tokens@,
    {
        let n = tokens.as_str().unicode_len();
        if n == 1 {
            let c = tokens.as_str().get_char(0);
            let tt = match c {
                '{' => TokenType::LeftBrace,
                '}' => TokenType::RightBrace,
                '[' => TokenType::LeftBracket,
                ']' => TokenType::RightBracket,
                '(' => TokenType::LeftParen,
                ')' => TokenType::RightParen,
                '.' => TokenType::Dot,
                ',' => TokenType::Comma,
                '=' => TokenType::Assignment,
                ';' => TokenType::Semicolon,
                ':' => TokenType::Colon,
                '#' => TokenType::Tag,
                '&' => TokenType::Reference,
                '?' => TokenType::Question,
                '@' => TokenType::At,
                '%' => TokenType::Percent,
                '!' => TokenType::Bang,
                '\\' => TokenType::BackSlash,
                ' ' => TokenType::Space,
                '\t' => TokenType::Tab,
                '\n' => TokenType::Newline,
                '\'' => TokenType::SingleQuote,
                '\"' => TokenType::DoubleQuote,
                '+' => TokenType::Addition,
                '-' => TokenType::Subtraction,
                '*' => TokenType::Multiplication,
                '/' => TokenType::Division,
                _ => TokenType::NoType,
            };
            if tt != TokenType::NoType {
                return Token { token_type: tt, value: tokens };
            }
        }
        if is_part_int_numeric(tokens.as_str()) {
            return Token { token_type: TokenType::NumericIntLiteral, value: tokens };
        }
        if is_part_dec_numeric(tokens.as_str()) {
            return Token { token_type: TokenType::NumericDecLiteral, value: tokens };
        }
        Token { token_type: TokenType::NoType, value: tokens }
    }

    /// Classify the lexeme given as a character vector.
    pub fn from_chars(chars: Vec<char>) -> (t: Token)
        ensures
            t@.kind == spec_classify(chars@),
            t@.text == chars@,
    {
        let s = string_from_chars(&chars);
        Token::tokenize(s)
    }
}

impl TokenTrait for Token {
    fn default() -> Self {
        Token::default()
    }

    fn tokenize(tokens: String) -> Self {
        Token::tokenize(tokens)
    }

    fn from_chars(chars: Vec<char>) -> Self {
        Token::from_chars(chars)
    }
}

// ---------------------------------------------------------------------------
// The token stream of a line
// ---------------------------------------------------------------------------
/// Where a word-character run starting at `i` ends.
pub open spec fn word_end(line: Seq<char>, i: int) -> int
    recommends
        0 <= i <= line.len(),
    decreases line.len() - i,
{
    if i >= line.len() {
        line.len() as int
    } else if !is_word_char(line[i]) {
        i
    } else {
        word_end(line, i + 1)
    }
}

pub proof fn lemma_word_end(line: Seq<char>, i: int)
    requires
        0 <= i <= line.len(),
    ensures
        i <= word_end(line, i) <= line.len(),
        forall|j: int| i <= j < word_end(line, i) ==> is_word_char(#[trigger] line[j]),
        word_end(line, i) < line.len() ==> !is_word_char(line[word_end(line, i)]),
    decreases line.len() - i,
{
    if i < line.len() && is_word_char(line[i]) {
        lemma_word_end(line, i + 1);
    }
}

pub proof fn lemma_word_end_is(line: Seq<char>, i: int, e: int)
    requires
        0 <= i <= e <= line.len(),
        forall|j: int| i <= j < e ==> is_word_char(#[trigger] line[j]),
        e < line.len() ==> !is_word_char(line[e]),
    ensures
        word_end(line, i) == e,
    decreases e - i,
{
    if i < e {
        lemma_word_end_is(line, i + 1, e);
    }
}

/// Where the token starting at the non-whitespace position `start` ends:
/// a symbol is atomic, anything else is a maximal word-character run.
pub open spec fn scan_end(line: Seq<char>, start: int) -> int
    recommends
        0 <= start < line.len(),
        !is_whitespace_char(line[start]),
{
    if is_symbol_char(line[start]) {
        start + 1
    } else {
        word_end(line, start + 1)
    }
}

/// The token of a scanned lexeme.
pub open spec fn token_of(text: Seq<char>) -> TokenM {
    TokenM { kind: spec_classify(text), text }
}

/// The tokens of one line from position `pos` on: whitespace separates
/// tokens and is consumed silently.
pub open spec fn tokens_from_line(line: Seq<char>, pos: int) -> Seq<TokenM>
    recommends
        0 <= pos <= line.len(),
    decreases line.len() - pos,
{
    if pos < 0 || pos >= line.len() {
        Seq::empty()
    } else if is_whitespace_char(line[pos]) {
        tokens_from_line(line, pos + 1)
    } else {
        let e = scan_end(line, pos);
        proof {
            lemma_word_end(line, pos + 1);
        }
        seq![token_of(line.subrange(pos, e))] + tokens_from_line(line, e)
    }
}

/// The tokens still to come from a cursor position over the input lines.
pub open spec fn tokens_rest(lines: Seq<Seq<char>>, li: int, co: int) -> Seq<TokenM>
    recommends
        0 <= li <= lines.len(),
    decreases lines.len() - li,
{
    if li < 0 || li >= lines.len() {
        Seq::empty()
    } else {
        tokens_from_line(lines[li], co) + tokens_rest(lines, li + 1, 0)
    }
}

/// No scanned token carries the sentinel kind.
pub proof fn lemma_tokens_from_line_not_end(line: Seq<char>, pos: int)
    ensures
        forall|i: int|
            0 <= i < tokens_from_line(line, pos).len() ==> #[trigger] tokens_from_line(line, pos)[i].kind
                != TokenType::EndToken,
    decreases line.len() - pos,
{
    if pos < 0 || pos >= line.len() {
    } else if is_whitespace_char(line[pos]) {
        lemma_tokens_from_line_not_end(line, pos + 1);
    } else {
        lemma_word_end(line, pos + 1);
        let e = scan_end(line, pos);
        lemma_tokens_from_line_not_end(line, e);
    }
}

proof fn lemma_whitespace_only_from(line: Seq<char>, pos: int)
    requires
        forall|i: int| 0 <= i < line.len() ==> is_whitespace_char(#[trigger] line[i]),
        0 <= pos,
    ensures
        tokens_from_line(line, pos).len() == 0,
    decreases line.len() - pos,
{
    if pos < line.len() {
        lemma_whitespace_only_from(line, pos + 1);
    }
}

/// A line containing only whitespace carries no tokens, so tokenizing it
/// yields nothing but the end-of-input sentinel; the scan consumes one
/// character per step and so cannot loop indefinitely.
pub proof fn lemma_whitespace_only_line(line: Seq<char>)
    requires
        forall|i: int| 0 <= i < line.len() ==> is_whitespace_char(#[trigger] line[i]),
    ensures
        tokens_from_line(line, 0).len() == 0,
{
    lemma_whitespace_only_from(line, 0);
}

/// Round-trip idempotence of evaluated integer results: the canonical
/// text of an integer value classifies back as an integer literal
/// denoting the same value, so re-tokenizing an evaluated result yields
/// a token identical in kind and value.
pub proof fn lemma_int_result_retokenizes(v: int)
    ensures
        spec_classify(crate::numeric::int_literal_str(v)) == TokenType::NumericIntLiteral,
        crate::numeric::int_literal_val(crate::numeric::int_literal_str(v)) == v,
{
    crate::numeric::lemma_int_literal_str(v);
    let s = crate::numeric::int_literal_str(v);
    if s.len() == 1 {
        assert(s[0] != '-');
        assert(crate::numeric::is_digit_char(s[0]));
        assert(single_char_kind(s[0]) == TokenType::NoType);
    }
}

// ---------------------------------------------------------------------------
// The lexer
// ---------------------------------------------------------------------------
/// A cursor over an ordered sequence of input lines.
pub struct Lexer {
    pub line_index: usize,
    pub column_index: usize,
    pub lines: Vec<String>,
}

impl Lexer {
    /// The lines as character sequences.
    pub open spec fn lines_view(&self) -> Seq<Seq<char>> {
        self.lines@.map_values(|l: String| l@)
    }

    /// The cursor points into the current line, or one past the last line
    /// at column zero once the input is exhausted.
    pub open spec fn wf(&self) -> bool {
        &&& self.line_index <= self.lines@.len()
        &&& (self.line_index < self.lines@.len() ==> self.column_index <= self.lines_view()[
        self.line_index as int].len())
        &&& (self.line_index == self.lines@.len() ==> self.column_index == 0)
    }

    /// The tokens still to come from the cursor position.
    pub open spec fn remaining_tokens(&self) -> Seq<TokenM> {
        tokens_rest(self.lines_view(), self.line_index as int, self.column_index as int)
    }

    /// A fresh lexer over the given lines, at the start.
    pub fn new(lines: Vec<String>) -> (lx: Lexer)
        ensures
            lx.lines == lines,
            lx.line_index == 0,
            lx.column_index == 0,
            lx.wf(),
    {
        Lexer { line_index: 0, column_index: 0, lines }
    }

    fn end_token() -> (t: Token)
        ensures
            t@.kind == TokenType::EndToken,
            t@.text == Seq::<char>::empty(),
    {
        Token { token_type: TokenType::EndToken, value: String::new() }
    }

    /// Consume one maximal token and advance the cursor past it; once the
    /// lines are exhausted, return the end-of-input sentinel.
    pub fn next(&mut self) -> (t: Token)
        ensures
            old(self).wf() ==> final (self).wf(),
            final (self).lines == old(self).lines,
            old(self).remaining_tokens().len() == 0 ==> t@.kind == TokenType::EndToken && t@.text
                == Seq::<char>::empty() && final (self).remaining_tokens().len() == 0,
            old(self).remaining_tokens().len() > 0 ==> t@ == old(self).remaining_tokens()[0]
                && final (self).remaining_tokens() == old(self).remaining_tokens().drop_first(),
    {
        // Skip whitespace and exhausted lines to the next token start.
        loop
            invariant
                old(self).wf() ==> self.wf(),
                self.lines == old(self).lines,
                self.remaining_tokens() == old(self).remaining_tokens(),
            ensures
                old(self).wf() ==> self.wf(),
                self.lines == old(self).lines,
                self.remaining_tokens() == old(self).remaining_tokens(),
                self.line_index < self.lines@.len(),
                self.column_index < self.lines_view()[self.line_index as int].len(),
                !is_whitespace_char(
                    self.lines_view()[self.line_index as int][self.column_index as int],
                ),
            decreases
                    self.lines@.len() - self.line_index,
                    (if self.line_index < self.lines@.len() {
                        self.lines_view()[self.line_index as int].len() - self.column_index
                    } else {
                        0int
                    }),
        {
            if self.line_index >= self.lines.len() {
                return Lexer::end_token();
            }
            let linelen = self.lines[self.line_index].as_str().unicode_len();
            if self.column_index >= linelen {
                self.line_index = self.line_index + 1;
                self.column_index = 0;
            } else {
                let c = self.lines[self.line_index].as_str().get_char(self.column_index);
                if is_char_whitespace(c) {
                    self.column_index = self.column_index + 1;
                } else {
                    break ;
                }
            }
        }
        let li = self.line_index;
        let col = self.column_index;
        let linelen = self.lines[li].as_str().unicode_len();
        let ghost lv = self.lines_view()[li as int];
        // The remaining slice with a virtual terminator, so that a
        // look-ahead character always exists.
        let mut rem = self.lines[li].as_str().substring_char(col, linelen).to_owned();
        rem.append(" ");
        proof {
            reveal_strlit(" ");
            assert(rem@ =~= lv.subrange(col as int, linelen as int) + seq![' ']);
        }
        let pairs = adjacent_pairs(rem.as_str());
        proof {
            assert(rem@.len() == linelen - col + 1);
            assert(pairs@.len() == linelen - col);
            assert forall|j: int| 0 <= j < linelen - col implies #[trigger] rem@[j] == lv[col + j]
                by {
                assert(rem@[j] == (lv.subrange(col as int, linelen as int) + seq![' '])[j]);
            }
            assert(rem@[linelen - col] == ' ');
        }
        let mut count: usize = 0;
        // `count` counts the pairs that did not end the token; the token
        // spans `count + 1` characters.
        loop
            invariant_except_break
                count < pairs@.len(),
            invariant
                count <= pairs@.len(),
                pairs@.len() == linelen - col,
                linelen == lv.len(),
                col < linelen,
                rem@.len() == linelen - col + 1,
                forall|j: int| 0 <= j < linelen - col ==> #[trigger] rem@[j] == lv[col + j],
                rem@[linelen - col] == ' ',
                forall|i: int|
                    0 <= i < pairs@.len() ==> #[trigger] pairs@[i] == (rem@[i], rem@[i + 1]),
                forall|j: int|
                    0 <= j < count ==> !spec_ends_token(#[trigger] rem@[j], rem@[j + 1]),
            ensures
                count < pairs@.len(),
                forall|j: int|
                    0 <= j < count ==> !spec_ends_token(#[trigger] rem@[j], rem@[j + 1]),
                spec_ends_token(rem@[count as int], rem@[count + 1]),
            decreases pairs@.len() - count,
        {
            let (cur, nxt) = pairs[count];
            if ends_token(cur, nxt) {
                break ;
            }
            count = count + 1;
            proof {
                // The virtual terminator is whitespace, so the scan cannot
                // run past it: the next pair still exists.
                assert(!is_whitespace_char(rem@[count as int]));
                assert(count < linelen - col);
            }
        }
        let e = col + count + 1;
        proof {
            // The consumed characters, after the first, are word characters.
            assert forall|j: int| 1 <= j <= count implies is_word_char(#[trigger] lv[col + j]) by {
                assert(!spec_ends_token(rem@[j - 1], rem@[j]));
                assert(!is_whitespace_char(rem@[j]));
                assert(!is_symbol_char(rem@[j]));
            }
            if is_symbol_char(lv[col as int]) {
                if count != 0 {
                    assert(!spec_ends_token(rem@[0], rem@[1]));
                }
                assert(count == 0);
                assert(e == scan_end(lv, col as int));
            } else {
                // The scan stopped because the look-ahead character no
                // longer extends the token.
                assert(is_word_char(rem@[count as int]));
                if e < linelen {
                    assert(rem@[count + 1] == lv[e as int]);
                    assert(!is_word_char(lv[e as int]));
                }
                assert forall|j: int| col + 1 <= j < e implies is_word_char(#[trigger] lv[j]) by {
                    assert(is_word_char(lv[col + (j - col)]));
                }
                lemma_word_end_is(lv, col as int + 1, e as int);
                assert(e == scan_end(lv, col as int));
            }
        }
        let ghost before: Lexer = *self;
        let text = self.lines[li].as_str().substring_char(col, e).to_owned();
        self.column_index = e;
        let t = Token::tokenize(text);
        proof {
            assert(t@ == token_of(lv.subrange(col as int, e as int)));
            assert(before.remaining_tokens() == tokens_rest(
                before.lines_view(),
                li as int,
                col as int,
            ));
            assert(tokens_from_line(lv, col as int) == seq![token_of(
                lv.subrange(col as int, e as int),
            )] + tokens_from_line(lv, e as int));
            assert(before.remaining_tokens()[0] == t@);
            assert(self.remaining_tokens() =~= before.remaining_tokens().drop_first());
            assert(self.remaining_tokens() == old(self).remaining_tokens().drop_first());
        }
        t
    }
}

pub trait Lex: Sized {
    fn new(lines: Vec<String>) -> Self;

    fn next(&mut self) -> Token;
}

impl Lex for Lexer {
    fn new(lines: Vec<String>) -> Self {
        Lexer::new(lines)
    }

    fn next(&mut self) -> Token {
        Lexer::next(self)
    }
}

// ---------------------------------------------------------------------------
// Tokenizing a whole line
// ---------------------------------------------------------------------------
/// The token stream of one line: its tokens in order, followed by the
/// end-of-input sentinel.
pub fn tokenize(line: String) -> (r: Vec<Token>)
    ensures
        r@.len() == tokens_from_line(line@, 0).len() + 1,
        forall|i: int|
            0 <= i < tokens_from_line(line@, 0).len() ==> #[trigger] r@[i]@ == tokens_from_line(
                line@,
                0,
            )[i],
        r@[r@.len() - 1]@.kind == TokenType::EndToken,
        r@[r@.len() - 1]@.text == Seq::<char>::empty(),
{
    let ghost lm = line@;
    let mut lx = Lexer::new(vec![line]);
    proof {
        assert(lx.lines_view() =~= seq![lm]);
        assert(tokens_rest(seq![lm], 1, 0) =~= Seq::<TokenM>::empty());
        assert(tokens_rest(seq![lm], 0, 0) =~= tokens_from_line(lm, 0) + tokens_rest(
            seq![lm],
            1,
            0,
        ));
        assert(lx.remaining_tokens() =~= tokens_from_line(lm, 0));
        assert(tokens_from_line(lm, 0).skip(0) =~= tokens_from_line(lm, 0));
    }
    let mut out: Vec<Token> = Vec::new();
    loop
        invariant
            lm == line@,
            lx.wf(),
            out@.len() + lx.remaining_tokens().len() == tokens_from_line(lm, 0).len(),
            forall|i: int|
                0 <= i < out@.len() ==> #[trigger] out@[i]@ == tokens_from_line(lm, 0)[i],
            lx.remaining_tokens() == tokens_from_line(lm, 0).skip(out@.len() as int),
        decreases lx.remaining_tokens().len(),
    {
        let ghost k = out@.len() as int;
        let ghost r0 = lx.remaining_tokens();
        let t = lx.next();
        if t.token_type == TokenType::EndToken {
            proof {
                lemma_tokens_from_line_not_end(lm, 0);
                if r0.len() > 0 {
                    assert(tokens_from_line(lm, 0).skip(k)[0] == tokens_from_line(lm, 0)[k]);
                    assert(false);
                }
            }
            let ghost prev = out@;
            out.push(t);
            proof {
                assert(prev.len() == tokens_from_line(lm, 0).len());
                assert forall|i: int|
                    0 <= i < tokens_from_line(lm, 0).len() implies #[trigger] out@[i]@
                    == tokens_from_line(lm, 0)[i] by {
                    assert(out@[i] == prev[i]);
                }
                assert(out@[out@.len() - 1] == t);
            }
            return out;
        }
        proof {
            assert(tokens_from_line(lm, 0).skip(k)[0] == tokens_from_line(lm, 0)[k]);
            assert(tokens_from_line(lm, 0).skip(k).drop_first() =~= tokens_from_line(lm, 0).skip(
                k + 1,
            ));
        }
        out.push(t);
    }
}

} // verus!
