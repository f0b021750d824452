//! The scanner: a pull-based cursor over an immutable ASCII input buffer.
//!
//! `spec_scan_at` is the mathematical model: given the input text and a
//! cursor position it says which token the next call must produce and where
//! the cursor stops afterwards. `Lexer::next_token` is proved to follow that
//! model exactly.

use vstd::prelude::*;
use vstd::string::StrSliceExecFns;
use vstd::string::StringSliceAdditionalSpecFns;
use vstd::string::string_is_ascii;
use crate::token::{Token, TokenType, lookup_ident, spec_lookup_ident};

verus! {

/// Whitespace that separates tokens and is never part of one.
pub open spec fn is_whitespace_char(c: char) -> bool {
    c == ' ' || c == '\t' || c == '\n' || c == '\r'
}

/// Characters that may form an identifier: ASCII letters and underscore
/// (digits are not admitted inside identifiers in this design).
pub open spec fn is_letter_char(c: char) -> bool {
    ('a' <= c && c <= 'z') || ('A' <= c && c <= 'Z') || c == '_'
}

/// ASCII decimal digits, the characters of an integer literal.
pub open spec fn is_digit_char(c: char) -> bool {
    '0' <= c && c <= '9'
}

/// The first position at or after `i` that does not hold whitespace
/// (the input's length if whitespace runs to the end).
pub open spec fn skip_ws_end(s: Seq<char>, i: int) -> int
    decreases s.len() - i,
{
    if 0 <= i && i < s.len() && is_whitespace_char(s[i]) {
        skip_ws_end(s, i + 1)
    } else {
        i
    }
}

/// The end of the maximal run of identifier characters starting at `i`.
pub open spec fn letter_run_end(s: Seq<char>, i: int) -> int
    decreases s.len() - i,
{
    if 0 <= i && i < s.len() && is_letter_char(s[i]) {
        letter_run_end(s, i + 1)
    } else {
        i
    }
}

/// The end of the maximal run of digits starting at `i`.
pub open spec fn digit_run_end(s: Seq<char>, i: int) -> int
    decreases s.len() - i,
{
    if 0 <= i && i < s.len() && is_digit_char(s[i]) {
        digit_run_end(s, i + 1)
    } else {
        i
    }
}

/// What one scan step must produce: the token's kind, its literal text, and
/// the cursor position after it.
pub struct SpecToken {
    pub kind: TokenType,
    pub literal: Seq<char>,
    pub end: int,
}

/// The token scanned at position `i` of input `s`, after skipping
/// whitespace: the model every `next_token` call is proved against.
pub open spec fn spec_scan_at(s: Seq<char>, i: int) -> SpecToken
    recommends
        0 <= i <= s.len(),
{
    let j = skip_ws_end(s, i);
    if j >= s.len() {
        SpecToken { kind: TokenType::EOF, literal: Seq::empty(), end: j }
    } else {
        let c = s[j];
        if c == '=' {
            if j + 1 < s.len() && s[j + 1] == '=' {
                SpecToken { kind: TokenType::EQ, literal: s.subrange(j, j + 2), end: j + 2 }
            } else {
                SpecToken { kind: TokenType::ASSIGN, literal: s.subrange(j, j + 1), end: j + 1 }
            }
        } else if c == ';' {
            SpecToken { kind: TokenType::SEMICOLON, literal: s.subrange(j, j + 1), end: j + 1 }
        } else if c == ',' {
            SpecToken { kind: TokenType::COMMA, literal: s.subrange(j, j + 1), end: j + 1 }
        } else if c == '+' {
            SpecToken { kind: TokenType::PLUS, literal: s.subrange(j, j + 1), end: j + 1 }
        } else if c == '(' {
            SpecToken { kind: TokenType::LPAREN, literal: s.subrange(j, j + 1), end: j + 1 }
        } else if c == '{' {
            SpecToken { kind: TokenType::LBRACE, literal: s.subrange(j, j + 1), end: j + 1 }
        } else if c == ')' {
            SpecToken { kind: TokenType::RPAREN, literal: s.subrange(j, j + 1), end: j + 1 }
        } else if c == '}' {
            SpecToken { kind: TokenType::RBRACE, literal: s.subrange(j, j + 1), end: j + 1 }
        } else if c == '-' {
            SpecToken { kind: TokenType::MINUS, literal: s.subrange(j, j + 1), end: j + 1 }
        } else if c == '/' {
            SpecToken { kind: TokenType::SLASH, literal: s.subrange(j, j + 1), end: j + 1 }
        } else if c == '*' {
            SpecToken { kind: TokenType::ASTERISK, literal: s.subrange(j, j + 1), end: j + 1 }
        } else if c == '!' {
            if j + 1 < s.len() && s[j + 1] == '=' {
                SpecToken { kind: TokenType::NOT_EQ, literal: s.subrange(j, j + 2), end: j + 2 }
            } else {
                SpecToken { kind: TokenType::BANG, literal: s.subrange(j, j + 1), end: j + 1 }
            }
        } else if c == '<' {
            SpecToken { kind: TokenType::LT, literal: s.subrange(j, j + 1), end: j + 1 }
        } else if c == '>' {
            SpecToken { kind: TokenType::GT, literal: s.subrange(j, j + 1), end: j + 1 }
        } else if is_letter_char(c) {
            let k = letter_run_end(s, j);
            SpecToken { kind: spec_lookup_ident(s.subrange(j, k)), literal: s.subrange(j, k), end: k }
        } else if is_digit_char(c) {
            let k = digit_run_end(s, j);
            SpecToken { kind: TokenType::INT, literal: s.subrange(j, k), end: k }
        } else {
            SpecToken { kind: TokenType::ILLEGAL, literal: s.subrange(j, j + 1), end: j + 1 }
        }
    }
}

/// Whitespace skipping is exact: everything before `skip_ws_end` is
/// whitespace, and the character there (if any) is not.
pub proof fn lemma_skip_ws_end(s: Seq<char>, i: int)
    requires
        0 <= i <= s.len(),
    ensures
        i <= skip_ws_end(s, i) <= s.len(),
        forall|k: int| i <= k < skip_ws_end(s, i) ==> is_whitespace_char(#[trigger] s[k]),
        skip_ws_end(s, i) < s.len() ==> !is_whitespace_char(s[skip_ws_end(s, i)]),
    decreases s.len() - i,
{
    if i < s.len() && is_whitespace_char(s[i]) {
        lemma_skip_ws_end(s, i + 1);
    }
}

/// An identifier run is maximal: everything before `letter_run_end` is an
/// identifier character, and the character there (if any) is not.
pub proof fn lemma_letter_run_end(s: Seq<char>, i: int)
    requires
        0 <= i <= s.len(),
    ensures
        i <= letter_run_end(s, i) <= s.len(),
        forall|k: int| i <= k < letter_run_end(s, i) ==> is_letter_char(#[trigger] s[k]),
        letter_run_end(s, i) < s.len() ==> !is_letter_char(s[letter_run_end(s, i)]),
    decreases s.len() - i,
{
    if i < s.len() && is_letter_char(s[i]) {
        lemma_letter_run_end(s, i + 1);
    }
}

/// A digit run is maximal: everything before `digit_run_end` is a digit,
/// and the character there (if any) is not.
pub proof fn lemma_digit_run_end(s: Seq<char>, i: int)
    requires
        0 <= i <= s.len(),
    ensures
        i <= digit_run_end(s, i) <= s.len(),
        forall|k: int| i <= k < digit_run_end(s, i) ==> is_digit_char(#[trigger] s[k]),
        digit_run_end(s, i) < s.len() ==> !is_digit_char(s[digit_run_end(s, i)]),
    decreases s.len() - i,
{
    if i < s.len() && is_digit_char(s[i]) {
        lemma_digit_run_end(s, i + 1);
    }
}

/// Maximal munch: a token that starts at an identifier character spans the
/// longest run of identifier characters and is looked up in the keyword
/// table whole; one that starts at a digit spans the longest run of digits.
/// The character at the token's end, if any, falls outside the class.
pub proof fn lemma_maximal_munch(s: Seq<char>, i: int)
    requires
        0 <= i <= s.len(),
    ensures
        ({
            let j = skip_ws_end(s, i);
            let t = spec_scan_at(s, i);
            &&& (j < s.len() && is_letter_char(s[j]) ==> {
                &&& t.kind == spec_lookup_ident(t.literal)
                &&& t.literal == s.subrange(j, t.end)
                &&& j < t.end <= s.len()
                &&& (forall|k: int| j <= k < t.end ==> is_letter_char(#[trigger] s[k]))
                &&& (t.end < s.len() ==> !is_letter_char(s[t.end]))
            })
            &&& (j < s.len() && is_digit_char(s[j]) ==> {
                &&& t.kind == TokenType::INT
                &&& t.literal == s.subrange(j, t.end)
                &&& j < t.end <= s.len()
                &&& (forall|k: int| j <= k < t.end ==> is_digit_char(#[trigger] s[k]))
                &&& (t.end < s.len() ==> !is_digit_char(s[t.end]))
            })
        }),
{
    let j = skip_ws_end(s, i);
    lemma_skip_ws_end(s, i);
    if j < s.len() && is_letter_char(s[j]) {
        lemma_letter_run_end(s, j);
    }
    if j < s.len() && is_digit_char(s[j]) {
        lemma_digit_run_end(s, j);
    }
}

/// Idempotent termination: an `EOF` token carries an empty literal, parks
/// the cursor at the end of the input, and every scan from there is the
/// same `EOF` token again.
pub proof fn lemma_eof_idempotent(s: Seq<char>, i: int)
    requires
        0 <= i <= s.len(),
        spec_scan_at(s, i).kind == TokenType::EOF,
    ensures
        spec_scan_at(s, i).literal == Seq::<char>::empty(),
        spec_scan_at(s, i).end == s.len(),
        spec_scan_at(s, spec_scan_at(s, i).end) == spec_scan_at(s, i),
{
    lemma_skip_ws_end(s, i);
}

/// Whitespace separates tokens but never reaches them: no token's literal
/// holds a whitespace character, and only `EOF` has an empty literal.
pub proof fn lemma_whitespace_never_in_literal(s: Seq<char>, i: int)
    requires
        0 <= i <= s.len(),
    ensures
        forall|k: int|
            0 <= k < spec_scan_at(s, i).literal.len() ==> !is_whitespace_char(
                #[trigger] spec_scan_at(s, i).literal[k],
            ),
        spec_scan_at(s, i).literal.len() == 0 <==> spec_scan_at(s, i).kind == TokenType::EOF,
{
    let j = skip_ws_end(s, i);
    lemma_skip_ws_end(s, i);
    if j < s.len() {
        if is_letter_char(s[j]) {
            lemma_letter_run_end(s, j);
        }
        if is_digit_char(s[j]) {
            lemma_digit_run_end(s, j);
        }
    }
}

/// The single-character punctuation set.
pub open spec fn is_punct_char(c: char) -> bool {
    ||| c == '='
    ||| c == ';'
    ||| c == ','
    ||| c == '+'
    ||| c == '('
    ||| c == '{'
    ||| c == ')'
    ||| c == '}'
    ||| c == '-'
    ||| c == '/'
    ||| c == '*'
    ||| c == '<'
    ||| c == '>'
}

/// The token kind of one punctuation character standing alone.
pub open spec fn punct_kind(c: char) -> TokenType {
    if c == '=' {
        TokenType::ASSIGN
    } else if c == ';' {
        TokenType::SEMICOLON
    } else if c == ',' {
        TokenType::COMMA
    } else if c == '+' {
        TokenType::PLUS
    } else if c == '(' {
        TokenType::LPAREN
    } else if c == '{' {
        TokenType::LBRACE
    } else if c == ')' {
        TokenType::RPAREN
    } else if c == '}' {
        TokenType::RBRACE
    } else if c == '-' {
        TokenType::MINUS
    } else if c == '/' {
        TokenType::SLASH
    } else if c == '*' {
        TokenType::ASTERISK
    } else if c == '<' {
        TokenType::LT
    } else {
        TokenType::GT
    }
}

/// An input made solely of single-character punctuation scans to its
/// characters' tokens in left-to-right order, one character per token, and
/// ends in `EOF` with an empty literal. Inputs where `=` is directly
/// followed by `=` are left out: there the scanner prefers the combined
/// `==` token over two single-character ones.
pub proof fn lemma_punctuation_stream(s: Seq<char>)
    requires
        forall|k: int| 0 <= k < s.len() ==> is_punct_char(#[trigger] s[k]),
        forall|k: int|
            0 <= k && k + 1 < s.len() ==> !((#[trigger] s[k]) == '=' && s[k + 1] == '='),
    ensures
        forall|i: int|
            0 <= i < s.len() ==> #[trigger] spec_scan_at(s, i) == (SpecToken {
                kind: punct_kind(s[i]),
                literal: s.subrange(i, i + 1),
                end: i + 1,
            }),
        spec_scan_at(s, s.len() as int) == (SpecToken {
            kind: TokenType::EOF,
            literal: Seq::<char>::empty(),
            end: s.len() as int,
        }),
{
    assert forall|i: int| 0 <= i < s.len() implies #[trigger] spec_scan_at(s, i) == (SpecToken {
        kind: punct_kind(s[i]),
        literal: s.subrange(i, i + 1),
        end: i + 1,
    }) by {
        assert(is_punct_char(s[i]));
        assert(skip_ws_end(s, i) == i);
        if i + 1 < s.len() {
            assert(!(s[i] == '=' && s[i + 1] == '='));
        }
    }
}

/// The scanner state: the whole input text, the index of the current
/// character, the index of the next character to read, and the current
/// character itself (`None` once the input is exhausted).
pub struct Lexer {
    input: String,
    position: usize,
    read_position: usize,
    ch: Option<u8>,
}

impl Lexer {
    /// The input text as a sequence of characters.
    pub closed spec fn src(&self) -> Seq<char> {
        self.input@
    }

    /// The cursor: the index of the current character, the input's length
    /// once the input is exhausted.
    pub closed spec fn pos(&self) -> int {
        self.position as int
    }

    /// Well-formedness: the input is ASCII, the cursor stays inside the
    /// input, the read position is one past the current character, and the
    /// cached character reflects the input at the cursor (or the end).
    pub closed spec fn wf(&self) -> bool {
        &&& string_is_ascii(&self.input)
        &&& self.input@.len() <= usize::MAX
        &&& self.position <= self.input@.len()
        &&& self.read_position == if (self.position as int) < self.input@.len() {
            self.position as int + 1
        } else {
            self.input@.len() as int
        }
        &&& self.ch == if (self.position as int) < self.input@.len() {
            Some(self.input@[self.position as int] as u8)
        } else {
            None::<u8>
        }
    }

    /// The input's length in characters (equal to its length in bytes,
    /// since the input is ASCII).
    fn input_len(&self) -> (n: usize)
        requires
            string_is_ascii(&self.input),
            self.input@.len() <= usize::MAX,
        ensures
            n == self.input@.len(),
    {
        let s = self.input.as_str();
        proof {
            broadcast use vstd::string::is_ascii_spec_bytes;

            assert(vstd::string::is_ascii(s));
            assert(s.spec_bytes().len() == self.input@.len());
        }
        s.len()
    }

    /// Loads the character at `read_position` (or the end marker) and
    /// advances the cursor to it.
    fn read_char(&mut self)
        requires
            string_is_ascii(&old(self).input),
            old(self).input@.len() <= usize::MAX,
            old(self).read_position <= old(self).input@.len(),
        ensures
            final(self).wf(),
            final(self).src() == old(self).src(),
            final(self).pos() == old(self).read_position as int,
    {
        let len = self.input_len();
        if self.read_position >= len {
            self.ch = None;
            self.position = len;
            self.read_position = len;
        } else {
            self.ch = Some(self.input.as_str().get_ascii(self.read_position));
            self.position = self.read_position;
            self.read_position = self.read_position + 1;
        }
    }

    /// Constructs a scanner over `input` with the first character already
    /// loaded (or at the end, if `input` is empty).
    pub fn new(input: String) -> (lexer: Lexer)
        requires
            string_is_ascii(&input),
            input@.len() <= usize::MAX,
        ensures
            lexer.wf(),
            lexer.src() == input@,
            lexer.pos() == 0,
    {
        let mut lexer = Lexer { input, position: 0, read_position: 0, ch: None };
        lexer.read_char();
        lexer
    }

    /// Whether the current character can stand in an identifier.
    fn is_letter(&self) -> (r: bool)
        requires
            self.wf(),
        ensures
            r == (self.pos() < self.src().len() && is_letter_char(self.src()[self.pos()])),
    {
        match self.ch {
            Some(c) => ('a' as u8 <= c && c <= 'z' as u8) || ('A' as u8 <= c && c <= 'Z' as u8)
                || c == '_' as u8,
            None => false,
        }
    }

    /// Whether the current character is an ASCII decimal digit.
    fn is_digit(&self) -> (r: bool)
        requires
            self.wf(),
        ensures
            r == (self.pos() < self.src().len() && is_digit_char(self.src()[self.pos()])),
    {
        match self.ch {
            Some(c) => '0' as u8 <= c && c <= '9' as u8,
            None => false,
        }
    }

    /// Whether the current character is whitespace.
    fn is_whitespace(&self) -> (r: bool)
        requires
            self.wf(),
        ensures
            r == (self.pos() < self.src().len() && is_whitespace_char(self.src()[self.pos()])),
    {
        match self.ch {
            Some(c) => c == ' ' as u8 || c == '\t' as u8 || c == '\n' as u8 || c == '\r' as u8,
            None => false,
        }
    }

    /// The character after the current one, without moving the cursor.
    fn peek_char(&self) -> (r: Option<u8>)
        requires
            self.wf(),
        ensures
            r == if self.pos() + 1 < self.src().len() {
                Some(self.src()[self.pos() + 1] as u8)
            } else {
                None::<u8>
            },
    {
        if self.read_position >= self.input_len() {
            None
        } else {
            Some(self.input.as_str().get_ascii(self.read_position))
        }
    }

    /// Copies the source text between two cursor positions out as an owned
    /// string.
    fn lexeme(&self, from: usize, to: usize) -> (s: String)
        requires
            self.wf(),
            from <= to,
            to <= self.src().len(),
        ensures
            s@ == self.src().subrange(from as int, to as int),
    {
        self.input.as_str().substring_ascii(from, to).to_owned()
    }

    /// Consumes whitespace until the cursor rests on a non-whitespace
    /// character or the end of the input.
    fn skip_whitespace(&mut self)
        requires
            old(self).wf(),
        ensures
            final(self).wf(),
            final(self).src() == old(self).src(),
            final(self).pos() == skip_ws_end(old(self).src(), old(self).pos()),
    {
        let ghost s0 = self.src();
        let ghost p0 = self.pos();
        while self.is_whitespace()
            invariant
                self.wf(),
                self.src() == s0,
                p0 <= self.pos() <= s0.len(),
                skip_ws_end(s0, p0) == skip_ws_end(s0, self.pos()),
            decreases s0.len() - self.pos(),
        {
            self.read_char();
        }
    }

    /// Consumes the maximal run of identifier characters starting at the
    /// cursor and returns it as the lexeme.
    fn read_identifier(&mut self) -> (lit: String)
        requires
            old(self).wf(),
        ensures
            final(self).wf(),
            final(self).src() == old(self).src(),
            final(self).pos() == letter_run_end(old(self).src(), old(self).pos()),
            lit@ == old(self).src().subrange(old(self).pos(), final(self).pos()),
    {
        let ghost s0 = self.src();
        let ghost p0 = self.pos();
        let start: usize = self.position;
        while self.is_letter()
            invariant
                self.wf(),
                self.src() == s0,
                p0 <= self.pos() <= s0.len(),
                start as int == p0,
                letter_run_end(s0, p0) == letter_run_end(s0, self.pos()),
            decreases s0.len() - self.pos(),
        {
            self.read_char();
        }
        self.lexeme(start, self.position)
    }

    /// Consumes the maximal run of digits starting at the cursor and
    /// returns it as the lexeme.
    fn read_number(&mut self) -> (lit: String)
        requires
            old(self).wf(),
        ensures
            final(self).wf(),
            final(self).src() == old(self).src(),
            final(self).pos() == digit_run_end(old(self).src(), old(self).pos()),
            lit@ == old(self).src().subrange(old(self).pos(), final(self).pos()),
    {
        let ghost s0 = self.src();
        let ghost p0 = self.pos();
        let start: usize = self.position;
        while self.is_digit()
            invariant
                self.wf(),
                self.src() == s0,
                p0 <= self.pos() <= s0.len(),
                start as int == p0,
                digit_run_end(s0, p0) == digit_run_end(s0, self.pos()),
            decreases s0.len() - self.pos(),
        {
            self.read_char();
        }
        self.lexeme(start, self.position)
    }

    /// Emits a token for the single character under the cursor and advances
    /// past it.
    fn single_char_token(&mut self, token_type: TokenType) -> (token: Token)
        requires
            old(self).wf(),
            old(self).pos() < old(self).src().len(),
        ensures
            final(self).wf(),
            final(self).src() == old(self).src(),
            final(self).pos() == old(self).pos() + 1,
            token.kind == token_type,
            token.literal@ == old(self).src().subrange(old(self).pos(), old(self).pos() + 1),
    {
        let c = match self.ch {
            Some(c) => c,
            None => 0,
        };
        let token = Token::new(token_type, c);
        proof {
            assert(old(self).src().subrange(old(self).pos(), old(self).pos() + 1)
                =~= seq![old(self).src()[old(self).pos()]]);
        }
        self.read_char();
        token
    }

    /// Produces the next token and leaves the cursor on the first character
    /// not consumed by it. Exactly one token comes out of each call, as
    /// `spec_scan_at` describes: whitespace is skipped, `==` and `!=` are
    /// preferred over their one-character prefixes, identifier and digit
    /// runs are consumed maximally, reserved words take their keyword kind,
    /// an unrecognized character yields `ILLEGAL`, and the end of the input
    /// yields `EOF` with an empty literal, forever.
    pub fn next_token(&mut self) -> (token: Token)
        requires
            old(self).wf(),
        ensures
            final(self).wf(),
            final(self).src() == old(self).src(),
            token.kind == spec_scan_at(old(self).src(), old(self).pos()).kind,
            token.literal@ == spec_scan_at(old(self).src(), old(self).pos()).literal,
            final(self).pos() == spec_scan_at(old(self).src(), old(self).pos()).end,
    {
        self.skip_whitespace();
        let c = match self.ch {
            None => {
                return Token { kind: TokenType::EOF, literal: String::new() };
            },
            Some(c) => c,
        };
        if c == '=' as u8 {
            let two = match self.peek_char() {
                Some(p) => p == '=' as u8,
                None => false,
            };
            if two {
                let start: usize = self.position;
                let lit = self.lexeme(start, start + 2);
                self.read_char();
                self.read_char();
                Token { kind: TokenType::EQ, literal: lit }
            } else {
                self.single_char_token(TokenType::ASSIGN)
            }
        } else if c == ';' as u8 {
            self.single_char_token(TokenType::SEMICOLON)
        } else if c == ',' as u8 {
            self.single_char_token(TokenType::COMMA)
        } else if c == '+' as u8 {
            self.single_char_token(TokenType::PLUS)
        } else if c == '(' as u8 {
            self.single_char_token(TokenType::LPAREN)
        } else if c == '{' as u8 {
            self.single_char_token(TokenType::LBRACE)
        } else if c == ')' as u8 {
            self.single_char_token(TokenType::RPAREN)
        } else if c == '}' as u8 {
            self.single_char_token(TokenType::RBRACE)
        } else if c == '-' as u8 {
            self.single_char_token(TokenType::MINUS)
        } else if c == '/' as u8 {
            self.single_char_token(TokenType::SLASH)
        } else if c == '*' as u8 {
            self.single_char_token(TokenType::ASTERISK)
        } else if c == '!' as u8 {
            let two = match self.peek_char() {
                Some(p) => p == '=' as u8,
                None => false,
            };
            if two {
                let start: usize = self.position;
                let lit = self.lexeme(start, start + 2);
                self.read_char();
                self.read_char();
                Token { kind: TokenType::NOT_EQ, literal: lit }
            } else {
                self.single_char_token(TokenType::BANG)
            }
        } else if c == '<' as u8 {
            self.single_char_token(TokenType::LT)
        } else if c == '>' as u8 {
            self.single_char_token(TokenType::GT)
        } else if self.is_letter() {
            let lit = self.read_identifier();
            let kind = lookup_ident(&lit);
            Token { kind, literal: lit }
        } else if self.is_digit() {
            let lit = self.read_number();
            Token { kind: TokenType::INT, literal: lit }
        } else {
            self.single_char_token(TokenType::ILLEGAL)
        }
    }
}

} // verus!
