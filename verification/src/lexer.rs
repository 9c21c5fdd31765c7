//! The lexer: a single-pass scanner from source text to tokens.
//!
//! Pure functions on the source text say where a lexeme starts and ends and
//! how it is classified.  The executable lexer keeps a cursor into the text
//! and is proved to follow those functions.

use vstd::prelude::*;
use vstd::string::*;
use crate::token::{Token, TokenType, TokenView, fixed_text, keyword_kind, lookup_ident};

verus! {

/// The character at index `i`, or NUL past the end of the text.
pub open spec fn char_at(input: Seq<char>, i: nat) -> char {
    if i < input.len() {
        input[i as int]
    } else {
        '\0'
    }
}

/// Space, tab, newline and carriage return separate lexemes.
pub open spec fn whitespace(c: char) -> bool {
    c == ' ' || c == '\t' || c == '\n' || c == '\r'
}

/// A character that may start an identifier.
pub open spec fn letter(c: char) -> bool {
    ('a' <= c && c <= 'z') || ('A' <= c && c <= 'Z') || c == '_'
}

/// A decimal digit.
pub open spec fn digit(c: char) -> bool {
    '0' <= c && c <= '9'
}

/// A character that may continue an identifier.
pub open spec fn identifier_char(c: char) -> bool {
    letter(c) || digit(c)
}

/// The fixed table from single punctuation characters to token kinds.
pub open spec fn punctuation_kind(c: char) -> Option<TokenType> {
    if c == '+' {
        Some(TokenType::Plus)
    } else if c == '(' {
        Some(TokenType::Lparen)
    } else if c == ')' {
        Some(TokenType::Rparen)
    } else if c == '{' {
        Some(TokenType::Lbrace)
    } else if c == '}' {
        Some(TokenType::Rbrace)
    } else if c == ',' {
        Some(TokenType::Comma)
    } else if c == ';' {
        Some(TokenType::SemiColon)
    } else if c == '\0' {
        Some(TokenType::EOF)
    } else {
        None
    }
}

/// The first position at or after `pos` that holds no whitespace.
pub open spec fn skip_whitespace(input: Seq<char>, pos: nat) -> nat
    decreases input.len() - pos,
{
    if pos < input.len() && whitespace(input[pos as int]) {
        skip_whitespace(input, pos + 1)
    } else {
        pos
    }
}

/// The end of the run of identifier characters that starts at `pos`.
pub open spec fn identifier_end(input: Seq<char>, pos: nat) -> nat
    decreases input.len() - pos,
{
    if pos < input.len() && identifier_char(input[pos as int]) {
        identifier_end(input, pos + 1)
    } else {
        pos
    }
}

/// The end of the run of digits that starts at `pos`.
pub open spec fn number_end(input: Seq<char>, pos: nat) -> nat
    decreases input.len() - pos,
{
    if pos < input.len() && digit(input[pos as int]) {
        number_end(input, pos + 1)
    } else {
        pos
    }
}

/// Whether the lexeme at `start` is one of the two-character operators
/// `==` and `!=`.
pub open spec fn two_char_operator(input: Seq<char>, start: nat) -> bool {
    (char_at(input, start) == '=' || char_at(input, start) == '!') && char_at(
        input,
        start + 1,
    ) == '='
}

/// The position just past the lexeme that starts at `start`.  At the end of
/// the text nothing is consumed.
pub open spec fn lexeme_end(input: Seq<char>, start: nat) -> nat {
    let c = char_at(input, start);
    if start >= input.len() {
        start
    } else if letter(c) {
        identifier_end(input, start)
    } else if digit(c) {
        number_end(input, start)
    } else if two_char_operator(input, start) {
        start + 2
    } else {
        start + 1
    }
}

/// The kind of the lexeme that starts at `start`.
pub open spec fn lexeme_kind(input: Seq<char>, start: nat) -> TokenType {
    let c = char_at(input, start);
    if letter(c) {
        keyword_kind(input.subrange(start as int, identifier_end(input, start) as int))
    } else if digit(c) {
        TokenType::Int
    } else if c == '=' {
        if char_at(input, start + 1) == '=' {
            TokenType::Equal
        } else {
            TokenType::Assign
        }
    } else if c == '!' && char_at(input, start + 1) == '=' {
        TokenType::NotEq
    } else {
        match punctuation_kind(c) {
            Some(kind) => kind,
            None => TokenType::Illegal,
        }
    }
}

/// The raw text of the lexeme that starts at `start`.  The end of the text
/// reads as a single NUL.
pub open spec fn lexeme_text(input: Seq<char>, start: nat) -> Seq<char> {
    if start >= input.len() {
        seq!['\0']
    } else {
        input.subrange(start as int, lexeme_end(input, start) as int)
    }
}

/// The token that a scan from `pos` produces: whitespace is skipped, then
/// one lexeme is classified.
pub open spec fn token_at(input: Seq<char>, pos: nat) -> TokenView {
    let start = skip_whitespace(input, pos);
    TokenView { typo: lexeme_kind(input, start), literal: lexeme_text(input, start) }
}

/// The cursor after the scan from `pos`.
pub open spec fn position_after(input: Seq<char>, pos: nat) -> nat {
    lexeme_end(input, skip_whitespace(input, pos))
}

/// Whether a scan from `pos` finds only whitespace up to the end of the text.
pub open spec fn at_end(input: Seq<char>, pos: nat) -> bool {
    skip_whitespace(input, pos) >= input.len()
}

/// The end-of-input token.
pub open spec fn eof_token() -> TokenView {
    TokenView { typo: TokenType::EOF, literal: seq!['\0'] }
}

/// Skipping whitespace moves forward within the text, over whitespace only,
/// and stops at a character that is none.
pub proof fn lemma_skip_whitespace(input: Seq<char>, pos: nat)
    ensures
        pos <= skip_whitespace(input, pos),
        pos <= input.len() ==> skip_whitespace(input, pos) <= input.len(),
        !whitespace(char_at(input, skip_whitespace(input, pos))),
        forall|i: int| pos <= i < skip_whitespace(input, pos) ==> whitespace(#[trigger] input[i]),
    decreases input.len() - pos,
{
    if pos < input.len() && whitespace(input[pos as int]) {
        lemma_skip_whitespace(input, pos + 1);
    }
}

/// A run of identifier characters lies within the text, holds identifier
/// characters only, and ends before a character that is none.
pub proof fn lemma_identifier_end(input: Seq<char>, pos: nat)
    ensures
        pos <= identifier_end(input, pos),
        pos <= input.len() ==> identifier_end(input, pos) <= input.len(),
        !identifier_char(char_at(input, identifier_end(input, pos))),
        forall|i: int|
            pos <= i < identifier_end(input, pos) ==> identifier_char(#[trigger] input[i]),
    decreases input.len() - pos,
{
    if pos < input.len() && identifier_char(input[pos as int]) {
        lemma_identifier_end(input, pos + 1);
    }
}

/// A run of digits lies within the text, holds digits only, and ends before
/// a character that is none.
pub proof fn lemma_number_end(input: Seq<char>, pos: nat)
    ensures
        pos <= number_end(input, pos),
        pos <= input.len() ==> number_end(input, pos) <= input.len(),
        !digit(char_at(input, number_end(input, pos))),
        forall|i: int| pos <= i < number_end(input, pos) ==> digit(#[trigger] input[i]),
    decreases input.len() - pos,
{
    if pos < input.len() && digit(input[pos as int]) {
        lemma_number_end(input, pos + 1);
    }
}

/// A scan that does not start at the end of the text consumes at least one
/// character and yields a token other than the end-of-input token only
/// there; a scan at the end yields the end-of-input token and consumes
/// nothing beyond the whitespace.
pub proof fn lemma_scan_progress(input: Seq<char>, pos: nat)
    ensures
        pos <= input.len() ==> position_after(input, pos) <= input.len(),
        !at_end(input, pos) ==> pos < position_after(input, pos),
        at_end(input, pos) ==> position_after(input, pos) == skip_whitespace(input, pos)
            && token_at(input, pos) == eof_token(),
{
    lemma_skip_whitespace(input, pos);
    let start = skip_whitespace(input, pos);
    lemma_identifier_end(input, start);
    lemma_number_end(input, start);
    if start < input.len() {
        let c = input[start as int];
        if letter(c) {
            lemma_identifier_end(input, start + 1);
        } else if digit(c) {
            lemma_number_end(input, start + 1);
        }
    }
}

/// Whether the text of a token fits its kind: a name is a letter followed
/// by identifier characters and is no keyword, an integer is a run of
/// digits, an illegal token is one character that starts no other token, and
/// every other kind has its fixed text.
pub open spec fn lexical(tok: TokenView) -> bool {
    match tok.typo {
        TokenType::Ident => {
            &&& tok.literal.len() > 0
            &&& letter(tok.literal[0])
            &&& forall|i: int| 0 <= i < tok.literal.len() ==> identifier_char(#[trigger] tok.literal[i])
            &&& keyword_kind(tok.literal) == TokenType::Ident
        },
        TokenType::Int => {
            &&& tok.literal.len() > 0
            &&& forall|i: int| 0 <= i < tok.literal.len() ==> digit(#[trigger] tok.literal[i])
        },
        TokenType::Illegal => {
            &&& tok.literal.len() == 1
            &&& !letter(tok.literal[0])
            &&& !digit(tok.literal[0])
            &&& !whitespace(tok.literal[0])
            &&& tok.literal[0] != '='
            &&& punctuation_kind(tok.literal[0]) is None
        },
        _ => fixed_text(tok.typo) == Some(tok.literal),
    }
}

/// Every token that a scan produces is lexical: its text is the lexeme that
/// its kind stands for.
pub proof fn lemma_token_is_lexical(input: Seq<char>, pos: nat)
    ensures
        lexical(token_at(input, pos)),
{
    lemma_skip_whitespace(input, pos);
    let start = skip_whitespace(input, pos);
    let tok = token_at(input, pos);
    let c = char_at(input, start);
    if start >= input.len() {
    } else if letter(c) {
        lemma_identifier_end(input, start);
        lemma_identifier_end(input, start + 1);
        let end = identifier_end(input, start);
        assert(tok.literal == input.subrange(start as int, end as int));
        assert(tok.literal[0] == c);
        assert forall|i: int| 0 <= i < tok.literal.len() implies identifier_char(
            #[trigger] tok.literal[i],
        ) by {
            assert(tok.literal[i] == input[start + i]);
        }
        if tok.typo == TokenType::Let {
            assert(tok.literal == seq!['l', 'e', 't']);
        } else if tok.typo == TokenType::Function {
            assert(tok.literal == seq!['f', 'n']);
        }
    } else if digit(c) {
        lemma_number_end(input, start);
        lemma_number_end(input, start + 1);
        let end = number_end(input, start);
        assert forall|i: int| 0 <= i < tok.literal.len() implies digit(#[trigger] tok.literal[i]) by {
            assert(tok.literal[i] == input[start + i]);
        }
    } else if two_char_operator(input, start) {
        assert(tok.literal =~= seq![c, '=']);
    } else {
        assert(tok.literal =~= seq![c]);
    }
}

/// Every token of a stream is lexical, and so is the end-of-input token
/// that is read past its end.
pub proof fn lemma_stream_is_lexical(input: Seq<char>, pos: nat, k: nat)
    ensures
        lexical(tok_at(token_stream(input, pos), k)),
    decreases k,
{
    if k == 0 {
        lemma_stream_head(input, pos);
        lemma_token_is_lexical(input, pos);
    } else {
        lemma_stream_tail(input, pos, (k - 1) as nat);
        lemma_stream_is_lexical(input, position_after(input, pos), (k - 1) as nat);
    }
}

/// The tokens that repeated scans from `pos` produce, up to and including
/// the first token of kind `EOF`.
pub open spec fn tokens_until_eof(input: Seq<char>, pos: nat) -> Seq<TokenView>
    decreases input.len() - pos,
{
    let tok = token_at(input, pos);
    if tok.typo == TokenType::EOF {
        seq![tok]
    } else {
        proof {
            lemma_scan_progress(input, pos);
        }
        seq![tok] + tokens_until_eof(input, position_after(input, pos))
    }
}

/// The tokens that repeated scans from `pos` produce, up to and including
/// the end-of-input token that the end of the text gives.
pub open spec fn token_stream(input: Seq<char>, pos: nat) -> Seq<TokenView>
    decreases input.len() - pos,
{
    if at_end(input, pos) {
        seq![eof_token()]
    } else {
        proof {
            lemma_scan_progress(input, pos);
        }
        seq![token_at(input, pos)] + token_stream(input, position_after(input, pos))
    }
}

/// The token at position `i` of a token sequence; past the end, the
/// end-of-input token.
pub open spec fn tok_at(tokens: Seq<TokenView>, i: nat) -> TokenView {
    if i < tokens.len() {
        tokens[i as int]
    } else {
        eof_token()
    }
}

/// The first token of the stream from `pos` is the one that a scan from
/// `pos` produces.
pub proof fn lemma_stream_head(input: Seq<char>, pos: nat)
    ensures
        tok_at(token_stream(input, pos), 0) == token_at(input, pos),
{
    lemma_scan_progress(input, pos);
}

/// The stream from `pos` without its first token reads as the stream from
/// where the first scan ends.
pub proof fn lemma_stream_tail(input: Seq<char>, pos: nat, k: nat)
    ensures
        tok_at(token_stream(input, pos), k + 1) == tok_at(
            token_stream(input, position_after(input, pos)),
            k,
        ),
{
    lemma_scan_progress(input, pos);
    lemma_skip_whitespace(input, pos);
    let next = position_after(input, pos);
    if at_end(input, pos) {
        lemma_skip_whitespace(input, next);
        assert(skip_whitespace(input, next) == next);
        assert(at_end(input, next));
    } else {
        assert(token_stream(input, pos) == seq![token_at(input, pos)] + token_stream(input, next));
    }
}

/// The cursor after `n` scans from `pos`.
pub open spec fn position_after_scans(input: Seq<char>, pos: nat, n: nat) -> nat
    decreases n,
{
    if n == 0 {
        pos
    } else {
        position_after_scans(input, position_after(input, pos), (n - 1) as nat)
    }
}

/// The end of the text is a terminal state: once a scan starts there, that
/// scan and every later one yield the end-of-input token.
pub proof fn lemma_end_is_terminal(input: Seq<char>, pos: nat, n: nat)
    requires
        at_end(input, pos),
    ensures
        at_end(input, position_after_scans(input, pos, n)),
        token_at(input, position_after_scans(input, pos, n)) == eof_token(),
    decreases n,
{
    lemma_scan_progress(input, pos);
    lemma_skip_whitespace(input, pos);
    let next = position_after(input, pos);
    lemma_skip_whitespace(input, next);
    assert(skip_whitespace(input, next) == next);
    if n > 0 {
        lemma_end_is_terminal(input, next, (n - 1) as nat);
    }
}

/// The punctuation characters that are tokens by themselves wherever they
/// stand.
pub open spec fn punctuation(c: char) -> bool {
    c == '+' || c == '(' || c == ')' || c == '{' || c == '}' || c == ',' || c == ';'
}

/// The token of a punctuation character.
pub open spec fn punctuation_token(c: char) -> TokenView {
    TokenView { typo: punctuation_kind(c)->0, literal: seq![c] }
}

/// A text of punctuation characters alone gives one token per character, as
/// the punctuation table classifies it, and then one end-of-input token.
pub proof fn lemma_punctuation_only(input: Seq<char>)
    requires
        forall|i: int| 0 <= i < input.len() ==> punctuation(#[trigger] input[i]),
    ensures
        tokens_until_eof(input, 0) == Seq::new(
            input.len(),
            |i: int| punctuation_token(input[i]),
        ).push(eof_token()),
{
    lemma_punctuation_from(input, 0);
    assert(Seq::new(input.len(), |i: int| punctuation_token(input[0 + i])) =~= Seq::new(
        input.len(),
        |i: int| punctuation_token(input[i]),
    ));
}

proof fn lemma_punctuation_from(input: Seq<char>, pos: nat)
    requires
        pos <= input.len(),
        forall|i: int| 0 <= i < input.len() ==> punctuation(#[trigger] input[i]),
    ensures
        tokens_until_eof(input, pos) == Seq::new(
            (input.len() - pos) as nat,
            |i: int| punctuation_token(input[pos + i]),
        ).push(eof_token()),
    decreases input.len() - pos,
{
    let expected = Seq::new(
        (input.len() - pos) as nat,
        |i: int| punctuation_token(input[pos + i]),
    ).push(eof_token());
    assert(skip_whitespace(input, pos) == pos);
    if pos < input.len() {
        let c = input[pos as int];
        assert(input.subrange(pos as int, pos as int + 1) =~= seq![c]);
        assert(token_at(input, pos) == punctuation_token(c));
        lemma_punctuation_from(input, pos + 1);
    }
    assert(tokens_until_eof(input, pos) =~= expected);
}

/// A maximal run of identifier characters that starts with a letter is
/// scanned as one token: its text is the whole run, its kind is what the
/// keyword table gives for that text (`Ident` unless the run is a keyword),
/// and the cursor ends just past the run.
pub proof fn lemma_identifier_run(input: Seq<char>, start: nat, end: nat)
    requires
        start < end <= input.len(),
        letter(input[start as int]),
        forall|i: int| start <= i < end ==> identifier_char(#[trigger] input[i]),
        end < input.len() ==> !identifier_char(input[end as int]),
    ensures
        token_at(input, start) == (TokenView {
            typo: keyword_kind(input.subrange(start as int, end as int)),
            literal: input.subrange(start as int, end as int),
        }),
        position_after(input, start) == end,
        input.subrange(start as int, end as int) != seq!['l', 'e', 't'] && input.subrange(
            start as int,
            end as int,
        ) != seq!['f', 'n'] ==> token_at(input, start).typo == TokenType::Ident,
{
    assert(skip_whitespace(input, start) == start);
    lemma_run_end(input, start, end);
}

proof fn lemma_run_end(input: Seq<char>, pos: nat, end: nat)
    requires
        pos <= end <= input.len(),
        forall|i: int| pos <= i < end ==> identifier_char(#[trigger] input[i]),
        end < input.len() ==> !identifier_char(input[end as int]),
    ensures
        identifier_end(input, pos) == end,
    decreases end - pos,
{
    if pos < end {
        assert(identifier_char(input[pos as int]));
        lemma_run_end(input, pos + 1, end);
    }
}

/// Whether `c` separates lexemes.
pub fn is_whitespace(c: char) -> (b: bool)
    ensures
        b == whitespace(c),
{
    c == ' ' || c == '\t' || c == '\n' || c == '\r'
}

/// Whether `c` may start an identifier.
pub fn is_letter(c: char) -> (b: bool)
    ensures
        b == letter(c),
{
    ('a' <= c && c <= 'z') || ('A' <= c && c <= 'Z') || c == '_'
}

/// Whether `c` is a decimal digit.
pub fn is_digit(c: char) -> (b: bool)
    ensures
        b == digit(c),
{
    '0' <= c && c <= '9'
}

/// Looks `c` up in the punctuation table.
pub fn lookup_punctuation(c: char) -> (kind: Option<TokenType>)
    ensures
        kind == punctuation_kind(c),
{
    if c == '+' {
        Some(TokenType::Plus)
    } else if c == '(' {
        Some(TokenType::Lparen)
    } else if c == ')' {
        Some(TokenType::Rparen)
    } else if c == '{' {
        Some(TokenType::Lbrace)
    } else if c == '}' {
        Some(TokenType::Rbrace)
    } else if c == ',' {
        Some(TokenType::Comma)
    } else if c == ';' {
        Some(TokenType::SemiColon)
    } else if c == '\0' {
        Some(TokenType::EOF)
    } else {
        None
    }
}

/// Copies the characters of `input` into a vector.
fn to_chars(input: &String) -> (chars: Vec<char>)
    ensures
        chars@ == input@,
{
    let s = input.as_str();
    let mut chars: Vec<char> = Vec::new();
    for c in it: s.chars()
        invariant
            it.seq() == s@,
            chars@ =~= it.seq().take(it.index()),
    {
        chars.push(c);
    }
    assert(chars@ =~= s@);
    chars
}

fn new_token(token: TokenType, ch: String) -> (tok: Token)
    ensures
        tok.typo == token,
        tok.literal == ch,
{
    Token::new(token, ch)
}

/// A scanner over one source text.  It looks at the current character and
/// one character ahead.
pub struct Lexer {
    input: String,
    chars: Vec<char>,
    position: usize,
    read_position: usize,
    ch: char,
}

impl Lexer {
    /// The source text.
    pub closed spec fn source(&self) -> Seq<char> {
        self.input@
    }

    /// The index of the current character: everything before it has been
    /// consumed.
    pub closed spec fn cursor(&self) -> nat {
        self.position as nat
    }

    /// The lexer's invariant: the cursor lies within the text, the current
    /// character is the one under the cursor, and the read position is one
    /// ahead of it (or at the end of the text).
    pub closed spec fn wf(&self) -> bool {
        &&& self.chars@ == self.input@
        &&& self.position <= self.chars.len()
        &&& self.read_position == if self.position < self.chars.len() {
            self.position + 1
        } else {
            self.chars.len() as int
        }
        &&& self.ch == char_at(self.chars@, self.position as nat)
    }

    /// A well-formed lexer's cursor never leaves the text.
    pub proof fn lemma_cursor_in_text(&self)
        requires
            self.wf(),
        ensures
            self.cursor() <= self.source().len(),
    {
    }

    /// A lexer at the start of `input`.
    pub fn new(input: String) -> (l: Lexer)
        ensures
            l.wf(),
            l.source() == input@,
            l.cursor() == 0,
    {
        let chars = to_chars(&input);
        let ch = if chars.len() > 0 {
            chars[0]
        } else {
            '\0'
        };
        let read_position: usize = if chars.len() > 0 {
            1
        } else {
            0
        };
        Lexer { input, chars, position: 0, read_position, ch }
    }

    /// Moves the cursor one character on; at the end of the text it stays.
    fn read_char(&mut self)
        requires
            old(self).wf(),
        ensures
            final(self).wf(),
            final(self).source() == old(self).source(),
            final(self).cursor() == if old(self).cursor() < old(self).source().len() {
                old(self).cursor() + 1
            } else {
                old(self).cursor()
            },
    {
        if self.read_position >= self.chars.len() {
            self.ch = '\0';
        } else {
            self.ch = self.chars[self.read_position];
        }
        self.position = self.read_position;
        if self.read_position < self.chars.len() {
            self.read_position += 1;
        }
    }

    fn skip_whitespaces(&mut self)
        requires
            old(self).wf(),
        ensures
            final(self).wf(),
            final(self).source() == old(self).source(),
            final(self).cursor() == skip_whitespace(old(self).source(), old(self).cursor()),
    {
        while is_whitespace(self.ch)
            invariant
                self.wf(),
                self.source() == old(self).source(),
                skip_whitespace(self.source(), self.cursor()) == skip_whitespace(
                    old(self).source(),
                    old(self).cursor(),
                ),
            decreases self.source().len() - self.cursor(),
        {
            self.read_char();
        }
    }

    /// The character after the current one, or NUL at the end of the text.
    fn peek_char(&self) -> (c: char)
        requires
            self.wf(),
        ensures
            c == char_at(self.source(), self.cursor() + 1),
    {
        if self.read_position >= self.chars.len() {
            '\0'
        } else {
            self.chars[self.read_position]
        }
    }

    /// Consumes the run of identifier characters under the cursor.
    fn read_identifier(&mut self)
        requires
            old(self).wf(),
        ensures
            final(self).wf(),
            final(self).source() == old(self).source(),
            final(self).cursor() == identifier_end(old(self).source(), old(self).cursor()),
    {
        while is_letter(self.ch) || is_digit(self.ch)
            invariant
                self.wf(),
                self.source() == old(self).source(),
                identifier_end(self.source(), self.cursor()) == identifier_end(
                    old(self).source(),
                    old(self).cursor(),
                ),
            decreases self.source().len() - self.cursor(),
        {
            self.read_char();
        }
    }

    /// Consumes the run of digits under the cursor.
    fn read_number(&mut self)
        requires
            old(self).wf(),
        ensures
            final(self).wf(),
            final(self).source() == old(self).source(),
            final(self).cursor() == number_end(old(self).source(), old(self).cursor()),
    {
        while is_digit(self.ch)
            invariant
                self.wf(),
                self.source() == old(self).source(),
                number_end(self.source(), self.cursor()) == number_end(
                    old(self).source(),
                    old(self).cursor(),
                ),
            decreases self.source().len() - self.cursor(),
        {
            self.read_char();
        }
    }

    /// The text between `from` and the cursor.
    fn lexeme_since(&self, from: usize) -> (text: String)
        requires
            self.wf(),
            from <= self.cursor(),
        ensures
            text@ == self.source().subrange(from as int, self.cursor() as int),
    {
        String::from_str(self.input.as_str().substring_char(from, self.position))
    }

    /// Scans one token and moves the cursor past its lexeme.  At the end of
    /// the text every call returns the end-of-input token and the cursor
    /// stays.
    pub fn next_token(&mut self) -> (tok: Token)
        requires
            old(self).wf(),
        ensures
            final(self).wf(),
            final(self).source() == old(self).source(),
            tok@ == token_at(old(self).source(), old(self).cursor()),
            final(self).cursor() == position_after(old(self).source(), old(self).cursor()),
            old(self).cursor() <= final(self).cursor() <= final(self).source().len(),
            !at_end(old(self).source(), old(self).cursor()) ==> old(self).cursor()
                < final(self).cursor(),
            at_end(old(self).source(), old(self).cursor()) ==> tok@ == eof_token() && at_end(
                final(self).source(),
                final(self).cursor(),
            ),
    {
        proof {
            lemma_scan_progress(old(self).source(), old(self).cursor());
            if at_end(old(self).source(), old(self).cursor()) {
                lemma_end_is_terminal(old(self).source(), old(self).cursor(), 1);
                reveal_with_fuel(position_after_scans, 2);
            }
        }
        self.skip_whitespaces();
        let start = self.position;
        let c = self.ch;
        proof {
            lemma_skip_whitespace(old(self).source(), old(self).cursor());
            lemma_identifier_end(self.source(), start as nat);
            lemma_number_end(self.source(), start as nat);
        }
        if start >= self.chars.len() {
            proof {
                reveal_strlit("\0");
                assert("\0"@ =~= seq!['\0']);
            }
            return new_token(TokenType::EOF, String::from_str("\0"));
        }
        if is_letter(c) {
            self.read_identifier();
            let literal = self.lexeme_since(start);
            let kind = lookup_ident(&literal);
            return new_token(kind, literal);
        }
        let kind = if is_digit(c) {
            self.read_number();
            TokenType::Int
        } else if c == '=' {
            if self.peek_char() == '=' {
                self.read_char();
                self.read_char();
                TokenType::Equal
            } else {
                self.read_char();
                TokenType::Assign
            }
        } else if c == '!' && self.peek_char() == '=' {
            self.read_char();
            self.read_char();
            TokenType::NotEq
        } else {
            self.read_char();
            match lookup_punctuation(c) {
                Some(kind) => kind,
                None => TokenType::Illegal,
            }
        };
        let literal = self.lexeme_since(start);
        new_token(kind, literal)
    }
}

/// The values of the tokens in `tokens`, in order.
pub open spec fn token_views(tokens: Seq<Token>) -> Seq<TokenView> {
    Seq::new(tokens.len(), |i: int| tokens[i]@)
}

/// Scans `input` from its start and returns its tokens up to and including
/// the first token of kind `EOF`.
pub fn tokenize(input: String) -> (tokens: Vec<Token>)
    ensures
        token_views(tokens@) == tokens_until_eof(input@, 0),
{
    let mut lexer = Lexer::new(input);
    let mut tokens: Vec<Token> = Vec::new();
    loop
        invariant_except_break
            lexer.wf(),
            lexer.source() == input@,
            token_views(tokens@) + tokens_until_eof(input@, lexer.cursor()) == tokens_until_eof(
                input@,
                0,
            ),
        ensures
            token_views(tokens@) == tokens_until_eof(input@, 0),
        decreases lexer.source().len() - lexer.cursor(),
    {
        let ghost before = token_views(tokens@);
        let ghost pos = lexer.cursor();
        proof {
            lexer.lemma_cursor_in_text();
            lemma_scan_progress(input@, pos);
        }
        let tok = lexer.next_token();
        let done = tok.typo == TokenType::EOF;
        tokens.push(tok);
        assert(token_views(tokens@) =~= before.push(token_at(input@, pos)));
        if done {
            assert(before + seq![token_at(input@, pos)] =~= before.push(token_at(input@, pos)));
            break;
        }
        assert(before.push(token_at(input@, pos)) + tokens_until_eof(input@, lexer.cursor())
            =~= before + tokens_until_eof(input@, pos));
    }
    tokens
}

} // verus!
