//! The lexer: turns source text into tokens, one per call.
use vstd::prelude::*;
use vstd::string::*;

verus! {

/// The kind of a token.
#[derive(PartialEq, Eq, Structural, Clone, Copy, Debug)]
pub enum TokenType {
    LParen,
    RParen,
    LBrace,
    RBrace,
    Plus,
    Minus,
    Slash,
    Asterisk,
    Coma,
    Dot,
    Semicolon,
    Bang,
    BangEq,
    Less,
    LessEq,
    Greater,
    GreaterEq,
    Eq,
    EqEq,
    Ident,
    String,
    Number,
    And,
    Or,
    Class,
    Super,
    This,
    If,
    Else,
    True,
    False,
    Nil,
    For,
    While,
    Fun,
    Return,
    Var,
    Print,
    Error,
    EndOfFile,
}

/// A token: its kind, its text (for identifiers, numbers and strings; the
/// message for an error; empty otherwise) and its line.
#[derive(Clone, Debug)]
pub struct Token {
    pub ty: TokenType,
    pub text: String,
    pub line: usize,
}

impl View for Token {
    type V = (TokenType, Seq<char>, nat);

    open spec fn view(&self) -> (TokenType, Seq<char>, nat) {
        (self.ty, self.text@, self.line as nat)
    }
}

impl Token {
    pub fn new(ty: TokenType, text: String, line: usize) -> (r: Self)
        ensures
            r.ty == ty,
            r.text@ == text@,
            r.line == line,
    {
        Self { ty, text, line }
    }

    pub fn new_no_text(ty: TokenType, line: usize) -> (r: Self)
        ensures
            r.ty == ty,
            r.text@ == Seq::<char>::empty(),
            r.line == line,
    {
        Self::new(ty, String::new(), line)
    }
}

pub open spec fn is_digit(c: char) -> bool {
    '0' <= c && c <= '9'
}

pub open spec fn is_alpha(c: char) -> bool {
    ('a' <= c && c <= 'z') || ('A' <= c && c <= 'Z') || c == '_'
}

/// The character at `i`, or NUL past either end.
pub open spec fn char_at(s: Seq<char>, i: int) -> char {
    if 0 <= i < s.len() {
        s[i]
    } else {
        '\0'
    }
}

/// Where whitespace and line comments starting at `p` end, and the line there.
pub open spec fn skip_ws(s: Seq<char>, p: nat, line: nat, in_comment: bool) -> (nat, nat)
    decreases s.len() - p, (if in_comment { 1int } else { 0int }),
{
    if in_comment {
        if p >= s.len() || s[p as int] == '\n' {
            skip_ws(s, p, line, false)
        } else {
            skip_ws(s, p + 1, line, true)
        }
    } else if p >= s.len() {
        (p, line)
    } else if s[p as int] == ' ' || s[p as int] == '\r' || s[p as int] == '\t' {
        skip_ws(s, p + 1, line, false)
    } else if s[p as int] == '\n' {
        skip_ws(s, p + 1, line + 1, false)
    } else if s[p as int] == '/' && char_at(s, p + 1int) == '/' {
        skip_ws(s, p + 1, line, true)
    } else {
        (p, line)
    }
}

/// The end of the run of digits that starts at `p`.
pub open spec fn digits_end(s: Seq<char>, p: nat) -> nat
    decreases s.len() - p,
{
    if p < s.len() && is_digit(s[p as int]) {
        digits_end(s, p + 1)
    } else {
        p
    }
}

/// The end of the run of letters, digits and underscores that starts at `p`.
pub open spec fn word_end(s: Seq<char>, p: nat) -> nat
    decreases s.len() - p,
{
    if p < s.len() && (is_alpha(s[p as int]) || is_digit(s[p as int])) {
        word_end(s, p + 1)
    } else {
        p
    }
}

/// The end of a number literal whose first digit lies just before `p`.
pub open spec fn number_end(s: Seq<char>, p: nat) -> nat {
    let q = digits_end(s, p);
    if char_at(s, q as int) == '.' && is_digit(char_at(s, q + 1int)) {
        digits_end(s, q + 1)
    } else {
        q
    }
}

/// The first position at or after `p` that holds a double quote, or the end.
pub open spec fn quote_end(s: Seq<char>, p: nat) -> nat
    decreases s.len() - p,
{
    if p < s.len() && s[p as int] != '"' {
        quote_end(s, p + 1)
    } else {
        p
    }
}

proof fn lemma_quote_end_bound(s: Seq<char>, p: nat)
    ensures
        quote_end(s, p) >= p,
    decreases s.len() - p,
{
    if p < s.len() && s[p as int] != '"' {
        lemma_quote_end_bound(s, p + 1);
    }
}

/// The number of newlines in `s[p..e]`.
pub open spec fn newlines(s: Seq<char>, p: nat, e: nat) -> nat
    decreases e - p,
{
    if p < e && p < s.len() {
        (if s[p as int] == '\n' { 1nat } else { 0nat }) + newlines(s, p + 1, e)
    } else {
        0
    }
}

/// The kind of a word: a reserved keyword, or an identifier.
pub open spec fn keyword_kind(w: Seq<char>) -> TokenType {
    if w == seq!['a', 'n', 'd'] { TokenType::And }
    else if w == seq!['c', 'l', 'a', 's', 's'] { TokenType::Class }
    else if w == seq!['e', 'l', 's', 'e'] { TokenType::Else }
    else if w == seq!['f', 'a', 'l', 's', 'e'] { TokenType::False }
    else if w == seq!['f', 'o', 'r'] { TokenType::For }
    else if w == seq!['f', 'u', 'n'] { TokenType::Fun }
    else if w == seq!['i', 'f'] { TokenType::If }
    else if w == seq!['n', 'i', 'l'] { TokenType::Nil }
    else if w == seq!['o', 'r'] { TokenType::Or }
    else if w == seq!['p', 'r', 'i', 'n', 't'] { TokenType::Print }
    else if w == seq!['r', 'e', 't', 'u', 'r', 'n'] { TokenType::Return }
    else if w == seq!['s', 'u', 'p', 'e', 'r'] { TokenType::Super }
    else if w == seq!['t', 'h', 'i', 's'] { TokenType::This }
    else if w == seq!['t', 'r', 'u', 'e'] { TokenType::True }
    else if w == seq!['v', 'a', 'r'] { TokenType::Var }
    else if w == seq!['w', 'h', 'i', 'l', 'e'] { TokenType::While }
    else { TokenType::Ident }
}

/// The kind of a one-character token, if `c` starts one.
pub open spec fn single_kind(c: char) -> Option<TokenType> {
    if c == '(' { Some(TokenType::LParen) }
    else if c == ')' { Some(TokenType::RParen) }
    else if c == '{' { Some(TokenType::LBrace) }
    else if c == '}' { Some(TokenType::RBrace) }
    else if c == '+' { Some(TokenType::Plus) }
    else if c == '-' { Some(TokenType::Minus) }
    else if c == '*' { Some(TokenType::Asterisk) }
    else if c == '/' { Some(TokenType::Slash) }
    else if c == ';' { Some(TokenType::Semicolon) }
    else if c == ',' { Some(TokenType::Coma) }
    else if c == '.' { Some(TokenType::Dot) }
    else { None }
}

/// The kinds of an operator that may be followed by `=`: alone, and with it.
pub open spec fn pair_kinds(c: char) -> Option<(TokenType, TokenType)> {
    if c == '!' { Some((TokenType::Bang, TokenType::BangEq)) }
    else if c == '=' { Some((TokenType::Eq, TokenType::EqEq)) }
    else if c == '<' { Some((TokenType::Less, TokenType::LessEq)) }
    else if c == '>' { Some((TokenType::Greater, TokenType::GreaterEq)) }
    else { None }
}

/// The message of the error token for a character that starts no token.
pub open spec fn unexpected_message(c: char) -> Seq<char> {
    "Unexpected character '"@ + seq![c] + "'"@
}

/// The token that starts at `p < s.len()` on line `line`, where the lexer
/// then stands, and its line there.
pub open spec fn lex_at(s: Seq<char>, p: nat, line: nat) -> ((TokenType, Seq<char>, nat), nat, nat) {
    let c = s[p as int];
    if is_digit(c) {
        let e = number_end(s, p + 1);
        ((TokenType::Number, s.subrange(p as int, e as int), line), e, line)
    } else if is_alpha(c) {
        let e = word_end(s, p + 1);
        let w = s.subrange(p as int, e as int);
        let text = if keyword_kind(w) == TokenType::Ident { w } else { Seq::empty() };
        ((keyword_kind(w), text, line), e, line)
    } else if single_kind(c) is Some {
        ((single_kind(c)->0, Seq::empty(), line), p + 1, line)
    } else if pair_kinds(c) is Some {
        let (alone, with_eq) = pair_kinds(c)->0;
        if char_at(s, p + 1int) == '=' {
            ((with_eq, Seq::empty(), line), p + 2, line)
        } else {
            ((alone, Seq::empty(), line), p + 1, line)
        }
    } else if c == '"' {
        let e = quote_end(s, p + 1);
        let l = line + newlines(s, p + 1, e);
        if e >= s.len() {
            ((TokenType::Error, "Unterminated string"@, l), e, l)
        } else {
            ((TokenType::String, s.subrange(p + 1int, e as int), l), e + 1, l)
        }
    } else {
        ((TokenType::Error, unexpected_message(c), line), p + 1, line)
    }
}

/// The next token of `s` from position `p` on line `line`, where the lexer
/// then stands, and its line there.
pub open spec fn scan(s: Seq<char>, p: nat, line: nat) -> ((TokenType, Seq<char>, nat), nat, nat) {
    let (q, l) = skip_ws(s, p, line, false);
    if q >= s.len() {
        ((TokenType::EndOfFile, Seq::empty(), l), q, l)
    } else {
        lex_at(s, q, l)
    }
}

proof fn lemma_newlines_split(s: Seq<char>, a: nat, b: nat, c: nat)
    requires
        a <= b <= c <= s.len(),
    ensures
        newlines(s, a, c) == newlines(s, a, b) + newlines(s, b, c),
    decreases b - a,
{
    if a < b {
        lemma_newlines_split(s, a + 1, b, c);
    }
}

proof fn lemma_newlines_step(s: Seq<char>, p: nat)
    requires
        p < s.len(),
    ensures
        newlines(s, 0, p + 1) == newlines(s, 0, p) + (if s[p as int] == '\n' { 1nat } else { 0nat }),
{
    lemma_newlines_split(s, 0, p, p + 1);
    assert(newlines(s, p + 1, p + 1) == 0);
}

proof fn lemma_no_newlines(s: Seq<char>, p: nat, e: nat)
    requires
        p <= e <= s.len(),
        forall|i: int| p <= i < e ==> s[i] != '\n',
    ensures
        newlines(s, p, e) == 0,
    decreases e - p,
{
    if p < e {
        lemma_no_newlines(s, p + 1, e);
    }
}

proof fn lemma_digits_end(s: Seq<char>, p: nat)
    requires
        p <= s.len(),
    ensures
        p <= digits_end(s, p) <= s.len(),
        forall|i: int| p <= i < digits_end(s, p) ==> is_digit(s[i]),
    decreases s.len() - p,
{
    if p < s.len() && is_digit(s[p as int]) {
        lemma_digits_end(s, p + 1);
    }
}

proof fn lemma_word_end(s: Seq<char>, p: nat)
    requires
        p <= s.len(),
    ensures
        p <= word_end(s, p) <= s.len(),
        forall|i: int| p <= i < word_end(s, p) ==> is_alpha(s[i]) || is_digit(s[i]),
    decreases s.len() - p,
{
    if p < s.len() && (is_alpha(s[p as int]) || is_digit(s[p as int])) {
        lemma_word_end(s, p + 1);
    }
}

proof fn lemma_quote_end(s: Seq<char>, p: nat)
    requires
        p <= s.len(),
    ensures
        p <= quote_end(s, p) <= s.len(),
        quote_end(s, p) < s.len() ==> s[quote_end(s, p) as int] == '"',
    decreases s.len() - p,
{
    if p < s.len() && s[p as int] != '"' {
        lemma_quote_end(s, p + 1);
    }
}

/// Skipping blanks and comments keeps the line equal to one more than the
/// number of newlines passed, and stops at the end or at a character that
/// is no newline.
proof fn lemma_skip_ws_line(s: Seq<char>, p: nat, line: nat, in_comment: bool)
    requires
        p <= s.len(),
        line == 1 + newlines(s, 0, p),
    ensures
        p <= skip_ws(s, p, line, in_comment).0 <= s.len(),
        skip_ws(s, p, line, in_comment).1 == 1 + newlines(s, 0, skip_ws(s, p, line, in_comment).0),
        skip_ws(s, p, line, in_comment).0 < s.len() ==> s[skip_ws(s, p, line, in_comment).0 as int] != '\n',
    decreases s.len() - p, (if in_comment { 1int } else { 0int }),
{
    if p < s.len() {
        lemma_newlines_step(s, p);
    }
    if in_comment {
        if p >= s.len() || s[p as int] == '\n' {
            lemma_skip_ws_line(s, p, line, false);
        } else {
            lemma_skip_ws_line(s, p + 1, line, true);
        }
    } else if p >= s.len() {
    } else if s[p as int] == ' ' || s[p as int] == '\r' || s[p as int] == '\t' {
        lemma_skip_ws_line(s, p + 1, line, false);
    } else if s[p as int] == '\n' {
        lemma_skip_ws_line(s, p + 1, line + 1, false);
    } else if s[p as int] == '/' && char_at(s, p + 1int) == '/' {
        lemma_skip_ws_line(s, p + 1, line, true);
    }
}

/// Every token carries the line on which the lexer stands after it: one
/// more than the number of newlines before that place. A token that spans
/// no newline (all but string literals) thus carries the line it is on.
pub proof fn lemma_scan_line(s: Seq<char>, p: nat)
    requires
        p <= s.len(),
    ensures
        ({
            let (t, q, l) = scan(s, p, 1 + newlines(s, 0, p));
            &&& p <= q <= s.len()
            &&& l == 1 + newlines(s, 0, q)
            &&& t.2 == l
        }),
{
    let line = 1 + newlines(s, 0, p);
    lemma_skip_ws_line(s, p, line, false);
    let (q, l) = skip_ws(s, p, line, false);
    if q < s.len() {
        let c = s[q as int];
        if is_digit(c) {
            lemma_digits_end(s, q + 1);
            let d = digits_end(s, q + 1);
            if char_at(s, d as int) == '.' && is_digit(char_at(s, d + 1int)) {
                lemma_digits_end(s, d + 1);
            }
            let e = number_end(s, q + 1);
            lemma_no_newlines(s, q, e);
            lemma_newlines_split(s, 0, q, e);
        } else if is_alpha(c) {
            lemma_word_end(s, q + 1);
            let e = word_end(s, q + 1);
            lemma_no_newlines(s, q, e);
            lemma_newlines_split(s, 0, q, e);
        } else if single_kind(c) is Some {
            lemma_newlines_step(s, q);
        } else if pair_kinds(c) is Some {
            lemma_newlines_step(s, q);
            if char_at(s, q + 1int) == '=' {
                lemma_newlines_step(s, q + 1);
            }
        } else if c == '"' {
            lemma_quote_end(s, q + 1);
            let e = quote_end(s, q + 1);
            lemma_newlines_step(s, q);
            lemma_newlines_split(s, 0, q + 1, e);
            if e < s.len() {
                lemma_newlines_step(s, e);
            }
        } else {
            lemma_newlines_step(s, q);
        }
    }
}

/// A number literal whose integer part is `s[0..k]`: digits, then
/// optionally a dot and more digits.
pub open spec fn number_literal_with_integer_part(s: Seq<char>, k: nat) -> bool {
    &&& 0 < k <= s.len()
    &&& forall|i: int| 0 <= i < k ==> is_digit(s[i])
    &&& k == s.len() || (s[k as int] == '.' && k + 1 < s.len() && forall|i: int| k < i < s.len() ==> is_digit(s[i]))
}

proof fn lemma_digits_end_exact(s: Seq<char>, p: nat, k: nat)
    requires
        p <= k <= s.len(),
        forall|i: int| p <= i < k ==> is_digit(s[i]),
        k == s.len() || !is_digit(s[k as int]),
    ensures
        digits_end(s, p) == k,
    decreases k - p,
{
    if p < k {
        lemma_digits_end_exact(s, p + 1, k);
    }
}

/// A number literal alone scans as one `Number` token whose text is the
/// whole literal, so it reaches the compiler unchanged.
pub proof fn lemma_number_literal_scans_whole(s: Seq<char>, k: nat)
    requires
        number_literal_with_integer_part(s, k),
    ensures
        scan(s, 0, 1) == ((TokenType::Number, s, 1nat), s.len(), 1nat),
{
    assert(skip_ws(s, 0, 1, false) == (0nat, 1nat));
    lemma_digits_end_exact(s, 1, k);
    if k < s.len() {
        lemma_digits_end_exact(s, k + 1, s.len());
    }
    assert(s.subrange(0, s.len() as int) =~= s);
}

/// The tokens of `s` from position `p` on line `line`, up to and including
/// the end token.
pub open spec fn token_stream(s: Seq<char>, p: nat, line: nat) -> Seq<(TokenType, Seq<char>, nat)>
    decreases s.len() - p,
{
    let (t, q, l) = scan(s, p, line);
    if t.0 == TokenType::EndOfFile || !(p < q <= s.len()) {
        seq![t]
    } else {
        seq![t] + token_stream(s, q, l)
    }
}

/// The views of a list of tokens.
pub open spec fn token_views(ts: Seq<Token>) -> Seq<(TokenType, Seq<char>, nat)> {
    ts.map_values(|t: Token| t@)
}

/// The lexer's state: the source, a cursor, the start of the token being
/// scanned and the current line.
#[derive(Clone)]
pub struct Tokenizer {
    current: usize,
    start: usize,
    line: usize,
    source: String,
    chars: Vec<char>,
}

impl Tokenizer {
    /// The source text.
    pub closed spec fn source_chars(&self) -> Seq<char> {
        self.chars@
    }

    /// The cursor, as a character position.
    pub closed spec fn cursor(&self) -> nat {
        self.current as nat
    }

    /// The current line.
    pub closed spec fn current_line(&self) -> nat {
        self.line as nat
    }

    pub closed spec fn wf(&self) -> bool {
        &&& self.chars@ == self.source@
        &&& self.chars@.len() < usize::MAX
        &&& self.start <= self.current <= self.chars@.len()
        &&& self.line <= self.current + 1
    }

    pub fn new(source: &str) -> (r: Self)
        requires
            source@.len() < usize::MAX,
        ensures
            r.wf(),
            r.source_chars() == source@,
            r.cursor() == 0,
            r.current_line() == 1,
            r.source_chars().len() < usize::MAX,
    {
        let n = source.unicode_len();
        let mut chars: Vec<char> = Vec::new();
        let mut i: usize = 0;
        while i < n
            invariant
                n == source@.len(),
                i <= n,
                chars@ == source@.subrange(0, i as int),
            decreases n - i,
        {
            chars.push(source.get_char(i));
            i = i + 1;
            assert(chars@ =~= source@.subrange(0, i as int));
        }
        assert(chars@ =~= source@);
        Self { current: 0, start: 0, line: 1, source: String::from_str(source), chars }
    }

    fn is_at_end(&self) -> (r: bool)
        requires
            self.wf(),
        ensures
            r == (self.current >= self.chars@.len()),
    {
        self.current >= self.chars.len()
    }

    fn get_char(&self, idx: usize) -> (r: char)
        requires
            self.wf(),
        ensures
            r == char_at(self.chars@, idx as int),
    {
        if idx >= self.chars.len() {
            '\0'
        } else {
            self.chars[idx]
        }
    }

    fn make_token(&self, ty: TokenType) -> (r: Token)
        ensures
            r@ == (ty, Seq::<char>::empty(), self.line as nat),
    {
        Token::new_no_text(ty, self.line)
    }

    /// A token whose text is the source between `start` and `current`.
    fn make_token_text(&self, ty: TokenType) -> (r: Token)
        requires
            self.wf(),
        ensures
            r@ == (ty, self.chars@.subrange(self.start as int, self.current as int), self.line as nat),
    {
        let text = self.source.as_str().substring_char(self.start, self.current);
        Token::new(ty, String::from_str(text), self.line)
    }

    fn make_error(&self, message: String) -> (r: Token)
        ensures
            r@ == (TokenType::Error, message@, self.line as nat),
    {
        Token::new(TokenType::Error, message, self.line)
    }

    fn advance(&mut self) -> (r: char)
        requires
            old(self).wf(),
            old(self).current < old(self).chars@.len(),
        ensures
            final(self).wf(),
            final(self).current == old(self).current + 1,
            final(self).line == old(self).line,
            final(self).start == old(self).start,
            final(self).chars == old(self).chars,
            final(self).source == old(self).source,
            r == old(self).chars@[old(self).current as int],
    {
        self.current = self.current + 1;
        self.get_char(self.current - 1)
    }

    fn peek(&self) -> (r: char)
        requires
            self.wf(),
        ensures
            r == char_at(self.chars@, self.current as int),
    {
        self.get_char(self.current)
    }

    fn peek_next(&self) -> (r: char)
        requires
            self.wf(),
        ensures
            r == char_at(self.chars@, self.current + 1),
    {
        self.get_char(self.current + 1)
    }

    fn skip_whitespace(&mut self)
        requires
            old(self).wf(),
        ensures
            final(self).wf(),
            final(self).chars == old(self).chars,
            final(self).source == old(self).source,
            final(self).current >= old(self).current,
            (final(self).current as nat, final(self).line as nat) == skip_ws(
                old(self).chars@,
                old(self).current as nat,
                old(self).line as nat,
                false,
            ),
    {
        let ghost s = self.chars@;
        let ghost target = skip_ws(s, self.current as nat, self.line as nat, false);
        loop
            invariant
                self.wf(),
                self.chars@ == s,
                self.chars == old(self).chars,
                self.source == old(self).source,
                skip_ws(s, self.current as nat, self.line as nat, false) == target,
                target == skip_ws(old(self).chars@, old(self).current as nat, old(self).line as nat, false),
                self.current >= old(self).current,
            decreases s.len() - self.current,
        {
            let ghost iter_start = self.current;
            let character = self.peek();
            if self.is_at_end() {
                return;
            }
            if character == ' ' || character == '\r' || character == '\t' {
                self.advance();
            } else if character == '\n' {
                self.advance();
                self.line = self.line + 1;
            } else if character == '/' && self.peek_next() == '/' {
                self.advance();
                while !self.is_at_end() && self.peek() != '\n'
                    invariant
                        self.wf(),
                        self.chars@ == s,
                        self.chars == old(self).chars,
                        self.source == old(self).source,
                        skip_ws(s, self.current as nat, self.line as nat, true) == target,
                        target == skip_ws(old(self).chars@, old(self).current as nat, old(self).line as nat, false),
                        self.current > iter_start,
                        iter_start >= old(self).current,
                    decreases s.len() - self.current,
                {
                    self.advance();
                }
            } else {
                return;
            }
        }
    }

    fn match_char(&mut self, expected: char) -> (r: bool)
        requires
            old(self).wf(),
        ensures
            final(self).wf(),
            final(self).chars == old(self).chars,
            final(self).source == old(self).source,
            final(self).line == old(self).line,
            final(self).start == old(self).start,
            r == (old(self).current < old(self).chars@.len() && old(self).chars@[old(self).current as int] == expected),
            final(self).current == old(self).current + (if r { 1int } else { 0int }),
    {
        if self.is_at_end() {
            return false;
        }
        if self.chars[self.current] != expected {
            return false;
        }
        self.current = self.current + 1;
        true
    }

    /// Whether the text between `start` and `current` is `word`.
    fn word_is(&self, word: &str) -> (r: bool)
        requires
            self.wf(),
        ensures
            r == (self.chars@.subrange(self.start as int, self.current as int) == word@),
    {
        let ghost w = self.chars@.subrange(self.start as int, self.current as int);
        let n = word.unicode_len();
        if self.current - self.start != n {
            assert(w.len() != word@.len());
            return false;
        }
        let mut i: usize = 0;
        while i < n
            invariant
                self.wf(),
                w == self.chars@.subrange(self.start as int, self.current as int),
                n == word@.len(),
                n == self.current - self.start,
                i <= n,
                forall|j: int| 0 <= j < i ==> w[j] == word@[j],
            decreases n - i,
        {
            if self.chars[self.start + i] != word.get_char(i) {
                assert(w[i as int] != word@[i as int]);
                return false;
            }
            i = i + 1;
        }
        assert(w =~= word@);
        true
    }

    fn identifier_type(&self) -> (r: TokenType)
        requires
            self.wf(),
        ensures
            r == keyword_kind(self.chars@.subrange(self.start as int, self.current as int)),
    {
        proof {
            reveal_strlit("and");
            reveal_strlit("class");
            reveal_strlit("else");
            reveal_strlit("false");
            reveal_strlit("for");
            reveal_strlit("fun");
            reveal_strlit("if");
            reveal_strlit("nil");
            reveal_strlit("or");
            reveal_strlit("print");
            reveal_strlit("return");
            reveal_strlit("super");
            reveal_strlit("this");
            reveal_strlit("true");
            reveal_strlit("var");
            reveal_strlit("while");
            assert("and"@ =~= seq!['a', 'n', 'd']);
            assert("class"@ =~= seq!['c', 'l', 'a', 's', 's']);
            assert("else"@ =~= seq!['e', 'l', 's', 'e']);
            assert("false"@ =~= seq!['f', 'a', 'l', 's', 'e']);
            assert("for"@ =~= seq!['f', 'o', 'r']);
            assert("fun"@ =~= seq!['f', 'u', 'n']);
            assert("if"@ =~= seq!['i', 'f']);
            assert("nil"@ =~= seq!['n', 'i', 'l']);
            assert("or"@ =~= seq!['o', 'r']);
            assert("print"@ =~= seq!['p', 'r', 'i', 'n', 't']);
            assert("return"@ =~= seq!['r', 'e', 't', 'u', 'r', 'n']);
            assert("super"@ =~= seq!['s', 'u', 'p', 'e', 'r']);
            assert("this"@ =~= seq!['t', 'h', 'i', 's']);
            assert("true"@ =~= seq!['t', 'r', 'u', 'e']);
            assert("var"@ =~= seq!['v', 'a', 'r']);
            assert("while"@ =~= seq!['w', 'h', 'i', 'l', 'e']);
        }
        if self.word_is("and") { TokenType::And }
        else if self.word_is("class") { TokenType::Class }
        else if self.word_is("else") { TokenType::Else }
        else if self.word_is("false") { TokenType::False }
        else if self.word_is("for") { TokenType::For }
        else if self.word_is("fun") { TokenType::Fun }
        else if self.word_is("if") { TokenType::If }
        else if self.word_is("nil") { TokenType::Nil }
        else if self.word_is("or") { TokenType::Or }
        else if self.word_is("print") { TokenType::Print }
        else if self.word_is("return") { TokenType::Return }
        else if self.word_is("super") { TokenType::Super }
        else if self.word_is("this") { TokenType::This }
        else if self.word_is("true") { TokenType::True }
        else if self.word_is("var") { TokenType::Var }
        else if self.word_is("while") { TokenType::While }
        else { TokenType::Ident }
    }

    fn is_alpha(c: char) -> (r: bool)
        ensures
            r == is_alpha(c),
    {
        (c >= 'a' && c <= 'z') || (c >= 'A' && c <= 'Z') || c == '_'
    }

    fn is_digit(c: char) -> (r: bool)
        ensures
            r == is_digit(c),
    {
        c >= '0' && c <= '9'
    }

    /// Scans the rest of a string literal whose opening quote was just read.
    fn string(&mut self) -> (r: Token)
        requires
            old(self).wf(),
            old(self).current == old(self).start + 1,
            old(self).chars@[old(self).start as int] == '"',
        ensures
            final(self).wf(),
            final(self).chars == old(self).chars,
            final(self).source == old(self).source,
            ({
                let (t, e, l) = lex_at(old(self).chars@, old(self).start as nat, old(self).line as nat);
                r@ == t && final(self).current == e && final(self).line == l
            }),
            final(self).current > old(self).start,
    {
        let ghost s = self.chars@;
        let ghost p = self.start as nat;
        let ghost e = quote_end(s, p + 1);
        let ghost l = self.line + newlines(s, p + 1, e);
        proof {
            lemma_quote_end_bound(s, p + 1);
        }
        while self.peek() != '"' && !self.is_at_end()
            invariant
                self.wf(),
                self.chars@ == s,
                self.chars == old(self).chars,
                self.source == old(self).source,
                self.start == p,
                self.current > p,
                quote_end(s, self.current as nat) == e,
                self.current <= e,
                self.line + newlines(s, self.current as nat, e) == l,
            decreases s.len() - self.current,
        {
            proof {
                lemma_quote_end_bound(s, self.current as nat + 1);
            }
            let c = self.advance();
            if c == '\n' {
                self.line = self.line + 1;
            }
        }
        if self.is_at_end() {
            return self.make_error(String::from_str("Unterminated string"));
        }
        self.advance();
        let text = self.source.as_str().substring_char(self.start + 1, self.current - 1);
        Token::new(TokenType::String, String::from_str(text), self.line)
    }

    /// Scans the next token; past the end of the source, `EndOfFile` each time.
    pub fn scan_token(&mut self) -> (r: Token)
        requires
            old(self).wf(),
        ensures
            final(self).wf(),
            final(self).source_chars() == old(self).source_chars(),
            ({
                let (t, p, l) = scan(old(self).source_chars(), old(self).cursor(), old(self).current_line());
                r@ == t && final(self).cursor() == p && final(self).current_line() == l
            }),
            final(self).cursor() <= final(self).source_chars().len(),
            r.ty != TokenType::EndOfFile ==> final(self).cursor() > old(self).cursor(),
            r.ty == TokenType::EndOfFile ==> final(self).cursor() == final(self).source_chars().len(),
    {
        let ghost s = self.chars@;
        self.skip_whitespace();
        self.start = self.current;
        if self.is_at_end() {
            return self.make_token(TokenType::EndOfFile);
        }
        let ghost p = self.start as nat;
        let ghost l0 = self.line;
        let character = self.advance();
        if Self::is_digit(character) {
            let ghost q = digits_end(s, p + 1);
            while Self::is_digit(self.peek())
                invariant
                    self.wf(),
                    self.chars@ == s,
                    self.chars == old(self).chars,
                    self.source == old(self).source,
                    self.start == p,
                    self.current > p,
                    self.line == l0,
                    digits_end(s, self.current as nat) == q,
                decreases s.len() - self.current,
            {
                self.advance();
            }
            if self.peek() == '.' && Self::is_digit(self.peek_next()) {
                self.advance();
                let ghost q2 = digits_end(s, q + 1);
                while Self::is_digit(self.peek())
                    invariant
                        self.wf(),
                        self.chars@ == s,
                        self.chars == old(self).chars,
                        self.source == old(self).source,
                        self.start == p,
                        self.current > p,
                        self.line == l0,
                        digits_end(s, self.current as nat) == q2,
                    decreases s.len() - self.current,
                {
                    self.advance();
                }
            }
            return self.make_token_text(TokenType::Number);
        }
        if Self::is_alpha(character) {
            let ghost q = word_end(s, p + 1);
            while Self::is_alpha(self.peek()) || Self::is_digit(self.peek())
                invariant
                    self.wf(),
                    self.chars@ == s,
                    self.chars == old(self).chars,
                    self.source == old(self).source,
                    self.start == p,
                    self.current > p,
                    self.line == l0,
                    word_end(s, self.current as nat) == q,
                decreases s.len() - self.current,
            {
                self.advance();
            }
            let ty = self.identifier_type();
            if ty == TokenType::Ident {
                return self.make_token_text(ty);
            }
            return self.make_token(ty);
        }
        match character {
            '(' => self.make_token(TokenType::LParen),
            ')' => self.make_token(TokenType::RParen),
            '{' => self.make_token(TokenType::LBrace),
            '}' => self.make_token(TokenType::RBrace),
            '+' => self.make_token(TokenType::Plus),
            '-' => self.make_token(TokenType::Minus),
            '*' => self.make_token(TokenType::Asterisk),
            '/' => self.make_token(TokenType::Slash),
            ';' => self.make_token(TokenType::Semicolon),
            ',' => self.make_token(TokenType::Coma),
            '.' => self.make_token(TokenType::Dot),
            '!' => if self.match_char('=') {
                self.make_token(TokenType::BangEq)
            } else {
                self.make_token(TokenType::Bang)
            },
            '=' => if self.match_char('=') {
                self.make_token(TokenType::EqEq)
            } else {
                self.make_token(TokenType::Eq)
            },
            '<' => if self.match_char('=') {
                self.make_token(TokenType::LessEq)
            } else {
                self.make_token(TokenType::Less)
            },
            '>' => if self.match_char('=') {
                self.make_token(TokenType::GreaterEq)
            } else {
                self.make_token(TokenType::Greater)
            },
            '"' => self.string(),
            _ => {
                let mut message = String::from_str("Unexpected character '");
                let piece = self.source.as_str().substring_char(self.start, self.current);
                assert(piece@ =~= seq![character]);
                message.append(piece);
                message.append("'");
                self.make_error(message)
            },
        }
    }

    /// Scans the rest of the source: every token up to and including the
    /// end token. What comes out depends on the source, cursor and line alone.
    pub fn scan_all(&mut self) -> (r: Vec<Token>)
        requires
            old(self).wf(),
        ensures
            final(self).wf(),
            token_views(r@) == token_stream(old(self).source_chars(), old(self).cursor(), old(self).current_line()),
    {
        let ghost s = self.source_chars();
        let ghost target = token_stream(s, self.cursor(), self.current_line());
        let mut out: Vec<Token> = Vec::new();
        loop
            invariant
                self.wf(),
                self.source_chars() == s,
                target == token_stream(old(self).source_chars(), old(self).cursor(), old(self).current_line()),
                token_views(out@) + token_stream(s, self.cursor(), self.current_line()) == target,
            decreases s.len() - self.cursor(),
        {
            let ghost before = out@;
            let ghost rest = token_stream(s, self.cursor(), self.current_line());
            let t = self.scan_token();
            let end = t.ty == TokenType::EndOfFile;
            out.push(t);
            proof {
                assert(token_views(out@) =~= token_views(before).push(out@.last()@));
                if end {
                    assert(rest =~= seq![out@.last()@]);
                    assert(token_views(out@) =~= token_views(before) + rest);
                } else {
                    assert(rest =~= seq![out@.last()@] + token_stream(s, self.cursor(), self.current_line()));
                    assert(token_views(out@) + token_stream(s, self.cursor(), self.current_line()) =~= token_views(before)
                        + rest);
                }
            }
            if end {
                return out;
            }
        }
    }
}

} // verus!
