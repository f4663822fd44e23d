//! Lexical scanner: turns source text into a stream of classified tokens,
//! with precise line/column tracking.

use vstd::prelude::*;
use vstd::string::*;

verus! {

/// An ASCII decimal digit.
pub open spec fn spec_is_digit(c: char) -> bool {
    ('0' as u32) <= (c as u32) && (c as u32) <= ('9' as u32)
}

pub fn is_digit(c: char) -> (r: bool)
    ensures
        r == spec_is_digit(c),
{
    let n: u32 = c as u32;
    ('0' as u32) <= n && n <= ('9' as u32)
}

/// An ASCII letter or underscore: what may start an identifier.
pub open spec fn spec_is_alpha(c: char) -> bool {
    (('A' as u32) <= (c as u32) && (c as u32) <= ('Z' as u32)) || (('a' as u32) <= (c as u32) && (
    c as u32) <= ('z' as u32)) || c == '_'
}

pub fn is_alpha(c: char) -> (r: bool)
    ensures
        r == spec_is_alpha(c),
{
    let n: u32 = c as u32;
    (('A' as u32) <= n && n <= ('Z' as u32)) || (('a' as u32) <= n && n <= ('z' as u32)) || c == '_'
}

/// A character that may continue an identifier.
pub open spec fn spec_is_alphanumeric(c: char) -> bool {
    spec_is_digit(c) || spec_is_alpha(c)
}

pub fn is_alphanumeric(c: char) -> (r: bool)
    ensures
        r == spec_is_alphanumeric(c),
{
    is_digit(c) || is_alpha(c)
}

/// The whitespace the scanner skips: space, tab, newline, carriage return.
pub open spec fn spec_is_whitespace(c: char) -> bool {
    c == ' ' || c == '\t' || c == '\n' || c == '\r'
}

pub fn is_whitespace(c: char) -> (r: bool)
    ensures
        r == spec_is_whitespace(c),
{
    c == ' ' || c == '\t' || c == '\n' || c == '\r'
}

/// A position in the source file (line:column), both 1-based.
#[derive(PartialEq, Eq, Structural, Clone, Copy, Debug, Hash, Ord)]
pub struct Position {
    pub line: usize,
    pub column: usize,
}

/// Lexicographic order on positions: first by line, then by column.
pub open spec fn spec_position_lt(a: Position, b: Position) -> bool {
    a.line < b.line || (a.line == b.line && a.column < b.column)
}

impl Position {
    /// The initial position, before any character has been consumed.
    pub fn init() -> (r: Self)
        ensures
            r.line == 1 && r.column == 1,
    {
        Position { line: 1, column: 1 }
    }

    pub fn new(line: usize, column: usize) -> (r: Self)
        ensures
            r.line == line && r.column == column,
    {
        Position { line, column }
    }

    /// Advance past an ordinary (non-newline) character.
    pub fn next_column(&mut self)
        requires
            old(self).column < usize::MAX,
        ensures
            final(self).line == old(self).line,
            final(self).column == old(self).column + 1,
    {
        self.column += 1;
    }

    /// Advance past a newline: next line, column reset to 1.
    pub fn next_line(&mut self)
        requires
            old(self).line < usize::MAX,
        ensures
            final(self).line == old(self).line + 1,
            final(self).column == 1,
    {
        self.line += 1;
        self.column = 1;
    }
}

impl PartialOrd for Position {
    /// Total order by (line, column).
    fn partial_cmp(&self, other: &Position) -> (r: Option<core::cmp::Ordering>) {
        if self.line < other.line {
            Some(core::cmp::Ordering::Less)
        } else if self.line > other.line {
            Some(core::cmp::Ordering::Greater)
        } else if self.column < other.column {
            Some(core::cmp::Ordering::Less)
        } else if self.column > other.column {
            Some(core::cmp::Ordering::Greater)
        } else {
            Some(core::cmp::Ordering::Equal)
        }
    }
}

impl vstd::std_specs::cmp::PartialOrdSpecImpl for Position {
    open spec fn obeys_partial_cmp_spec() -> bool {
        true
    }

    open spec fn partial_cmp_spec(&self, other: &Position) -> Option<core::cmp::Ordering> {
        if spec_position_lt(*self, *other) {
            Some(core::cmp::Ordering::Less)
        } else if spec_position_lt(*other, *self) {
            Some(core::cmp::Ordering::Greater)
        } else {
            Some(core::cmp::Ordering::Equal)
        }
    }
}

impl Default for Position {
    fn default() -> (r: Self)
        ensures
            r.line == 1 && r.column == 1,
    {
        Position::init()
    }
}

/// The line of the position reached after consuming `src[..i]`: one more than
/// the number of newlines consumed.
pub open spec fn spec_line(src: Seq<char>, i: int) -> int
    decreases i,
{
    if i <= 0 {
        1
    } else if src[i - 1] == '\n' {
        spec_line(src, i - 1) + 1
    } else {
        spec_line(src, i - 1)
    }
}

/// The column of the position reached after consuming `src[..i]`: a newline
/// resets it to 1, any other character advances it by one.
pub open spec fn spec_column(src: Seq<char>, i: int) -> int
    decreases i,
{
    if i <= 0 {
        1
    } else if src[i - 1] == '\n' {
        1
    } else {
        spec_column(src, i - 1) + 1
    }
}

pub proof fn lemma_position_bounds(src: Seq<char>, i: int)
    requires
        0 <= i,
    ensures
        1 <= spec_line(src, i) <= i + 1,
        1 <= spec_column(src, i) <= i + 1,
    decreases i,
{
    if i > 0 {
        lemma_position_bounds(src, i - 1);
    }
}

/// Consuming at least one character strictly increases the position, in the
/// lexicographic (line, column) order.
pub proof fn lemma_position_strictly_increases(src: Seq<char>, i: int, j: int)
    requires
        0 <= i < j,
    ensures
        spec_line(src, i) < spec_line(src, j) || (spec_line(src, i) == spec_line(src, j)
            && spec_column(src, i) < spec_column(src, j)),
    decreases j,
{
    if i < j - 1 {
        lemma_position_strictly_increases(src, i, j - 1);
    }
}

/// The end of the maximal run of characters satisfying `p` that starts at `i`:
/// the first index at or after `i` whose character fails `p`, or the end of
/// the source.
pub open spec fn spec_run_end(src: Seq<char>, i: int, p: spec_fn(char) -> bool) -> int
    decreases src.len() - i,
{
    if 0 <= i < src.len() && p(src[i]) {
        spec_run_end(src, i + 1, p)
    } else {
        i
    }
}

pub proof fn lemma_run_end(src: Seq<char>, i: int, p: spec_fn(char) -> bool)
    requires
        0 <= i <= src.len(),
    ensures
        i <= spec_run_end(src, i, p) <= src.len(),
        forall|k: int| i <= k < spec_run_end(src, i, p) ==> p(#[trigger] src[k]),
        spec_run_end(src, i, p) < src.len() ==> !p(src[spec_run_end(src, i, p)]),
    decreases src.len() - i,
{
    if i < src.len() && p(src[i]) {
        lemma_run_end(src, i + 1, p);
    }
}

/// The closed set of token classifications. Lexical errors are ordinary
/// kinds: the scanner reports problems in-band and never aborts.
#[derive(PartialEq, Eq, Structural, Clone, Copy, Debug)]
pub enum TokenKind {
    // Single-character tokens.
    LeftParen,
    RightParen,
    LeftBrace,
    RightBrace,
    Comma,
    Dot,
    Minus,
    Plus,
    Semicolon,
    Slash,
    Star,
    // One or two characters.
    Bang,
    BangEqual,
    Equal,
    EqualEqual,
    Greater,
    GreaterEqual,
    Less,
    LessEqual,
    // Literals.
    Identifier,
    String,
    Number,
    // Keywords.
    And,
    Class,
    Else,
    False,
    For,
    Fun,
    If,
    Nil,
    Or,
    Print,
    Return,
    Super,
    This,
    True,
    Var,
    While,
    // Others.
    Comment,
    UnterminatedStringError,
    UnexpectedCharacterError,
}

/// One token: its classification, the exact source substring it matched, and
/// the position of its first character.
#[derive(PartialEq, Eq, Clone, Debug)]
pub struct Token {
    pub kind: TokenKind,
    pub lexeme: String,
    pub position: Position,
}

impl Token {
    pub fn new(kind: TokenKind, lexeme: &str, position: Position) -> (r: Self)
        ensures
            r.kind == kind,
            r.lexeme@ == lexeme@,
            r.position == position,
    {
        Token { kind, lexeme: lexeme.to_owned(), position }
    }
}

/// Exact-match classification of an identifier lexeme against the fixed
/// keyword table; anything else is an ordinary identifier.
pub open spec fn spec_keyword(s: Seq<char>) -> TokenKind {
    if s == "and"@ {
        TokenKind::And
    } else if s == "class"@ {
        TokenKind::Class
    } else if s == "else"@ {
        TokenKind::Else
    } else if s == "false"@ {
        TokenKind::False
    } else if s == "for"@ {
        TokenKind::For
    } else if s == "fun"@ {
        TokenKind::Fun
    } else if s == "if"@ {
        TokenKind::If
    } else if s == "nil"@ {
        TokenKind::Nil
    } else if s == "or"@ {
        TokenKind::Or
    } else if s == "print"@ {
        TokenKind::Print
    } else if s == "return"@ {
        TokenKind::Return
    } else if s == "super"@ {
        TokenKind::Super
    } else if s == "this"@ {
        TokenKind::This
    } else if s == "true"@ {
        TokenKind::True
    } else if s == "var"@ {
        TokenKind::Var
    } else if s == "while"@ {
        TokenKind::While
    } else {
        TokenKind::Identifier
    }
}

/// The character class predicates, as values, so that contracts and code
/// agree on one function object per class.
pub open spec fn whitespace_pred() -> spec_fn(char) -> bool {
    |c: char| spec_is_whitespace(c)
}

pub open spec fn digit_pred() -> spec_fn(char) -> bool {
    |c: char| spec_is_digit(c)
}

pub open spec fn alphanumeric_pred() -> spec_fn(char) -> bool {
    |c: char| spec_is_alphanumeric(c)
}

/// What a line comment runs over: everything up to a newline or the end.
pub open spec fn not_newline_pred() -> spec_fn(char) -> bool {
    |c: char| c != '\n'
}

/// What a string literal body runs over: everything up to a closing quote, a
/// newline, or the end.
pub open spec fn string_body_pred() -> spec_fn(char) -> bool {
    |c: char| c != '"' && c != '\n'
}

/// The classification and end index of the token that starts at `start`.
/// `start` must address a character (the scanner has already skipped
/// whitespace, so in context that character is never whitespace).
pub open spec fn spec_scan_token(src: Seq<char>, start: int) -> (TokenKind, int)
    recommends
        0 <= start < src.len(),
{
    let c = src[start];
    let one = start + 1;
    if c == '(' {
        (TokenKind::LeftParen, one)
    } else if c == ')' {
        (TokenKind::RightParen, one)
    } else if c == '{' {
        (TokenKind::LeftBrace, one)
    } else if c == '}' {
        (TokenKind::RightBrace, one)
    } else if c == ';' {
        (TokenKind::Semicolon, one)
    } else if c == ',' {
        (TokenKind::Comma, one)
    } else if c == '.' {
        (TokenKind::Dot, one)
    } else if c == '+' {
        (TokenKind::Plus, one)
    } else if c == '-' {
        (TokenKind::Minus, one)
    } else if c == '*' {
        (TokenKind::Star, one)
    } else if c == '/' {
        if one < src.len() && src[one] == '/' {
            (TokenKind::Comment, spec_run_end(src, one + 1, not_newline_pred()))
        } else {
            (TokenKind::Slash, one)
        }
    } else if c == '!' {
        if one < src.len() && src[one] == '=' {
            (TokenKind::BangEqual, one + 1)
        } else {
            (TokenKind::Bang, one)
        }
    } else if c == '=' {
        if one < src.len() && src[one] == '=' {
            (TokenKind::EqualEqual, one + 1)
        } else {
            (TokenKind::Equal, one)
        }
    } else if c == '<' {
        if one < src.len() && src[one] == '=' {
            (TokenKind::LessEqual, one + 1)
        } else {
            (TokenKind::Less, one)
        }
    } else if c == '>' {
        if one < src.len() && src[one] == '=' {
            (TokenKind::GreaterEqual, one + 1)
        } else {
            (TokenKind::Greater, one)
        }
    } else if c == '"' {
        let e = spec_run_end(src, one, string_body_pred());
        if e < src.len() && src[e] == '"' {
            (TokenKind::String, e + 1)
        } else {
            (TokenKind::UnterminatedStringError, e)
        }
    } else if spec_is_digit(c) {
        let e = spec_run_end(src, one, digit_pred());
        if e + 1 < src.len() && src[e] == '.' && spec_is_digit(src[e + 1]) {
            (TokenKind::Number, spec_run_end(src, e + 1, digit_pred()))
        } else {
            (TokenKind::Number, e)
        }
    } else if spec_is_alpha(c) {
        let e = spec_run_end(src, one, alphanumeric_pred());
        (spec_keyword(src.subrange(start, e)), e)
    } else {
        (TokenKind::UnexpectedCharacterError, one)
    }
}

/// Every token consumes at least its first character and stays within the
/// source.
pub proof fn lemma_scan_token_bounds(src: Seq<char>, start: int)
    requires
        0 <= start < src.len(),
    ensures
        start < spec_scan_token(src, start).1 <= src.len(),
{
    let one = start + 1;
    lemma_run_end(src, one, not_newline_pred());
    lemma_run_end(src, one, string_body_pred());
    lemma_run_end(src, one, digit_pred());
    lemma_run_end(src, one, alphanumeric_pred());
    let e = spec_run_end(src, one, digit_pred());
    if e + 1 < src.len() {
        lemma_run_end(src, e + 1, digit_pred());
    }
}

/// The scanner: an explicit cursor over the source text, with bounded
/// lookahead and precise position tracking. It owns its copy of the source;
/// lexemes are handed out as owned substrings.
#[derive(Clone, Debug)]
pub struct Scanner {
    source: String,
    length: usize,
    current: usize,
    position: Position,
}

impl Scanner {
    /// The scanned source text, as a sequence of characters.
    pub closed spec fn src(&self) -> Seq<char> {
        self.source@
    }

    /// The index of the next character to consume.
    pub closed spec fn cursor(&self) -> int {
        self.current as int
    }

    /// The position of the next character to consume.
    pub closed spec fn pos(&self) -> Position {
        self.position
    }

    /// The cursor stays within the source and the position always describes
    /// exactly the prefix consumed so far.
    pub closed spec fn wf(&self) -> bool {
        &&& self.length == self.source@.len()
        &&& self.current <= self.length
        &&& self.source@.len() < usize::MAX
        &&& self.position.line == spec_line(self.source@, self.current as int)
        &&& self.position.column == spec_column(self.source@, self.current as int)
    }

    /// Start a scanner over the source text, of which it keeps its own copy.
    /// The cursor sits before the first character, at position (1,1).
    pub fn init(source: &str) -> (r: Self)
        requires
            source@.len() < usize::MAX,
        ensures
            r.wf(),
            r.src() == source@,
            r.cursor() == 0,
            r.pos().line == 1,
            r.pos().column == 1,
    {
        let length: usize = source.unicode_len();
        Scanner { source: source.to_owned(), length, current: 0, position: Position::init() }
    }

    /// Consume one character, if any remains, updating the position.
    fn advance(&mut self) -> (r: Option<char>)
        requires
            old(self).wf(),
        ensures
            final(self).wf(),
            final(self).src() == old(self).src(),
            if old(self).cursor() < old(self).src().len() {
                r == Some(old(self).src()[old(self).cursor()]) && final(self).cursor() == old(
                    self,
                ).cursor() + 1
            } else {
                r is None && *final(self) == *old(self)
            },
    {
        if self.current < self.length {
            let ch = self.source.as_str().get_char(self.current);
            proof {
                lemma_position_bounds(self.source@, self.current as int);
            }
            self.current = self.current + 1;
            if ch == '\n' {
                self.position.next_line();
            } else {
                self.position.next_column();
            }
            Some(ch)
        } else {
            None
        }
    }

    /// Non-destructive single-character lookahead, classified by `predicate`.
    fn is_next_char<P: Fn(char) -> bool>(
        &self,
        predicate: &P,
        Ghost(p): Ghost<spec_fn(char) -> bool>,
    ) -> (r: bool)
        requires
            self.wf(),
            forall|c: char| call_requires(*predicate, (c,)),
            forall|c: char, b: bool| call_ensures(*predicate, (c,), b) ==> b == p(c),
        ensures
            r == (self.cursor() < self.src().len() && p(self.src()[self.cursor()])),
    {
        if self.current < self.length {
            let ch = self.source.as_str().get_char(self.current);
            (*predicate)(ch)
        } else {
            false
        }
    }

    /// Non-destructive two-character lookahead.
    fn is_next_two_chars<P1: Fn(char) -> bool, P2: Fn(char) -> bool>(
        &self,
        predicate1: &P1,
        predicate2: &P2,
        Ghost(p1): Ghost<spec_fn(char) -> bool>,
        Ghost(p2): Ghost<spec_fn(char) -> bool>,
    ) -> (r: bool)
        requires
            self.wf(),
            forall|c: char| call_requires(*predicate1, (c,)),
            forall|c: char, b: bool| call_ensures(*predicate1, (c,), b) ==> b == p1(c),
            forall|c: char| call_requires(*predicate2, (c,)),
            forall|c: char, b: bool| call_ensures(*predicate2, (c,), b) ==> b == p2(c),
        ensures
            r == (self.cursor() + 1 < self.src().len() && p1(self.src()[self.cursor()]) && p2(
                self.src()[self.cursor() + 1],
            )),
    {
        if self.current + 1 < self.length {
            let ch1 = self.source.as_str().get_char(self.current);
            let ch2 = self.source.as_str().get_char(self.current + 1);
            (*predicate1)(ch1) && (*predicate2)(ch2)
        } else {
            false
        }
    }

    /// Consume the next character exactly when it satisfies `predicate`.
    fn chomp_if<P: Fn(char) -> bool>(
        &mut self,
        predicate: &P,
        Ghost(p): Ghost<spec_fn(char) -> bool>,
    ) -> (r: bool)
        requires
            old(self).wf(),
            forall|c: char| call_requires(*predicate, (c,)),
            forall|c: char, b: bool| call_ensures(*predicate, (c,), b) ==> b == p(c),
        ensures
            final(self).wf(),
            final(self).src() == old(self).src(),
            r == (old(self).cursor() < old(self).src().len() && p(
                old(self).src()[old(self).cursor()],
            )),
            final(self).cursor() == if r {
                old(self).cursor() + 1
            } else {
                old(self).cursor()
            },
    {
        if self.is_next_char(predicate, Ghost(p)) {
            self.advance();
            true
        } else {
            false
        }
    }

    /// Consume the next character exactly when it equals `expected`.
    fn chomp_char(&mut self, expected: char) -> (r: bool)
        requires
            old(self).wf(),
        ensures
            final(self).wf(),
            final(self).src() == old(self).src(),
            r == (old(self).cursor() < old(self).src().len() && old(self).src()[old(
                self,
            ).cursor()] == expected),
            final(self).cursor() == if r {
                old(self).cursor() + 1
            } else {
                old(self).cursor()
            },
    {
        self.chomp_if(
            &(|ch: char| -> (b: bool)
                ensures
                    b == (ch == expected),
                { ch == expected }),
            Ghost(|ch: char| ch == expected),
        )
    }

    /// Consume the maximal run of characters satisfying `predicate`.
    fn chomp_while<P: Fn(char) -> bool>(
        &mut self,
        predicate: &P,
        Ghost(p): Ghost<spec_fn(char) -> bool>,
    )
        requires
            old(self).wf(),
            forall|c: char| call_requires(*predicate, (c,)),
            forall|c: char, b: bool| call_ensures(*predicate, (c,), b) ==> b == p(c),
        ensures
            final(self).wf(),
            final(self).src() == old(self).src(),
            final(self).cursor() == spec_run_end(old(self).src(), old(self).cursor(), p),
    {
        loop
            invariant
                self.wf(),
                self.src() == old(self).src(),
                forall|c: char| call_requires(*predicate, (c,)),
                forall|c: char, b: bool| call_ensures(*predicate, (c,), b) ==> b == p(c),
                spec_run_end(self.src(), self.cursor(), p) == spec_run_end(
                    old(self).src(),
                    old(self).cursor(),
                    p,
                ),
            ensures
                self.wf(),
                self.src() == old(self).src(),
                spec_run_end(self.src(), self.cursor(), p) == spec_run_end(
                    old(self).src(),
                    old(self).cursor(),
                    p,
                ),
                !(self.cursor() < self.src().len() && p(self.src()[self.cursor()])),
            decreases self.src().len() - self.cursor(),
        {
            if !self.is_next_char(predicate, Ghost(p)) {
                break ;
            }
            self.advance();
        }
    }

    /// Scan the rest of a number literal, the first digit already consumed: a
    /// maximal digit run, then one optional fraction `.` followed by at least
    /// one digit (the dot is consumed only when a digit confirms it).
    fn number(&mut self) -> (r: TokenKind)
        requires
            old(self).wf(),
        ensures
            final(self).wf(),
            final(self).src() == old(self).src(),
            r == TokenKind::Number,
            final(self).cursor() == ({
                let src = old(self).src();
                let e = spec_run_end(src, old(self).cursor(), digit_pred());
                if e + 1 < src.len() && src[e] == '.' && spec_is_digit(src[e + 1]) {
                    spec_run_end(src, e + 1, digit_pred())
                } else {
                    e
                }
            }),
    {
        let digit = |c: char| -> (b: bool)
            ensures
                b == spec_is_digit(c),
            { is_digit(c) };
        self.chomp_while(&digit, Ghost(digit_pred()));
        if self.is_next_two_chars(
            &(|c: char| -> (b: bool)
                ensures
                    b == (c == '.'),
                { c == '.' }),
            &digit,
            Ghost(|c: char| c == '.'),
            Ghost(digit_pred()),
        ) {
            self.advance();
            self.chomp_while(&digit, Ghost(digit_pred()));
        }
        TokenKind::Number
    }

    /// Scan the rest of a string literal, the opening quote already consumed:
    /// up to the closing quote on the same line, or an in-band error token
    /// when the line or the source ends first.
    fn string(&mut self) -> (r: TokenKind)
        requires
            old(self).wf(),
        ensures
            final(self).wf(),
            final(self).src() == old(self).src(),
            ({
                let src = old(self).src();
                let e = spec_run_end(src, old(self).cursor(), string_body_pred());
                if e < src.len() && src[e] == '"' {
                    r == TokenKind::String && final(self).cursor() == e + 1
                } else {
                    r == TokenKind::UnterminatedStringError && final(self).cursor() == e
                }
            }),
    {
        self.chomp_while(
            &(|c: char| -> (b: bool)
                ensures
                    b == (c != '"' && c != '\n'),
                { c != '"' && c != '\n' }),
            Ghost(string_body_pred()),
        );
        if self.chomp_char('"') {
            TokenKind::String
        } else {
            TokenKind::UnterminatedStringError
        }
    }

    /// Scan the rest of an identifier whose first character sits at `start`,
    /// then classify the whole lexeme against the keyword table.
    fn identifier(&mut self, start: usize) -> (r: TokenKind)
        requires
            old(self).wf(),
            start <= old(self).cursor(),
        ensures
            final(self).wf(),
            final(self).src() == old(self).src(),
            final(self).cursor() == spec_run_end(old(self).src(), old(self).cursor(), alphanumeric_pred()),
            r == spec_keyword(old(self).src().subrange(start as int, final(self).cursor())),
    {
        self.chomp_while(
            &(|c: char| -> (b: bool)
                ensures
                    b == spec_is_alphanumeric(c),
                { is_alphanumeric(c) }),
            Ghost(alphanumeric_pred()),
        );
        proof {
            lemma_run_end(old(self).src(), old(self).cursor(), alphanumeric_pred());
        }
        let lexeme: &str = self.source.as_str().substring_char(start, self.current);
        if str_eq(lexeme, "and") {
            TokenKind::And
        } else if str_eq(lexeme, "class") {
            TokenKind::Class
        } else if str_eq(lexeme, "else") {
            TokenKind::Else
        } else if str_eq(lexeme, "false") {
            TokenKind::False
        } else if str_eq(lexeme, "for") {
            TokenKind::For
        } else if str_eq(lexeme, "fun") {
            TokenKind::Fun
        } else if str_eq(lexeme, "if") {
            TokenKind::If
        } else if str_eq(lexeme, "nil") {
            TokenKind::Nil
        } else if str_eq(lexeme, "or") {
            TokenKind::Or
        } else if str_eq(lexeme, "print") {
            TokenKind::Print
        } else if str_eq(lexeme, "return") {
            TokenKind::Return
        } else if str_eq(lexeme, "super") {
            TokenKind::Super
        } else if str_eq(lexeme, "this") {
            TokenKind::This
        } else if str_eq(lexeme, "true") {
            TokenKind::True
        } else if str_eq(lexeme, "var") {
            TokenKind::Var
        } else if str_eq(lexeme, "while") {
            TokenKind::While
        } else {
            TokenKind::Identifier
        }
    }

    /// Produce the next token, or the end-of-input signal, which repeats on
    /// every later call. Whitespace before the token is skipped (and tracked
    /// by the position); the token's lexeme is the exact source slice
    /// consumed for it, error tokens included.
    pub fn next_token(&mut self) -> (r: Option<Token>)
        requires
            old(self).wf(),
        ensures
            final(self).wf(),
            final(self).src() == old(self).src(),
            ({
                let src = old(self).src();
                let ws = spec_run_end(src, old(self).cursor(), whitespace_pred());
                if ws >= src.len() {
                    r is None && final(self).cursor() == src.len()
                } else {
                    r matches Some(t) && t.kind == spec_scan_token(src, ws).0 && t.lexeme@
                        == src.subrange(ws, spec_scan_token(src, ws).1) && t.position.line
                        == spec_line(src, ws) && t.position.column == spec_column(src, ws)
                        && final(self).cursor() == spec_scan_token(src, ws).1
                }
            }),
    {
        self.chomp_while(
            &(|c: char| -> (b: bool)
                ensures
                    b == spec_is_whitespace(c),
                { is_whitespace(c) }),
            Ghost(whitespace_pred()),
        );
        let ghost src = self.src();
        let ghost ws = self.cursor();
        proof {
            lemma_run_end(old(self).src(), old(self).cursor(), whitespace_pred());
        }
        let start = self.current;
        let position = self.position;
        let next_char = match self.advance() {
            Some(c) => c,
            None => {
                return None;
            },
        };
        let kind = match next_char {
            '(' => TokenKind::LeftParen,
            ')' => TokenKind::RightParen,
            '{' => TokenKind::LeftBrace,
            '}' => TokenKind::RightBrace,
            ';' => TokenKind::Semicolon,
            ',' => TokenKind::Comma,
            '.' => TokenKind::Dot,
            '+' => TokenKind::Plus,
            '-' => TokenKind::Minus,
            '*' => TokenKind::Star,
            '/' => {
                if self.chomp_char('/') {
                    self.chomp_while(
                        &(|c: char| -> (b: bool)
                            ensures
                                b == (c != '\n'),
                            { c != '\n' }),
                        Ghost(not_newline_pred()),
                    );
                    TokenKind::Comment
                } else {
                    TokenKind::Slash
                }
            },
            '!' => {
                if self.chomp_char('=') {
                    TokenKind::BangEqual
                } else {
                    TokenKind::Bang
                }
            },
            '=' => {
                if self.chomp_char('=') {
                    TokenKind::EqualEqual
                } else {
                    TokenKind::Equal
                }
            },
            '<' => {
                if self.chomp_char('=') {
                    TokenKind::LessEqual
                } else {
                    TokenKind::Less
                }
            },
            '>' => {
                if self.chomp_char('=') {
                    TokenKind::GreaterEqual
                } else {
                    TokenKind::Greater
                }
            },
            '"' => self.string(),
            c => {
                if is_digit(c) {
                    self.number()
                } else if is_alpha(c) {
                    self.identifier(start)
                } else {
                    TokenKind::UnexpectedCharacterError
                }
            },
        };
        proof {
            lemma_scan_token_bounds(src, ws);
            assert(kind == spec_scan_token(src, ws).0);
            assert(self.cursor() == spec_scan_token(src, ws).1);
        }
        let lexeme: &str = self.source.as_str().substring_char(start, self.current);
        Some(Token::new(kind, lexeme, position))
    }
}

/// The cursor after one `next_token` call made at cursor `i`: the end of the
/// scanned token, or the end of the source when only whitespace remains.
pub open spec fn spec_step_end(src: Seq<char>, i: int) -> int {
    let ws = spec_run_end(src, i, whitespace_pred());
    if ws >= src.len() {
        src.len() as int
    } else {
        spec_scan_token(src, ws).1
    }
}

/// The cursor after `n` successive `next_token` calls starting at cursor `i`.
pub open spec fn spec_cursor_after(src: Seq<char>, i: int, n: nat) -> int
    decreases n,
{
    if n == 0 {
        i
    } else {
        spec_step_end(src, spec_cursor_after(src, i, (n - 1) as nat))
    }
}

/// The text one `next_token` call made at cursor `i` consumes: the skipped
/// whitespace followed by the token's lexeme (just the whitespace when the
/// call reports end of input).
pub open spec fn spec_call_text(src: Seq<char>, i: int) -> Seq<char> {
    let ws = spec_run_end(src, i, whitespace_pred());
    if ws >= src.len() {
        src.subrange(i, src.len() as int)
    } else {
        src.subrange(i, ws) + src.subrange(ws, spec_scan_token(src, ws).1)
    }
}

/// The concatenation over `n` successive calls of skipped whitespace plus
/// token lexeme.
pub open spec fn spec_consumed_text(src: Seq<char>, i: int, n: nat) -> Seq<char>
    decreases n,
{
    if n == 0 {
        Seq::<char>::empty()
    } else {
        spec_consumed_text(src, i, (n - 1) as nat) + spec_call_text(
            src,
            spec_cursor_after(src, i, (n - 1) as nat),
        )
    }
}

/// One scanning step stays within the source and never moves backwards.
pub proof fn lemma_step_end_bounds(src: Seq<char>, i: int)
    requires
        0 <= i <= src.len(),
    ensures
        i <= spec_step_end(src, i) <= src.len(),
{
    lemma_run_end(src, i, whitespace_pred());
    let ws = spec_run_end(src, i, whitespace_pred());
    if ws < src.len() {
        lemma_scan_token_bounds(src, ws);
    }
}

/// Across any number of `next_token` calls, the lexeme slices concatenated
/// across the emitted tokens, plus the skipped whitespace, reconstruct
/// exactly the source substring consumed: no characters are lost or
/// duplicated.
pub proof fn lemma_scanner_reconstructs_source(src: Seq<char>, i: int, n: nat)
    requires
        0 <= i <= src.len(),
    ensures
        i <= spec_cursor_after(src, i, n) <= src.len(),
        spec_consumed_text(src, i, n) == src.subrange(i, spec_cursor_after(src, i, n)),
    decreases n,
{
    if n == 0 {
        assert(spec_consumed_text(src, i, n) =~= src.subrange(i, i));
    } else {
        lemma_scanner_reconstructs_source(src, i, (n - 1) as nat);
        let c = spec_cursor_after(src, i, (n - 1) as nat);
        let d = spec_cursor_after(src, i, n);
        lemma_step_end_bounds(src, c);
        let ws = spec_run_end(src, c, whitespace_pred());
        lemma_run_end(src, c, whitespace_pred());
        if ws < src.len() {
            lemma_scan_token_bounds(src, ws);
            assert(spec_call_text(src, c) =~= src.subrange(c, d));
        } else {
            assert(spec_call_text(src, c) =~= src.subrange(c, d));
        }
        assert(spec_consumed_text(src, i, n) =~= src.subrange(i, d));
    }
}

/// Across successive `next_token` calls on one scanner, token positions
/// strictly increase, in the lexicographic (line, column) order on Position.
/// `first` is the position of a token scanned from cursor `i`; `second` is
/// the position of the token the following call scans.
pub proof fn lemma_token_positions_increase(src: Seq<char>, i: int, first: Position, second: Position)
    requires
        0 <= i <= src.len(),
        spec_run_end(src, i, whitespace_pred()) < src.len(),
        spec_run_end(
            src,
            spec_scan_token(src, spec_run_end(src, i, whitespace_pred())).1,
            whitespace_pred(),
        ) < src.len(),
        first.line == spec_line(src, spec_run_end(src, i, whitespace_pred())),
        first.column == spec_column(src, spec_run_end(src, i, whitespace_pred())),
        second.line == spec_line(
            src,
            spec_run_end(
                src,
                spec_scan_token(src, spec_run_end(src, i, whitespace_pred())).1,
                whitespace_pred(),
            ),
        ),
        second.column == spec_column(
            src,
            spec_run_end(
                src,
                spec_scan_token(src, spec_run_end(src, i, whitespace_pred())).1,
                whitespace_pred(),
            ),
        ),
    ensures
        spec_position_lt(first, second),
{
    let ws1 = spec_run_end(src, i, whitespace_pred());
    lemma_run_end(src, i, whitespace_pred());
    lemma_scan_token_bounds(src, ws1);
    let e1 = spec_scan_token(src, ws1).1;
    lemma_run_end(src, e1, whitespace_pred());
    let ws2 = spec_run_end(src, e1, whitespace_pred());
    lemma_position_strictly_increases(src, ws1, ws2);
}

/// Character-by-character string equality, in terms of the views.
fn str_eq(a: &str, b: &str) -> (r: bool)
    ensures
        r == (a@ == b@),
{
    let n = a.unicode_len();
    let m = b.unicode_len();
    if n != m {
        return false;
    }
    let mut i: usize = 0;
    while i < n
        invariant
            n == a@.len(),
            n == b@.len(),
            i <= n,
            forall|k: int| 0 <= k < i ==> a@[k] == b@[k],
        decreases n - i,
    {
        if a.get_char(i) != b.get_char(i) {
            return false;
        }
        i += 1;
    }
    proof {
        assert(a@ =~= b@);
    }
    true
}

} // verus!
