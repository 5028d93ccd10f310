//! Lexical analysis: the token vocabulary, the source-position cursor, the
//! comment stripper and the character-level scanner.
//!
//! The scanner is a three-state machine (`Normal`, in-string, in-integer)
//! with a single pending buffer; its behaviour is stated by the spec-level
//! machine `spec_step` / `spec_scan`, and `Lexer::lex` is proved to follow
//! that machine exactly.

use vstd::prelude::*;

verus! {

/// A compile-time constant value produced by the scanner's literal sub-states.
#[derive(Debug, Hash, Eq, PartialEq)]
pub enum Literal {
    Str(String),
    Int(u64),
    Bool(bool),
}

/// Spec-level image of a [`Literal`]: string contents as a character sequence.
pub enum LiteralV {
    Str(Seq<char>),
    Int(u64),
    Bool(bool),
}

impl View for Literal {
    type V = LiteralV;

    open spec fn view(&self) -> LiteralV {
        match self {
            Literal::Str(s) => LiteralV::Str(s@),
            Literal::Int(i) => LiteralV::Int(*i),
            Literal::Bool(b) => LiteralV::Bool(*b),
        }
    }
}

/// Which literal sub-state the scanner is in: inside a string, inside an
/// integer, or neither (the `Normal` state).
#[derive(Debug, Hash, Eq, PartialEq, Structural, Clone, Copy)]
pub enum LiteralType {
    Str,
    Int,
    Neither,
}

/// The closed keyword vocabulary.
#[derive(Debug, Hash, Eq, PartialEq, Structural, Clone, Copy)]
pub enum Keyword {
    Function,
    Let,
    Const,
    For,
    In,
    While,
    Loop,
    Return,
    If,
    Else,
}

/// The closed punctuation/operator vocabulary.
#[derive(Debug, Hash, Eq, PartialEq, Structural, Clone, Copy)]
pub enum Symbol {
    OpenBracket,
    CloseBracket,
    OpenParen,
    CloseParen,
    SemiColon,
    DoubleEqual,
    Equal,
    Add,
    Sub,
    Mul,
    Div,
    Pow,
    AddAssign,
    SubAssign,
    MulAssign,
    DivAssign,
    SingleQuote,
    DoubleQuote,
    Gt,
    Lt,
    GtEq,
    LtEq,
    Shr,
    Shl,
    Xor,
    LogicalAnd,
    LogicalOr,
    BinaryAnd,
    BinaryOr,
}

/// A classified lexical unit: identifier, literal, keyword or symbol.
#[derive(Debug, Hash, Eq, PartialEq)]
pub enum TokenKind {
    Identifier(String),
    Literal(Literal),
    Keyword(Keyword),
    Symbol(Symbol),
}

/// Spec-level image of a [`TokenKind`].
pub enum TokenKindV {
    Identifier(Seq<char>),
    Literal(LiteralV),
    Keyword(Keyword),
    Symbol(Symbol),
}

impl View for TokenKind {
    type V = TokenKindV;

    open spec fn view(&self) -> TokenKindV {
        match self {
            TokenKind::Identifier(s) => TokenKindV::Identifier(s@),
            TokenKind::Literal(l) => TokenKindV::Literal(l@),
            TokenKind::Keyword(k) => TokenKindV::Keyword(*k),
            TokenKind::Symbol(s) => TokenKindV::Symbol(*s),
        }
    }
}

/// A (row, column) cursor into the source text, attached to every token.
#[derive(Debug, Hash, Eq, PartialEq, Copy, Clone)]
pub struct Pos {
    row: usize,
    col: usize,
}

/// Spec-level image of a [`Pos`], over unbounded integers.
pub struct PosV {
    pub row: int,
    pub col: int,
}

impl View for Pos {
    type V = PosV;

    closed spec fn view(&self) -> PosV {
        PosV { row: self.row as int, col: self.col as int }
    }
}

impl Pos {
    /// The origin position: row 0, column 0.
    pub fn new() -> (p: Pos)
        ensures
            p@.row == 0,
            p@.col == 0,
    {
        Pos { row: 0, col: 0 }
    }

    /// The row, counted from 0 and advanced at each newline.
    pub fn row(&self) -> (r: usize)
        ensures
            r == self@.row,
    {
        self.row
    }

    /// The column, counted from 0 and advanced once per character examined.
    pub fn col(&self) -> (c: usize)
        ensures
            c == self@.col,
    {
        self.col
    }
}

/// Classification of a completed word: the keyword/symbol lookup table.
/// A word that is none of the fixed spellings is an identifier.
pub open spec fn spec_token_kind(s: Seq<char>) -> TokenKindV {
    if s == "fn"@ {
        TokenKindV::Keyword(Keyword::Function)
    } else if s == "let"@ {
        TokenKindV::Keyword(Keyword::Let)
    } else if s == "const"@ {
        TokenKindV::Keyword(Keyword::Const)
    } else if s == "for"@ {
        TokenKindV::Keyword(Keyword::For)
    } else if s == "while"@ {
        TokenKindV::Keyword(Keyword::While)
    } else if s == "loop"@ {
        TokenKindV::Keyword(Keyword::Loop)
    } else if s == "return"@ {
        TokenKindV::Keyword(Keyword::Return)
    } else if s == "if"@ {
        TokenKindV::Keyword(Keyword::If)
    } else if s == "else"@ {
        TokenKindV::Keyword(Keyword::Else)
    } else if s == "in"@ {
        TokenKindV::Keyword(Keyword::In)
    } else if s == "{"@ {
        TokenKindV::Symbol(Symbol::OpenBracket)
    } else if s == "}"@ {
        TokenKindV::Symbol(Symbol::CloseBracket)
    } else if s == "("@ {
        TokenKindV::Symbol(Symbol::OpenParen)
    } else if s == ")"@ {
        TokenKindV::Symbol(Symbol::CloseParen)
    } else if s == "="@ {
        TokenKindV::Symbol(Symbol::Equal)
    } else if s == "=="@ {
        TokenKindV::Symbol(Symbol::DoubleEqual)
    } else if s == ";"@ {
        TokenKindV::Symbol(Symbol::SemiColon)
    } else if s == "'"@ {
        TokenKindV::Symbol(Symbol::SingleQuote)
    } else if s == "\""@ {
        TokenKindV::Symbol(Symbol::DoubleQuote)
    } else if s == "+"@ {
        TokenKindV::Symbol(Symbol::Add)
    } else if s == "-"@ {
        TokenKindV::Symbol(Symbol::Sub)
    } else if s == "*"@ {
        TokenKindV::Symbol(Symbol::Mul)
    } else if s == "/"@ {
        TokenKindV::Symbol(Symbol::Div)
    } else if s == "**"@ {
        TokenKindV::Symbol(Symbol::Pow)
    } else if s == "+="@ {
        TokenKindV::Symbol(Symbol::AddAssign)
    } else if s == "-="@ {
        TokenKindV::Symbol(Symbol::SubAssign)
    } else if s == "*="@ {
        TokenKindV::Symbol(Symbol::MulAssign)
    } else if s == "/="@ {
        TokenKindV::Symbol(Symbol::DivAssign)
    } else if s == ">"@ {
        TokenKindV::Symbol(Symbol::Gt)
    } else if s == "<"@ {
        TokenKindV::Symbol(Symbol::Lt)
    } else if s == ">="@ {
        TokenKindV::Symbol(Symbol::GtEq)
    } else if s == "<="@ {
        TokenKindV::Symbol(Symbol::LtEq)
    } else if s == ">>"@ {
        TokenKindV::Symbol(Symbol::Shr)
    } else if s == "<<"@ {
        TokenKindV::Symbol(Symbol::Shl)
    } else if s == "^"@ {
        TokenKindV::Symbol(Symbol::Xor)
    } else if s == "&"@ {
        TokenKindV::Symbol(Symbol::BinaryAnd)
    } else if s == "|"@ {
        TokenKindV::Symbol(Symbol::BinaryOr)
    } else if s == "&&"@ {
        TokenKindV::Symbol(Symbol::LogicalAnd)
    } else if s == "||"@ {
        TokenKindV::Symbol(Symbol::LogicalOr)
    } else if s == "true"@ {
        TokenKindV::Literal(LiteralV::Bool(true))
    } else if s == "false"@ {
        TokenKindV::Literal(LiteralV::Bool(false))
    } else {
        TokenKindV::Identifier(s)
    }
}

/// Character-by-character string comparison, used by the keyword/symbol lookup.
fn str_eq(a: &str, b: &str) -> (r: bool)
    ensures
        r == (a@ == b@),
{
    let n = a.unicode_len();
    if n != b.unicode_len() {
        return false;
    }
    for i in 0..n
        invariant
            n == a@.len(),
            n == b@.len(),
            forall|j: int| 0 <= j < i ==> a@[j] == b@[j],
    {
        if a.get_char(i) != b.get_char(i) {
            return false;
        }
    }
    proof {
        assert(a@ =~= b@);
    }
    true
}

impl TokenKind {
    /// Classify a completed word by the keyword/symbol lookup table.
    pub fn new(token: &str) -> (k: TokenKind)
        ensures
            k@ == spec_token_kind(token@),
    {
        if str_eq(token, "fn") {
            TokenKind::Keyword(Keyword::Function)
        } else if str_eq(token, "let") {
            TokenKind::Keyword(Keyword::Let)
        } else if str_eq(token, "const") {
            TokenKind::Keyword(Keyword::Const)
        } else if str_eq(token, "for") {
            TokenKind::Keyword(Keyword::For)
        } else if str_eq(token, "while") {
            TokenKind::Keyword(Keyword::While)
        } else if str_eq(token, "loop") {
            TokenKind::Keyword(Keyword::Loop)
        } else if str_eq(token, "return") {
            TokenKind::Keyword(Keyword::Return)
        } else if str_eq(token, "if") {
            TokenKind::Keyword(Keyword::If)
        } else if str_eq(token, "else") {
            TokenKind::Keyword(Keyword::Else)
        } else if str_eq(token, "in") {
            TokenKind::Keyword(Keyword::In)
        } else if str_eq(token, "{") {
            TokenKind::Symbol(Symbol::OpenBracket)
        } else if str_eq(token, "}") {
            TokenKind::Symbol(Symbol::CloseBracket)
        } else if str_eq(token, "(") {
            TokenKind::Symbol(Symbol::OpenParen)
        } else if str_eq(token, ")") {
            TokenKind::Symbol(Symbol::CloseParen)
        } else if str_eq(token, "=") {
            TokenKind::Symbol(Symbol::Equal)
        } else if str_eq(token, "==") {
            TokenKind::Symbol(Symbol::DoubleEqual)
        } else if str_eq(token, ";") {
            TokenKind::Symbol(Symbol::SemiColon)
        } else if str_eq(token, "'") {
            TokenKind::Symbol(Symbol::SingleQuote)
        } else if str_eq(token, "\"") {
            TokenKind::Symbol(Symbol::DoubleQuote)
        } else if str_eq(token, "+") {
            TokenKind::Symbol(Symbol::Add)
        } else if str_eq(token, "-") {
            TokenKind::Symbol(Symbol::Sub)
        } else if str_eq(token, "*") {
            TokenKind::Symbol(Symbol::Mul)
        } else if str_eq(token, "/") {
            TokenKind::Symbol(Symbol::Div)
        } else if str_eq(token, "**") {
            TokenKind::Symbol(Symbol::Pow)
        } else if str_eq(token, "+=") {
            TokenKind::Symbol(Symbol::AddAssign)
        } else if str_eq(token, "-=") {
            TokenKind::Symbol(Symbol::SubAssign)
        } else if str_eq(token, "*=") {
            TokenKind::Symbol(Symbol::MulAssign)
        } else if str_eq(token, "/=") {
            TokenKind::Symbol(Symbol::DivAssign)
        } else if str_eq(token, ">") {
            TokenKind::Symbol(Symbol::Gt)
        } else if str_eq(token, "<") {
            TokenKind::Symbol(Symbol::Lt)
        } else if str_eq(token, ">=") {
            TokenKind::Symbol(Symbol::GtEq)
        } else if str_eq(token, "<=") {
            TokenKind::Symbol(Symbol::LtEq)
        } else if str_eq(token, ">>") {
            TokenKind::Symbol(Symbol::Shr)
        } else if str_eq(token, "<<") {
            TokenKind::Symbol(Symbol::Shl)
        } else if str_eq(token, "^") {
            TokenKind::Symbol(Symbol::Xor)
        } else if str_eq(token, "&") {
            TokenKind::Symbol(Symbol::BinaryAnd)
        } else if str_eq(token, "|") {
            TokenKind::Symbol(Symbol::BinaryOr)
        } else if str_eq(token, "&&") {
            TokenKind::Symbol(Symbol::LogicalAnd)
        } else if str_eq(token, "||") {
            TokenKind::Symbol(Symbol::LogicalOr)
        } else if str_eq(token, "true") {
            TokenKind::Literal(Literal::Bool(true))
        } else if str_eq(token, "false") {
            TokenKind::Literal(Literal::Bool(false))
        } else {
            TokenKind::Identifier(token.to_owned())
        }
    }
}

/// A classified lexical unit together with the position at which it was
/// completed.
#[derive(Debug, Hash, Eq, PartialEq)]
pub struct Token {
    token_kind: TokenKind,
    pos: Pos,
}

/// Spec-level image of a [`Token`].
pub struct TokenV {
    pub kind: TokenKindV,
    pub pos: PosV,
}

impl View for Token {
    type V = TokenV;

    closed spec fn view(&self) -> TokenV {
        TokenV { kind: self.token_kind@, pos: self.pos@ }
    }
}

impl Token {
    pub fn new(token_kind: TokenKind, pos: Pos) -> (t: Token)
        ensures
            t@.kind == token_kind@,
            t@.pos == pos@,
    {
        Token { token_kind, pos }
    }

    /// The token's classification.
    pub fn kind(&self) -> (k: &TokenKind)
        ensures
            k@ == self@.kind,
    {
        &self.token_kind
    }

    /// The position at which the token was completed.
    pub fn pos(&self) -> (p: Pos)
        ensures
            p@ == self@.pos,
    {
        self.pos
    }
}

/// The lexical scanner; owns the position cursor, which persists across
/// inputs so that positions keep advancing monotonically.
#[derive(Debug)]
pub struct Lexer {
    pos: Pos,
}

impl View for Lexer {
    type V = PosV;

    closed spec fn view(&self) -> PosV {
        self.pos@
    }
}

impl Lexer {
    /// A scanner whose cursor is at the origin.
    pub fn new() -> (l: Lexer)
        ensures
            l@.row == 0,
            l@.col == 0,
    {
        Lexer { pos: Pos::new() }
    }
}

/// The structured upgrades of the scanner's internal faults: a malformed
/// numeric literal is reported, never silently turned into a wrong token.
#[derive(Debug, Hash, Eq, PartialEq, Structural, Clone, Copy)]
pub enum LexError {
    /// A hex digit `a`-`f`/`A`-`F` occurred inside a decimal integer literal.
    StrayHexDigit,
    /// An `x` occurred inside an integer literal anywhere but immediately
    /// after a single leading `0`.
    StrayHexMarker,
    /// An integer literal ended with no digits at all (`0x` followed by none).
    EmptyIntegerDigits,
    /// An integer literal does not fit in an unsigned 64-bit value.
    IntegerOverflow,
}

/// The scanner's whole configuration between two characters: the literal
/// sub-state, the pending buffer, the integer base, the position cursor and
/// the tokens emitted so far.
pub struct ScanState {
    pub mode: LiteralType,
    pub buf: Seq<char>,
    pub base: nat,
    pub row: int,
    pub col: int,
    pub toks: Seq<TokenV>,
}

/// The scanner's configuration at the start of an input, cursor given.
pub open spec fn init_scan_state(pos: PosV) -> ScanState {
    ScanState {
        mode: LiteralType::Neither,
        buf: Seq::empty(),
        base: 10,
        row: pos.row,
        col: pos.col,
        toks: Seq::empty(),
    }
}

pub open spec fn spec_is_digit(c: char) -> bool {
    '0' <= c && c <= '9'
}

pub open spec fn spec_is_hex_letter(c: char) -> bool {
    ('a' <= c && c <= 'f') || ('A' <= c && c <= 'F')
}

/// Numeric value of one digit character (hex letters included).
pub open spec fn digit_val(c: char) -> nat {
    if spec_is_digit(c) {
        (c as u32 - '0' as u32) as nat
    } else if 'a' <= c && c <= 'f' {
        (c as u32 - 'a' as u32 + 10) as nat
    } else if 'A' <= c && c <= 'F' {
        (c as u32 - 'A' as u32 + 10) as nat
    } else {
        0
    }
}

/// Value of a digit string read in the given base, most significant first.
pub open spec fn digits_val(s: Seq<char>, base: nat) -> nat
    decreases s.len(),
{
    if s.len() == 0 {
        0
    } else {
        digits_val(s.drop_last(), base) * base + digit_val(s.last())
    }
}

/// Append one token, completed at the current cursor position.
pub open spec fn emit(st: ScanState, kind: TokenKindV) -> ScanState {
    ScanState {
        toks: st.toks.push(TokenV { kind, pos: PosV { row: st.row, col: st.col } }),
        ..st
    }
}

/// Flush the pending buffer as a classified word, if it is nonempty.
pub open spec fn flush_word(st: ScanState) -> ScanState {
    if st.buf.len() == 0 {
        st
    } else {
        ScanState { buf: Seq::empty(), ..emit(st, spec_token_kind(st.buf)) }
    }
}

/// The buffers after which a bare operator character is held back one
/// character, waiting for a compound or doubled operator.
pub open spec fn is_held_op(b: Seq<char>) -> bool {
    ||| b == seq!['=']
    ||| b == seq!['&']
    ||| b == seq!['|']
    ||| b == seq!['*']
    ||| b == seq!['/']
    ||| b == seq!['<']
    ||| b == seq!['>']
    ||| b == seq!['+']
    ||| b == seq!['-']
}

/// The buffers that a following `=` completes into a compound symbol.
pub open spec fn is_compound_head(b: Seq<char>) -> bool {
    ||| b == seq!['=']
    ||| b == seq!['+']
    ||| b == seq!['-']
    ||| b == seq!['*']
    ||| b == seq!['/']
    ||| b == seq!['<']
    ||| b == seq!['>']
}

/// One `Normal`-state transition (the cursor has already advanced).
pub open spec fn spec_step_normal(st: ScanState, c: char) -> ScanState {
    if c == ' ' || c == '\r' || c == '\t' {
        flush_word(st)
    } else if c == '\n' {
        let st1 = flush_word(st);
        ScanState { row: st1.row + 1, col: 0, ..st1 }
    } else if c == '{' || c == '}' || c == '(' || c == ')' || c == ';' || c == '^' {
        emit(flush_word(st), spec_token_kind(seq![c]))
    } else if c == '+' || c == '-' {
        ScanState { buf: seq![c], ..flush_word(st) }
    } else if c == '"' {
        ScanState { mode: LiteralType::Str, ..st }
    } else if c == '=' {
        if is_compound_head(st.buf) {
            ScanState { buf: Seq::empty(), ..emit(st, spec_token_kind(st.buf.push('='))) }
        } else {
            ScanState { buf: seq!['='], ..flush_word(st) }
        }
    } else if c == '&' || c == '|' || c == '*' || c == '/' || c == '>' || c == '<' {
        if st.buf == seq![c] {
            ScanState { buf: Seq::empty(), ..emit(st, spec_token_kind(seq![c, c])) }
        } else {
            ScanState { buf: seq![c], ..flush_word(st) }
        }
    } else if spec_is_digit(c) {
        ScanState { mode: LiteralType::Int, buf: seq![c], ..flush_word(st) }
    } else {
        let st1 = if is_held_op(st.buf) {
            ScanState { buf: Seq::empty(), ..emit(st, spec_token_kind(st.buf)) }
        } else {
            st
        };
        ScanState { buf: st1.buf.push(c), ..st1 }
    }
}

/// Close an integer literal: parse the buffered digits in the current base
/// and emit the token, or report the malformed literal.
pub open spec fn spec_close_int(st: ScanState) -> Result<ScanState, LexError> {
    if st.buf.len() == 0 {
        Err(LexError::EmptyIntegerDigits)
    } else if digits_val(st.buf, st.base) > u64::MAX {
        Err(LexError::IntegerOverflow)
    } else {
        Ok(
            ScanState {
                mode: LiteralType::Neither,
                buf: Seq::empty(),
                base: 10,
                ..emit(
                    st,
                    TokenKindV::Literal(LiteralV::Int(digits_val(st.buf, st.base) as u64)),
                )
            },
        )
    }
}

/// One full scanner transition: advance the column, then dispatch on the
/// literal sub-state.
pub open spec fn spec_step(st0: ScanState, c: char) -> Result<ScanState, LexError> {
    let st = ScanState { col: st0.col + 1, ..st0 };
    match st.mode {
        LiteralType::Str => {
            if c == '"' {
                Ok(
                    ScanState {
                        mode: LiteralType::Neither,
                        buf: Seq::empty(),
                        ..emit(st, TokenKindV::Literal(LiteralV::Str(st.buf)))
                    },
                )
            } else {
                Ok(ScanState { buf: st.buf.push(c), ..st })
            }
        },
        LiteralType::Int => {
            if spec_is_digit(c) {
                Ok(ScanState { buf: st.buf.push(c), ..st })
            } else if spec_is_hex_letter(c) {
                if st.base == 16 {
                    Ok(ScanState { buf: st.buf.push(c), ..st })
                } else {
                    Err(LexError::StrayHexDigit)
                }
            } else if c == 'x' {
                if st.buf == seq!['0'] {
                    Ok(ScanState { buf: Seq::empty(), base: 16, ..st })
                } else {
                    Err(LexError::StrayHexMarker)
                }
            } else {
                match spec_close_int(st) {
                    Ok(st1) => Ok(spec_step_normal(st1, c)),
                    Err(e) => Err(e),
                }
            }
        },
        LiteralType::Neither => Ok(spec_step_normal(st, c)),
    }
}

/// Fold the scanner over a character sequence.
pub open spec fn spec_scan(st: ScanState, s: Seq<char>) -> Result<ScanState, LexError>
    decreases s.len(),
{
    if s.len() == 0 {
        Ok(st)
    } else {
        match spec_step(st, s[0]) {
            Ok(st1) => spec_scan(st1, s.drop_first()),
            Err(e) => Err(e),
        }
    }
}

/// End-of-input flush: whatever is pending becomes a final token, exactly as
/// if a terminating whitespace character had been seen.
pub open spec fn spec_finish(st: ScanState) -> Result<ScanState, LexError> {
    match st.mode {
        LiteralType::Int => spec_close_int(st),
        LiteralType::Str => Ok(
            ScanState {
                mode: LiteralType::Neither,
                buf: Seq::empty(),
                ..emit(st, TokenKindV::Literal(LiteralV::Str(st.buf)))
            },
        ),
        LiteralType::Neither => Ok(flush_word(st)),
    }
}

/// The character sequence that remains after the first block-comment close
/// `*/`, or nothing when the comment is unterminated.
pub open spec fn after_block_close(s: Seq<char>) -> Seq<char>
    decreases s.len(),
{
    if s.len() < 2 {
        Seq::empty()
    } else if s[0] == '*' && s[1] == '/' {
        s.skip(2)
    } else {
        after_block_close(s.drop_first())
    }
}

pub proof fn lemma_after_block_close_len(s: Seq<char>)
    ensures
        after_block_close(s).len() <= s.len(),
    decreases s.len(),
{
    if s.len() < 2 {
    } else if s[0] == '*' && s[1] == '/' {
    } else {
        lemma_after_block_close_len(s.drop_first());
    }
}

/// Block-comment removal: a `/*` consumes through the first following `*/`,
/// or to end of input when unterminated; block comments do not nest.
pub open spec fn spec_strip_block(s: Seq<char>) -> Seq<char>
    decreases s.len(),
{
    if s.len() < 2 {
        s
    } else if s[0] == '/' && s[1] == '*' {
        proof {
            lemma_after_block_close_len(s.skip(2));
        }
        spec_strip_block(after_block_close(s.skip(2)))
    } else {
        seq![s[0]] + spec_strip_block(s.drop_first())
    }
}

/// The character sequence from the next newline or carriage return on, or
/// nothing when the line runs to end of input.
pub open spec fn line_rest(s: Seq<char>) -> Seq<char>
    decreases s.len(),
{
    if s.len() == 0 {
        s
    } else if s[0] == '\n' || s[0] == '\r' {
        s
    } else {
        line_rest(s.drop_first())
    }
}

pub proof fn lemma_line_rest_len(s: Seq<char>)
    ensures
        line_rest(s).len() <= s.len(),
    decreases s.len(),
{
    if s.len() == 0 {
    } else if s[0] == '\n' || s[0] == '\r' {
    } else {
        lemma_line_rest_len(s.drop_first());
    }
}

/// Line-comment removal: a `//` consumes to (but excludes) the next newline
/// or carriage return, or to end of input.
pub open spec fn spec_strip_line(s: Seq<char>) -> Seq<char>
    decreases s.len(),
{
    if s.len() < 2 {
        s
    } else if s[0] == '/' && s[1] == '/' {
        proof {
            lemma_line_rest_len(s.skip(2));
        }
        spec_strip_line(line_rest(s.skip(2)))
    } else {
        seq![s[0]] + spec_strip_line(s.drop_first())
    }
}

/// Comment stripping: block comments are removed before line comments, so a
/// `//` inside a block comment is never separately interpreted.
pub open spec fn spec_strip(s: Seq<char>) -> Seq<char> {
    spec_strip_line(spec_strip_block(s))
}

/// No line-comment marker `//` occurs anywhere in the text.
pub open spec fn no_line_marker(s: Seq<char>) -> bool {
    forall|i: int| 0 <= i && i + 1 < s.len() ==> !(#[trigger] s[i] == '/' && s[i + 1] == '/')
}

/// No block-comment opener `/*` occurs anywhere in the text.
pub open spec fn no_block_marker(s: Seq<char>) -> bool {
    forall|i: int| 0 <= i && i + 1 < s.len() ==> !(#[trigger] s[i] == '/' && s[i + 1] == '*')
}

/// Line-comment removal starts its output with the first input character,
/// or with the newline that ended a leading comment.
proof fn lemma_strip_line_head(s: Seq<char>)
    ensures
        spec_strip_line(s).len() > 0 ==> spec_strip_line(s)[0] == s[0] || spec_strip_line(
            s,
        )[0] == '\n' || spec_strip_line(s)[0] == '\r',
    decreases s.len(),
{
    if s.len() < 2 {
    } else if s[0] == '/' && s[1] == '/' {
        let rest = line_rest(s.skip(2));
        lemma_line_rest_len(s.skip(2));
        lemma_line_rest_starts(s.skip(2));
        lemma_strip_line_head(rest);
    } else {
        lemma_strip_line_head(s.drop_first());
    }
}

/// What remains of a line is empty or starts with its newline.
proof fn lemma_line_rest_starts(s: Seq<char>)
    ensures
        line_rest(s).len() > 0 ==> line_rest(s)[0] == '\n' || line_rest(s)[0] == '\r',
    decreases s.len(),
{
    if s.len() == 0 {
    } else if s[0] == '\n' || s[0] == '\r' {
    } else {
        lemma_line_rest_starts(s.drop_first());
    }
}

/// Line-comment removal leaves no `//` in its output.
proof fn lemma_strip_line_no_marker(s: Seq<char>)
    ensures
        no_line_marker(spec_strip_line(s)),
    decreases s.len(),
{
    if s.len() < 2 {
    } else if s[0] == '/' && s[1] == '/' {
        lemma_line_rest_len(s.skip(2));
        lemma_strip_line_no_marker(line_rest(s.skip(2)));
    } else {
        let tail = spec_strip_line(s.drop_first());
        lemma_strip_line_no_marker(s.drop_first());
        lemma_strip_line_head(s.drop_first());
        let out = spec_strip_line(s);
        assert(out == seq![s[0]] + tail);
        assert forall|i: int| 0 <= i && i + 1 < out.len() implies !(#[trigger] out[i] == '/'
            && out[i + 1] == '/') by {
            if i == 0 {
                assert(out[0] == s[0]);
                assert(out[1] == tail[0]);
                if s[0] == '/' {
                    assert(s.drop_first()[0] == s[1]);
                    assert(!(s[1] == '/'));
                    assert(tail[0] == s[1] || tail[0] == '\n' || tail[0] == '\r');
                }
            } else {
                assert(out[i] == tail[i - 1]);
                assert(out[i + 1] == tail[i]);
            }
        }
    }
}

/// Text without `//` passes line-comment removal unchanged.
proof fn lemma_strip_line_fixed(s: Seq<char>)
    requires
        no_line_marker(s),
    ensures
        spec_strip_line(s) == s,
    decreases s.len(),
{
    if s.len() < 2 {
    } else if s[0] == '/' && s[1] == '/' {
        assert(!(s[0int] == '/' && s[0int + 1] == '/'));
    } else {
        let tail = s.drop_first();
        assert forall|i: int| 0 <= i && i + 1 < tail.len() implies !(#[trigger] tail[i] == '/'
            && tail[i + 1] == '/') by {
            assert(tail[i] == s[i + 1]);
            assert(tail[i + 1] == s[i + 2]);
            assert(!(s[i + 1] == '/' && s[i + 1 + 1] == '/'));
        }
        lemma_strip_line_fixed(tail);
        assert(spec_strip_line(s) =~= s);
    }
}

/// Text without `/*` passes block-comment removal unchanged.
proof fn lemma_strip_block_fixed(s: Seq<char>)
    requires
        no_block_marker(s),
    ensures
        spec_strip_block(s) == s,
    decreases s.len(),
{
    if s.len() < 2 {
    } else if s[0] == '/' && s[1] == '*' {
        assert(!(s[0int] == '/' && s[0int + 1] == '*'));
    } else {
        let tail = s.drop_first();
        assert forall|i: int| 0 <= i && i + 1 < tail.len() implies !(#[trigger] tail[i] == '/'
            && tail[i + 1] == '*') by {
            assert(tail[i] == s[i + 1]);
            assert(tail[i + 1] == s[i + 2]);
            assert(!(s[i + 1] == '/' && s[i + 1 + 1] == '*'));
        }
        lemma_strip_block_fixed(tail);
        assert(spec_strip_block(s) =~= s);
    }
}

/// Comment stripping is idempotent: stripping a second time changes nothing.
/// This holds whenever the first pass leaves no `/*` behind; removing a
/// block comment can splice its neighbours into a new `/*`, and such a
/// spliced opener is only consumed by a further pass.
pub proof fn lemma_strip_idempotent(s: Seq<char>)
    requires
        no_block_marker(spec_strip(s)),
    ensures
        spec_strip(spec_strip(s)) == spec_strip(s),
{
    let y = spec_strip(s);
    lemma_strip_block_fixed(y);
    lemma_strip_line_no_marker(spec_strip_block(s));
    lemma_strip_line_fixed(y);
}

/// The block-comment removal pass over one input.
fn strip_block_pass(input: &str) -> (out: String)
    ensures
        out@ == spec_strip_block(input@),
{
    let n = input.unicode_len();
    let mut out = String::new();
    let mut i: usize = 0;
    proof {
        assert(input@.skip(0) =~= input@);
        assert(out@ + input@ =~= input@);
    }
    while i < n
        invariant
            n == input@.len(),
            i <= n,
            out@ + spec_strip_block(input@.skip(i as int)) == spec_strip_block(input@),
        decreases n - i,
    {
        let c = input.get_char(i);
        if c == '/' && i + 1 < n && input.get_char(i + 1) == '*' {
            proof {
                assert(input@.skip(i as int).skip(2) =~= input@.skip(i as int + 2));
            }
            let mut k: usize = i + 2;
            let mut closed = false;
            while !closed && k < n
                invariant
                    n == input@.len(),
                    i + 2 <= k <= n,
                    closed ==> k >= 2 && after_block_close(input@.skip(i as int + 2))
                        =~= input@.skip(k as int),
                    !closed ==> after_block_close(input@.skip(i as int + 2))
                        =~= after_block_close(input@.skip(k as int)),
                decreases n - k + (if closed { 0int } else { 1int }),
            {
                if k + 1 < n && input.get_char(k) == '*' && input.get_char(k + 1) == '/' {
                    proof {
                        assert(input@.skip(k as int).skip(2) =~= input@.skip(k as int + 2));
                    }
                    k = k + 2;
                    closed = true;
                } else if k + 1 >= n {
                    proof {
                        assert(after_block_close(input@.skip(k as int)) =~= Seq::empty());
                        assert(after_block_close(input@.skip(n as int)) =~= Seq::empty());
                    }
                    k = n;
                } else {
                    proof {
                        assert(input@.skip(k as int).drop_first() =~= input@.skip(k as int + 1));
                    }
                    k = k + 1;
                }
            }
            proof {
                if !closed {
                    assert(input@.skip(k as int).len() < 2);
                    assert(after_block_close(input@.skip(i as int + 2)) =~= input@.skip(
                        k as int,
                    ));
                }
                assert(spec_strip_block(input@.skip(i as int)) == spec_strip_block(
                    input@.skip(k as int),
                ));
            }
            i = k;
        } else {
            proof {
                let rest = input@.skip(i as int);
                if rest.len() >= 2 {
                    assert(rest.drop_first() =~= input@.skip(i as int + 1));
                    assert(rest[0] == c && !(rest[0] == '/' && rest[1] == '*'));
                } else {
                    assert(input@.skip(i as int + 1) =~= Seq::<char>::empty());
                    assert(spec_strip_block(input@.skip(i as int + 1)) =~= Seq::empty());
                }
                assert(spec_strip_block(input@.skip(i as int)) =~= seq![c]
                    + spec_strip_block(input@.skip(i as int + 1)));
            }
            out.append(input.substring_char(i, i + 1));
            proof {
                assert(input@.subrange(i as int, i as int + 1) =~= seq![c]);
            }
            i = i + 1;
        }
    }
    proof {
        assert(input@.skip(n as int) =~= Seq::empty());
        assert(out@ + Seq::<char>::empty() =~= out@);
    }
    out
}

/// The line-comment removal pass over one input.
fn strip_line_pass(input: &str) -> (out: String)
    ensures
        out@ == spec_strip_line(input@),
{
    let n = input.unicode_len();
    let mut out = String::new();
    let mut i: usize = 0;
    proof {
        assert(input@.skip(0) =~= input@);
        assert(out@ + input@ =~= input@);
    }
    while i < n
        invariant
            n == input@.len(),
            i <= n,
            out@ + spec_strip_line(input@.skip(i as int)) == spec_strip_line(input@),
        decreases n - i,
    {
        let c = input.get_char(i);
        if c == '/' && i + 1 < n && input.get_char(i + 1) == '/' {
            proof {
                assert(input@.skip(i as int).skip(2) =~= input@.skip(i as int + 2));
            }
            let mut k: usize = i + 2;
            let mut stop = false;
            while !stop && k < n
                invariant
                    n == input@.len(),
                    i + 2 <= k <= n,
                    line_rest(input@.skip(i as int + 2)) =~= line_rest(input@.skip(k as int)),
                    stop ==> k < n && (input@[k as int] == '\n' || input@[k as int] == '\r'),
                decreases n - k + (if stop { 0int } else { 1int }),
            {
                let d = input.get_char(k);
                if d == '\n' || d == '\r' {
                    stop = true;
                } else {
                    proof {
                        assert(input@.skip(k as int).drop_first() =~= input@.skip(k as int + 1));
                    }
                    k = k + 1;
                }
            }
            proof {
                if stop {
                    assert(input@.skip(k as int)[0] == '\n' || input@.skip(k as int)[0] == '\r');
                } else {
                    assert(input@.skip(k as int).len() == 0);
                }
                assert(line_rest(input@.skip(k as int)) =~= input@.skip(k as int));
                assert(spec_strip_line(input@.skip(i as int)) == spec_strip_line(
                    input@.skip(k as int),
                ));
            }
            i = k;
        } else {
            proof {
                let rest = input@.skip(i as int);
                if rest.len() >= 2 {
                    assert(rest.drop_first() =~= input@.skip(i as int + 1));
                    assert(rest[0] == c && !(rest[0] == '/' && rest[1] == '/'));
                } else {
                    assert(input@.skip(i as int + 1) =~= Seq::<char>::empty());
                    assert(spec_strip_line(input@.skip(i as int + 1)) =~= Seq::empty());
                }
                assert(spec_strip_line(input@.skip(i as int)) =~= seq![c]
                    + spec_strip_line(input@.skip(i as int + 1)));
            }
            out.append(input.substring_char(i, i + 1));
            proof {
                assert(input@.subrange(i as int, i as int + 1) =~= seq![c]);
            }
            i = i + 1;
        }
    }
    proof {
        assert(input@.skip(n as int) =~= Seq::empty());
        assert(out@ + Seq::<char>::empty() =~= out@);
    }
    out
}

impl Lexer {
    /// Remove all comments from raw source text, leaving every other
    /// character (whitespace and newlines included) intact.
    pub fn strip_comments(input: &str) -> (r: String)
        ensures
            r@ == spec_strip(input@),
    {
        let blocked = strip_block_pass(input);
        strip_line_pass(blocked.as_str())
    }
}

pub proof fn lemma_strip_block_len(s: Seq<char>)
    ensures
        spec_strip_block(s).len() <= s.len(),
    decreases s.len(),
{
    if s.len() < 2 {
    } else if s[0] == '/' && s[1] == '*' {
        lemma_after_block_close_len(s.skip(2));
        lemma_strip_block_len(after_block_close(s.skip(2)));
    } else {
        lemma_strip_block_len(s.drop_first());
    }
}

pub proof fn lemma_strip_line_len(s: Seq<char>)
    ensures
        spec_strip_line(s).len() <= s.len(),
    decreases s.len(),
{
    if s.len() < 2 {
    } else if s[0] == '/' && s[1] == '/' {
        lemma_line_rest_len(s.skip(2));
        lemma_strip_line_len(line_rest(s.skip(2)));
    } else {
        lemma_strip_line_len(s.drop_first());
    }
}

/// Stripping never lengthens the text.
pub proof fn lemma_strip_len(s: Seq<char>)
    ensures
        spec_strip(s).len() <= s.len(),
{
    lemma_strip_block_len(s);
    lemma_strip_line_len(spec_strip_block(s));
}

/// Scanning a concatenation scans the pieces in turn; an error in the first
/// piece is the error of the whole.
pub proof fn lemma_scan_append(st: ScanState, a: Seq<char>, b: Seq<char>)
    ensures
        spec_scan(st, a + b) == match spec_scan(st, a) {
            Ok(m) => spec_scan(m, b),
            Err(e) => Err::<ScanState, LexError>(e),
        },
    decreases a.len(),
{
    if a.len() == 0 {
        assert(a + b =~= b);
    } else {
        assert((a + b)[0] == a[0]);
        assert((a + b).drop_first() =~= a.drop_first() + b);
        match spec_step(st, a[0]) {
            Ok(st1) => {
                lemma_scan_append(st1, a.drop_first(), b);
            },
            Err(e) => {},
        }
    }
}

/// Scanning a single character is one transition.
pub proof fn lemma_scan_one(st: ScanState, c: char)
    ensures
        spec_scan(st, seq![c]) == match spec_step(st, c) {
            Ok(m) => Ok::<ScanState, LexError>(m),
            Err(e) => Err::<ScanState, LexError>(e),
        },
{
    assert(seq![c][0] == c);
    assert(seq![c].drop_first() =~= Seq::<char>::empty());
    match spec_step(st, c) {
        Ok(m) => {
            assert(spec_scan(m, seq![c].drop_first()) == Ok::<ScanState, LexError>(m));
        },
        Err(e) => {},
    }
}

/// A digit string's value never shrinks as digits are appended.
pub proof fn lemma_digits_val_prefix(s: Seq<char>, i: int, base: nat)
    requires
        0 <= i <= s.len(),
        base >= 1,
    ensures
        digits_val(s.take(i), base) <= digits_val(s, base),
    decreases s.len() - i,
{
    if i == s.len() {
        assert(s.take(i) =~= s);
    } else {
        assert(s.take(i + 1).drop_last() =~= s.take(i));
        let v = digits_val(s.take(i), base);
        let d = digit_val(s.take(i + 1).last());
        assert(v <= v * base + d) by (nonlinear_arith)
            requires base >= 1;
        assert(digits_val(s.take(i + 1), base) == v * base + d);
        lemma_digits_val_prefix(s, i + 1, base);
    }
}

fn is_digit_char(c: char) -> (r: bool)
    ensures
        r == spec_is_digit(c),
{
    c >= '0' && c <= '9'
}

fn is_hex_letter_char(c: char) -> (r: bool)
    ensures
        r == spec_is_hex_letter(c),
{
    (c >= 'a' && c <= 'f') || (c >= 'A' && c <= 'F')
}

fn digit_value(c: char) -> (d: u64)
    ensures
        d as nat == digit_val(c),
        d <= 15,
{
    if c >= '0' && c <= '9' {
        (c as u32 - '0' as u32) as u64
    } else if c >= 'a' && c <= 'f' {
        (c as u32 - 'a' as u32 + 10) as u64
    } else if c >= 'A' && c <= 'F' {
        (c as u32 - 'A' as u32 + 10) as u64
    } else {
        0
    }
}

/// Read a buffered digit string in the given base, reporting an empty or an
/// overflowing literal instead of producing a wrong token.
fn parse_digits(digits: &str, base: u64) -> (r: Result<u64, LexError>)
    requires
        base == 10 || base == 16,
    ensures
        digits@.len() == 0 ==> r == Err::<u64, LexError>(LexError::EmptyIntegerDigits),
        digits@.len() > 0 && digits_val(digits@, base as nat) > u64::MAX ==> r == Err::<
            u64,
            LexError,
        >(LexError::IntegerOverflow),
        digits@.len() > 0 && digits_val(digits@, base as nat) <= u64::MAX ==> r == Ok::<
            u64,
            LexError,
        >((digits_val(digits@, base as nat) as u64)),
{
    let n = digits.unicode_len();
    if n == 0 {
        return Err(LexError::EmptyIntegerDigits);
    }
    let mut val: u64 = 0;
    let mut i: usize = 0;
    proof {
        assert(digits@.take(0) =~= Seq::<char>::empty());
    }
    while i < n
        invariant
            n == digits@.len(),
            i <= n,
            base == 10 || base == 16,
            val as nat == digits_val(digits@.take(i as int), base as nat),
        decreases n - i,
    {
        let c = digits.get_char(i);
        let d = digit_value(c);
        proof {
            assert(digits@.take(i as int + 1).drop_last() =~= digits@.take(i as int));
            assert(digits@.take(i as int + 1).last() == c);
        }
        let m = match val.checked_mul(base) {
            Some(m) => m,
            None => {
                proof {
                    lemma_digits_val_prefix(digits@, i as int + 1, base as nat);
                }
                return Err(LexError::IntegerOverflow);
            },
        };
        let v2 = match m.checked_add(d) {
            Some(v2) => v2,
            None => {
                proof {
                    lemma_digits_val_prefix(digits@, i as int + 1, base as nat);
                }
                return Err(LexError::IntegerOverflow);
            },
        };
        val = v2;
        i = i + 1;
    }
    proof {
        assert(digits@.take(n as int) =~= digits@);
    }
    Ok(val)
}

/// The spec-level images of a token vector's elements.
pub open spec fn toks_of(v: Seq<Token>) -> Seq<TokenV> {
    v.map_values(|t: Token| t@)
}

proof fn lemma_toks_of_push(v: Seq<Token>, t: Token)
    ensures
        toks_of(v.push(t)) == toks_of(v).push(t@),
{
    assert(toks_of(v.push(t)) =~= toks_of(v).push(t@));
}

/// The whole lexical pass: strip comments, scan, flush; the cursor starts
/// where the previous input left it and is returned alongside the tokens.
pub open spec fn spec_lex(text: Seq<char>, pos: PosV) -> Result<(Seq<TokenV>, PosV), LexError> {
    match spec_scan(init_scan_state(pos), spec_strip(text)) {
        Ok(st) => match spec_finish(st) {
            Ok(st1) => Ok((st1.toks, PosV { row: st1.row, col: st1.col })),
            Err(e) => Err(e),
        },
        Err(e) => Err(e),
    }
}

/// The kinds of a token sequence, positions forgotten.
pub open spec fn kinds_of(toks: Seq<TokenV>) -> Seq<TokenKindV> {
    toks.map_values(|t: TokenV| t.kind)
}

/// The kinds that flushing a pending buffer would add: one classified word,
/// or nothing for an empty buffer.
pub open spec fn flush_kinds(buf: Seq<char>) -> Seq<TokenKindV> {
    if buf.len() == 0 {
        Seq::empty()
    } else {
        seq![spec_token_kind(buf)]
    }
}

/// A scanner configuration between words: `Normal` state, nothing pending.
pub open spec fn word_start(st: ScanState) -> bool {
    st.mode is Neither && st.buf.len() == 0 && st.base == 10
}

/// Scanning the word from this configuration succeeds, ends between words,
/// and contributes exactly the word's own classification.
pub open spec fn scan_word_post(st: ScanState, w: Seq<char>) -> bool {
    let r = spec_scan(st, w);
    &&& r is Ok
    &&& r->Ok_0.mode is Neither
    &&& r->Ok_0.base == 10
    &&& kinds_of(r->Ok_0.toks) + flush_kinds(r->Ok_0.buf) == kinds_of(st.toks) + seq![
        spec_token_kind(w),
    ]
}

/// A balanced word: scanned on its own, from any between-words
/// configuration, it yields exactly one token, its own classification.
pub open spec fn word_ok(w: Seq<char>) -> bool {
    &&& w.len() > 0
    &&& forall|st: ScanState| word_start(st) ==> #[trigger] scan_word_post(st, w)
}

/// The words joined by single spaces.
pub open spec fn join_spaces(words: Seq<Seq<char>>) -> Seq<char>
    decreases words.len(),
{
    if words.len() == 0 {
        Seq::empty()
    } else if words.len() == 1 {
        words[0]
    } else {
        words[0] + seq![' '] + join_spaces(words.drop_first())
    }
}

/// The canonical spelling of a token kind: the unique word the lookup table
/// classifies to it, or the identifier's own text. Numeric and string
/// literals arise from dedicated sub-states and have no canonical word.
pub open spec fn canon_text(k: TokenKindV) -> Seq<char> {
    match k {
        TokenKindV::Identifier(s) => s,
        TokenKindV::Keyword(kw) => match kw {
            Keyword::Function => "fn"@,
            Keyword::Let => "let"@,
            Keyword::Const => "const"@,
            Keyword::For => "for"@,
            Keyword::While => "while"@,
            Keyword::Loop => "loop"@,
            Keyword::Return => "return"@,
            Keyword::If => "if"@,
            Keyword::Else => "else"@,
            Keyword::In => "in"@,
        },
        TokenKindV::Symbol(sy) => match sy {
            Symbol::OpenBracket => "{"@,
            Symbol::CloseBracket => "}"@,
            Symbol::OpenParen => "("@,
            Symbol::CloseParen => ")"@,
            Symbol::SemiColon => ";"@,
            Symbol::DoubleEqual => "=="@,
            Symbol::Equal => "="@,
            Symbol::Add => "+"@,
            Symbol::Sub => "-"@,
            Symbol::Mul => "*"@,
            Symbol::Div => "/"@,
            Symbol::Pow => "**"@,
            Symbol::AddAssign => "+="@,
            Symbol::SubAssign => "-="@,
            Symbol::MulAssign => "*="@,
            Symbol::DivAssign => "/="@,
            Symbol::SingleQuote => "'"@,
            Symbol::DoubleQuote => "\""@,
            Symbol::Gt => ">"@,
            Symbol::Lt => "<"@,
            Symbol::GtEq => ">="@,
            Symbol::LtEq => "<="@,
            Symbol::Shr => ">>"@,
            Symbol::Shl => "<<"@,
            Symbol::Xor => "^"@,
            Symbol::LogicalAnd => "&&"@,
            Symbol::LogicalOr => "||"@,
            Symbol::BinaryAnd => "&"@,
            Symbol::BinaryOr => "|"@,
        },
        TokenKindV::Literal(l) => match l {
            LiteralV::Bool(b) => if b {
                "true"@
            } else {
                "false"@
            },
            LiteralV::Str(_) => Seq::empty(),
            LiteralV::Int(_) => Seq::empty(),
        },
    }
}

/// The classification table is left-inverse to the canonical spelling:
/// every word is either one of the fixed spellings, whose kind spells back
/// to it, or an identifier carrying its own text.
pub proof fn lemma_canon_text(w: Seq<char>)
    ensures
        canon_text(spec_token_kind(w)) == w,
{
}

/// A word of plain characters (no whitespace, delimiter, operator, quote or
/// digit) only ever accumulates into the pending buffer.
pub open spec fn plain_char(c: char) -> bool {
    &&& c != ' ' && c != '\r' && c != '\t' && c != '\n'
    &&& c != '{' && c != '}' && c != '(' && c != ')' && c != ';' && c != '^'
    &&& c != '+' && c != '-' && c != '"' && c != '='
    &&& c != '&' && c != '|' && c != '*' && c != '/' && c != '>' && c != '<'
    &&& !spec_is_digit(c)
}

/// Scanning plain characters in the `Normal` state, over a plain pending
/// buffer, appends them to the buffer and does nothing else.
proof fn lemma_scan_plain(st: ScanState, w: Seq<char>)
    requires
        st.mode is Neither,
        forall|j: int| 0 <= j < st.buf.len() ==> plain_char(#[trigger] st.buf[j]),
        forall|j: int| 0 <= j < w.len() ==> plain_char(#[trigger] w[j]),
    ensures
        spec_scan(st, w) == Ok::<ScanState, LexError>(
            ScanState { buf: st.buf + w, col: st.col + w.len(), ..st },
        ),
    decreases w.len(),
{
    if w.len() == 0 {
        assert(st.buf + w =~= st.buf);
        assert(ScanState { buf: st.buf + w, col: st.col + w.len(), ..st } == st);
    } else {
        let c = w[0];
        assert(plain_char(c));
        if st.buf.len() == 1 {
            assert(plain_char(st.buf[0]));
        }
        assert(!is_held_op(st.buf));
        let st1 = ScanState { buf: st.buf.push(c), col: st.col + 1, ..st };
        assert(spec_step(st, c) == Ok::<ScanState, LexError>(st1));
        assert forall|j: int| 0 <= j < st1.buf.len() implies plain_char(
            #[trigger] st1.buf[j],
        ) by {
            if j < st.buf.len() {
            } else {
                assert(st1.buf[j] == c);
            }
        }
        lemma_scan_plain(st1, w.drop_first());
        assert(st1.buf + w.drop_first() =~= st.buf + w);
    }
}

/// A nonempty word of plain characters is balanced: it scans to exactly its
/// own classification.
pub proof fn lemma_word_ok_plain(w: Seq<char>)
    requires
        w.len() > 0,
        forall|j: int| 0 <= j < w.len() ==> plain_char(#[trigger] w[j]),
    ensures
        word_ok(w),
{
    assert forall|st: ScanState| word_start(st) implies #[trigger] scan_word_post(st, w) by {
        lemma_scan_plain(st, w);
        assert(st.buf + w =~= w);
        assert(kinds_of(st.toks) + flush_kinds(w) =~= kinds_of(st.toks) + seq![
            spec_token_kind(w),
        ]);
    }
}

/// A single delimiter or operator character is balanced: a delimiter is
/// emitted at once, a bare operator is held back and flushed as itself.
pub proof fn lemma_word_ok_single(c: char)
    requires
        c == '{' || c == '}' || c == '(' || c == ')' || c == ';' || c == '^' || c == '+'
            || c == '-' || c == '=' || c == '&' || c == '|' || c == '*' || c == '/' || c
            == '>' || c == '<',
    ensures
        word_ok(seq![c]),
{
    let w = seq![c];
    assert(w.len() == 1);
    assert forall|st: ScanState| word_start(st) implies #[trigger] scan_word_post(st, w) by {
        lemma_scan_one(st, c);
        let stc = ScanState { col: st.col + 1, ..st };
        if c == '{' || c == '}' || c == '(' || c == ')' || c == ';' || c == '^' {
            let e = emit(flush_word(stc), spec_token_kind(seq![c]));
            assert(spec_step(st, c) == Ok::<ScanState, LexError>(e));
            assert(kinds_of(e.toks) =~= kinds_of(st.toks) + seq![spec_token_kind(seq![c])]);
            assert(kinds_of(e.toks) + flush_kinds(e.buf) =~= kinds_of(e.toks));
        } else {
            let r = spec_scan(st, seq![c]);
            assert(r is Ok && r->Ok_0.buf == seq![c]);
            assert(kinds_of(r->Ok_0.toks) + flush_kinds(seq![c]) =~= kinds_of(st.toks)
                + seq![spec_token_kind(seq![c])]);
        }
    }
}

/// A doubled operator is balanced: the first character is held back, the
/// second completes and emits the doubled symbol.
pub proof fn lemma_word_ok_double(c: char)
    requires
        c == '&' || c == '|' || c == '*' || c == '/' || c == '>' || c == '<',
    ensures
        word_ok(seq![c, c]),
{
    let w = seq![c, c];
    assert forall|st: ScanState| word_start(st) implies #[trigger] scan_word_post(st, w) by {
        assert(seq![c, c] =~= seq![c] + seq![c]);
        lemma_scan_append(st, seq![c], seq![c]);
        lemma_scan_one(st, c);
        let st1 = spec_scan(st, seq![c])->Ok_0;
        assert(st1.buf == seq![c]);
        lemma_scan_one(st1, c);
        let e = spec_scan(st1, seq![c])->Ok_0;
        assert(e.buf.len() == 0);
        assert(kinds_of(e.toks) =~= kinds_of(st.toks) + seq![spec_token_kind(seq![c, c])]);
        assert(kinds_of(e.toks) + flush_kinds(e.buf) =~= kinds_of(e.toks));
    }
}

/// A compound assignment or comparison written with a trailing `=` is
/// balanced: the head character is held back, the `=` completes it.
pub proof fn lemma_word_ok_compound(c: char)
    requires
        c == '=' || c == '+' || c == '-' || c == '*' || c == '/' || c == '<' || c == '>',
    ensures
        word_ok(seq![c, '=']),
{
    let w = seq![c, '='];
    assert forall|st: ScanState| word_start(st) implies #[trigger] scan_word_post(st, w) by {
        assert(seq![c, '='] =~= seq![c] + seq!['=']);
        lemma_scan_append(st, seq![c], seq!['=']);
        lemma_scan_one(st, c);
        let st1 = spec_scan(st, seq![c])->Ok_0;
        assert(st1.buf == seq![c]);
        lemma_scan_one(st1, '=');
        assert(is_compound_head(st1.buf));
        let e = spec_scan(st1, seq!['='])->Ok_0;
        assert(e.buf.len() == 0);
        assert(st1.buf.push('=') =~= seq![c, '=']);
        assert(kinds_of(e.toks) =~= kinds_of(st.toks) + seq![
            spec_token_kind(seq![c, '=']),
        ]);
        assert(kinds_of(e.toks) + flush_kinds(e.buf) =~= kinds_of(e.toks));
    }
}

/// Scanning balanced words joined by single spaces yields exactly one token
/// per word, each the word's own classification, in order.
pub proof fn lemma_scan_words(st: ScanState, words: Seq<Seq<char>>)
    requires
        word_start(st),
        forall|i: int| 0 <= i < words.len() ==> word_ok(#[trigger] words[i]),
    ensures
        ({
            let r = spec_scan(st, join_spaces(words));
            &&& r is Ok
            &&& r->Ok_0.mode is Neither
            &&& r->Ok_0.base == 10
            &&& kinds_of(r->Ok_0.toks) + flush_kinds(r->Ok_0.buf) == kinds_of(st.toks)
                + words.map_values(|w: Seq<char>| spec_token_kind(w))
        }),
    decreases words.len(),
{
    let ks = words.map_values(|w: Seq<char>| spec_token_kind(w));
    if words.len() == 0 {
        assert(spec_scan(st, join_spaces(words)) == Ok::<ScanState, LexError>(st));
        assert(kinds_of(st.toks) + flush_kinds(st.buf) =~= kinds_of(st.toks) + ks);
    } else if words.len() == 1 {
        assert(word_ok(words[0]));
        assert(scan_word_post(st, words[0]));
        assert(kinds_of(st.toks) + seq![spec_token_kind(words[0])] =~= kinds_of(st.toks)
            + ks);
    } else {
        let w0 = words[0];
        let rest = words.drop_first();
        let tail_text = seq![' '] + join_spaces(rest);
        assert(join_spaces(words) =~= w0 + tail_text);
        lemma_scan_append(st, w0, tail_text);
        assert(word_ok(w0));
        assert(scan_word_post(st, w0));
        let st1 = spec_scan(st, w0)->Ok_0;
        lemma_scan_append(st1, seq![' '], join_spaces(rest));
        lemma_scan_one(st1, ' ');
        let stc = ScanState { col: st1.col + 1, ..st1 };
        let st2 = flush_word(stc);
        assert(spec_step(st1, ' ') == Ok::<ScanState, LexError>(st2));
        assert(kinds_of(st2.toks) =~= kinds_of(st1.toks) + flush_kinds(st1.buf));
        assert(word_start(st2));
        assert(forall|i: int| 0 <= i < rest.len() ==> word_ok(#[trigger] rest[i]));
        lemma_scan_words(st2, rest);
        let r = spec_scan(st2, join_spaces(rest));
        let rk = rest.map_values(|w: Seq<char>| spec_token_kind(w));
        assert(ks =~= seq![spec_token_kind(w0)] + rk);
        assert(kinds_of(st2.toks) + rk =~= (kinds_of(st1.toks) + flush_kinds(st1.buf))
            + rk);
        assert(kinds_of(r->Ok_0.toks) + flush_kinds(r->Ok_0.buf) =~= kinds_of(st.toks)
            + ks);
    }
}

/// The token kinds of a whole scan of a text, end flush included, from the
/// origin configuration; `None` where the scan reports a malformed literal.
pub open spec fn scan_kinds(s: Seq<char>) -> Option<Seq<TokenKindV>> {
    match spec_scan(init_scan_state(PosV { row: 0, col: 0 }), s) {
        Ok(st) => match spec_finish(st) {
            Ok(st1) => Some(kinds_of(st1.toks)),
            Err(_) => None,
        },
        Err(_) => None,
    }
}

/// Round trip on token kinds: scanning balanced words joined by single
/// spaces yields their classifications; concatenating each token kind's
/// canonical text, spaces reinserted, reproduces the source words; and
/// scanning that reconstruction yields the same kinds again.
pub proof fn lemma_words_round_trip(words: Seq<Seq<char>>)
    requires
        forall|i: int| 0 <= i < words.len() ==> word_ok(#[trigger] words[i]),
    ensures
        ({
            let ks = words.map_values(|w: Seq<char>| spec_token_kind(w));
            &&& scan_kinds(join_spaces(words)) == Some(ks)
            &&& ks.map_values(|k: TokenKindV| canon_text(k)) == words
            &&& scan_kinds(join_spaces(ks.map_values(|k: TokenKindV| canon_text(k))))
                == Some(ks)
        }),
{
    let init = init_scan_state(PosV { row: 0, col: 0 });
    let ks = words.map_values(|w: Seq<char>| spec_token_kind(w));
    lemma_scan_words(init, words);
    let st = spec_scan(init, join_spaces(words))->Ok_0;
    assert(spec_finish(st) == Ok::<ScanState, LexError>(flush_word(st)));
    assert(kinds_of(flush_word(st).toks) =~= kinds_of(st.toks) + flush_kinds(st.buf));
    assert(kinds_of(init.toks) =~= Seq::<TokenKindV>::empty());
    assert(kinds_of(st.toks) + flush_kinds(st.buf) =~= ks);
    let canon_words = ks.map_values(|k: TokenKindV| canon_text(k));
    assert forall|i: int| 0 <= i < ks.len() implies #[trigger] canon_words[i] == words[i] by {
        lemma_canon_text(words[i]);
    }
    assert(canon_words =~= words);
}

/// Append one completed token to the output.
fn push_token(tokens: &mut Vec<Token>, kind: TokenKind, pos: Pos)
    ensures
        toks_of(final(tokens)@) == toks_of(old(tokens)@).push(TokenV { kind: kind@, pos: pos@ }),
{
    let t = Token::new(kind, pos);
    let ghost tg = t;
    let ghost tv = tokens@;
    tokens.push(t);
    proof {
        lemma_toks_of_push(tv, tg);
    }
}

/// Flush the pending buffer as a classified word, if it is nonempty.
fn flush_buf(tokens: &mut Vec<Token>, buf: &mut String, pos: Pos)
    ensures
        old(buf)@.len() == 0 ==> final(tokens)@ == old(tokens)@ && final(buf)@ == old(buf)@,
        old(buf)@.len() > 0 ==> toks_of(final(tokens)@) == toks_of(old(tokens)@).push(
            TokenV { kind: spec_token_kind(old(buf)@), pos: pos@ },
        ) && final(buf)@ == Seq::<char>::empty(),
{
    if buf.as_str().unicode_len() != 0 {
        let kind = TokenKind::new(buf.as_str());
        push_token(tokens, kind, pos);
        *buf = String::new();
    }
}

impl Lexer {
    /// Scan raw source text into an ordered token sequence: strip comments,
    /// run the three-state machine over every character, and flush whatever
    /// remains pending at end of input. The cursor continues from wherever
    /// the previous input left it. A malformed integer literal is reported
    /// as the matching [`LexError`], exactly as [`spec_lex`] states.
    pub fn lex(&mut self, s: &str) -> (r: Result<Vec<Token>, LexError>)
        requires
            old(self)@.col + s@.len() <= usize::MAX,
            old(self)@.row + s@.len() <= usize::MAX,
        ensures
            spec_lex(s@, old(self)@) matches Ok(ok) ==> {
                &&& r matches Ok(v) && toks_of(v@) == ok.0
                &&& final(self)@ == ok.1
            },
            spec_lex(s@, old(self)@) matches Err(e) ==> r == Err::<Vec<Token>, LexError>(e),
    {
        let stripped_string = Lexer::strip_comments(s);
        let stripped = stripped_string.as_str();
        let ghost text = stripped@;
        let n = stripped.unicode_len();
        let ghost init = init_scan_state(old(self)@);
        let mut tokens: Vec<Token> = Vec::new();
        let mut buf = String::new();
        let mut literal = LiteralType::Neither;
        let mut base: u64 = 10;
        let mut i: usize = 0;
        proof {
            lemma_strip_len(s@);
            assert(text.take(0) =~= Seq::<char>::empty());
            assert(toks_of(Seq::<Token>::empty()) =~= Seq::<TokenV>::empty());
        }
        while i < n
            invariant
                n == text.len(),
                stripped@ == text,
                text == spec_strip(s@),
                i <= n,
                base == 10 || base == 16,
                old(self)@.col + n <= usize::MAX,
                old(self)@.row + n <= usize::MAX,
                self@.col <= old(self)@.col + i,
                self@.row <= old(self)@.row + i,
                init == init_scan_state(old(self)@),
                spec_scan(init, text.take(i as int)) == Ok::<ScanState, LexError>(
                    ScanState {
                        mode: literal,
                        buf: buf@,
                        base: base as nat,
                        row: self@.row,
                        col: self@.col,
                        toks: toks_of(tokens@),
                    },
                ),
            decreases n - i,
        {
            let ghost prev = ScanState {
                mode: literal,
                buf: buf@,
                base: base as nat,
                row: self@.row,
                col: self@.col,
                toks: toks_of(tokens@),
            };
            let c = stripped.get_char(i);
            self.pos.col = self.pos.col + 1;
            let ghost stc = ScanState { col: prev.col + 1, ..prev };
            let ghost mut pre_normal = stc;
            let mut redispatch = false;
            match literal {
                LiteralType::Str => {
                    if c == '"' {
                        let done = buf;
                        push_token(
                            &mut tokens,
                            TokenKind::Literal(Literal::Str(done)),
                            self.pos,
                        );
                        buf = String::new();
                        literal = LiteralType::Neither;
                    } else {
                        buf.append(stripped.substring_char(i, i + 1));
                        proof {
                            assert(buf@ =~= stc.buf.push(c));
                        }
                    }
                },
                LiteralType::Int => {
                    if is_digit_char(c) {
                        buf.append(stripped.substring_char(i, i + 1));
                        proof {
                            assert(buf@ =~= stc.buf.push(c));
                        }
                    } else if is_hex_letter_char(c) {
                        if base == 16 {
                            buf.append(stripped.substring_char(i, i + 1));
                            proof {
                                assert(buf@ =~= stc.buf.push(c));
                            }
                        } else {
                            proof {
                                assert(spec_step(prev, c) == Err::<ScanState, LexError>(
                                    LexError::StrayHexDigit,
                                ));
                                lemma_scan_append(init, text.take(i as int), seq![c]);
                                assert(text.take(i as int + 1) =~= text.take(i as int)
                                    + seq![c]);
                                assert(seq![c].drop_first() =~= Seq::<char>::empty());
                                lemma_scan_append(
                                    init,
                                    text.take(i as int + 1),
                                    text.skip(i as int + 1),
                                );
                                assert(text.take(i as int + 1) + text.skip(i as int + 1)
                                    =~= text);
                            }
                            return Err(LexError::StrayHexDigit);
                        }
                    } else if c == 'x' {
                        let zl = buf.as_str().unicode_len();
                        let mut zero = false;
                        if zl == 1 {
                            zero = buf.as_str().get_char(0) == '0';
                        }
                        proof {
                            if zl == 1 {
                                assert(buf@ =~= seq![buf@[0]]);
                            }
                            assert(zero == (stc.buf == seq!['0']));
                        }
                        if zero {
                            buf = String::new();
                            base = 16;
                        } else {
                            proof {
                                assert(spec_step(prev, c) == Err::<ScanState, LexError>(
                                    LexError::StrayHexMarker,
                                ));
                                lemma_scan_append(init, text.take(i as int), seq![c]);
                                assert(text.take(i as int + 1) =~= text.take(i as int)
                                    + seq![c]);
                                assert(seq![c].drop_first() =~= Seq::<char>::empty());
                                lemma_scan_append(
                                    init,
                                    text.take(i as int + 1),
                                    text.skip(i as int + 1),
                                );
                                assert(text.take(i as int + 1) + text.skip(i as int + 1)
                                    =~= text);
                            }
                            return Err(LexError::StrayHexMarker);
                        }
                    } else {
                        match parse_digits(buf.as_str(), base) {
                            Ok(v) => {
                                push_token(
                                    &mut tokens,
                                    TokenKind::Literal(Literal::Int(v)),
                                    self.pos,
                                );
                                base = 10;
                                buf = String::new();
                                literal = LiteralType::Neither;
                                proof {
                                    pre_normal = spec_close_int(stc)->Ok_0;
                                }
                                redispatch = true;
                            },
                            Err(e) => {
                                proof {
                                    assert(spec_close_int(stc) == Err::<
                                        ScanState,
                                        LexError,
                                    >(e));
                                    assert(spec_step(prev, c) == Err::<
                                        ScanState,
                                        LexError,
                                    >(e));
                                    lemma_scan_append(init, text.take(i as int), seq![c]);
                                    assert(text.take(i as int + 1) =~= text.take(i as int)
                                        + seq![c]);
                                    assert(seq![c].drop_first() =~= Seq::<char>::empty());
                                    lemma_scan_append(
                                        init,
                                        text.take(i as int + 1),
                                        text.skip(i as int + 1),
                                    );
                                    assert(text.take(i as int + 1) + text.skip(
                                        i as int + 1,
                                    ) =~= text);
                                }
                                return Err(e);
                            },
                        }
                    }
                },
                LiteralType::Neither => {
                    redispatch = true;
                },
            }
            if redispatch {
                proof {
                    assert(ScanState {
                        mode: literal,
                        buf: buf@,
                        base: base as nat,
                        row: self@.row,
                        col: self@.col,
                        toks: toks_of(tokens@),
                    } == pre_normal);
                }
                if c == ' ' || c == '\r' || c == '\t' {
                    flush_buf(&mut tokens, &mut buf, self.pos);
                } else if c == '\n' {
                    flush_buf(&mut tokens, &mut buf, self.pos);
                    self.pos.row = self.pos.row + 1;
                    self.pos.col = 0;
                } else if c == '{' || c == '}' || c == '(' || c == ')' || c == ';' || c == '^' {
                    flush_buf(&mut tokens, &mut buf, self.pos);
                    let cs = stripped.substring_char(i, i + 1);
                    proof {
                        assert(cs@ =~= seq![c]);
                    }
                    push_token(&mut tokens, TokenKind::new(cs), self.pos);
                } else if c == '+' || c == '-' {
                    flush_buf(&mut tokens, &mut buf, self.pos);
                    buf = stripped.substring_char(i, i + 1).to_owned();
                    proof {
                        assert(buf@ =~= seq![c]);
                    }
                } else if c == '"' {
                    literal = LiteralType::Str;
                } else if c == '=' {
                    let hl = buf.as_str().unicode_len();
                    let mut head = false;
                    if hl == 1 {
                        let b0 = buf.as_str().get_char(0);
                        head = b0 == '=' || b0 == '+' || b0 == '-' || b0 == '*' || b0 == '/'
                            || b0 == '<' || b0 == '>';
                    }
                    proof {
                        if hl == 1 {
                            assert(buf@ =~= seq![buf@[0]]);
                        }
                        assert(head == is_compound_head(pre_normal.buf));
                    }
                    if head {
                        let ghost bpre = buf@;
                        proof {
                            reveal_strlit("=");
                        }
                        buf.append("=");
                        proof {
                            assert(buf@ =~= bpre.push('='));
                        }
                        let kind = TokenKind::new(buf.as_str());
                        push_token(&mut tokens, kind, self.pos);
                        buf = String::new();
                    } else {
                        flush_buf(&mut tokens, &mut buf, self.pos);
                        buf = stripped.substring_char(i, i + 1).to_owned();
                        proof {
                            assert(buf@ =~= seq![c]);
                        }
                    }
                } else if c == '&' || c == '|' || c == '*' || c == '/' || c == '>' || c == '<' {
                    let dl = buf.as_str().unicode_len();
                    let mut dbl = false;
                    if dl == 1 {
                        dbl = buf.as_str().get_char(0) == c;
                    }
                    proof {
                        if dl == 1 {
                            assert(buf@ =~= seq![buf@[0]]);
                        }
                        assert(dbl == (pre_normal.buf == seq![c]));
                    }
                    if dbl {
                        buf.append(stripped.substring_char(i, i + 1));
                        proof {
                            assert(buf@ =~= seq![c, c]);
                        }
                        let kind = TokenKind::new(buf.as_str());
                        push_token(&mut tokens, kind, self.pos);
                        buf = String::new();
                    } else {
                        flush_buf(&mut tokens, &mut buf, self.pos);
                        buf = stripped.substring_char(i, i + 1).to_owned();
                        proof {
                            assert(buf@ =~= seq![c]);
                        }
                    }
                } else if is_digit_char(c) {
                    flush_buf(&mut tokens, &mut buf, self.pos);
                    literal = LiteralType::Int;
                    buf = stripped.substring_char(i, i + 1).to_owned();
                    proof {
                        assert(buf@ =~= seq![c]);
                    }
                } else {
                    let hl = buf.as_str().unicode_len();
                    let mut held = false;
                    if hl == 1 {
                        let b0 = buf.as_str().get_char(0);
                        held = b0 == '=' || b0 == '&' || b0 == '|' || b0 == '*' || b0 == '/'
                            || b0 == '<' || b0 == '>' || b0 == '+' || b0 == '-';
                    }
                    proof {
                        if hl == 1 {
                            assert(buf@ =~= seq![buf@[0]]);
                        }
                        assert(held == is_held_op(pre_normal.buf));
                    }
                    let ghost bmid = if is_held_op(pre_normal.buf) {
                        Seq::<char>::empty()
                    } else {
                        pre_normal.buf
                    };
                    if held {
                        flush_buf(&mut tokens, &mut buf, self.pos);
                    }
                    buf.append(stripped.substring_char(i, i + 1));
                    proof {
                        assert(buf@ =~= bmid.push(c));
                    }
                }
                proof {
                    assert(ScanState {
                        mode: literal,
                        buf: buf@,
                        base: base as nat,
                        row: self@.row,
                        col: self@.col,
                        toks: toks_of(tokens@),
                    } == spec_step_normal(pre_normal, c));
                }
            }
            proof {
                assert(spec_step(prev, c) == Ok::<ScanState, LexError>(
                    ScanState {
                        mode: literal,
                        buf: buf@,
                        base: base as nat,
                        row: self@.row,
                        col: self@.col,
                        toks: toks_of(tokens@),
                    },
                ));
                lemma_scan_append(init, text.take(i as int), seq![c]);
                lemma_scan_one(prev, c);
                assert(text.take(i as int + 1) =~= text.take(i as int) + seq![c]);
                assert(spec_scan(init, text.take(i as int + 1)) == spec_scan(prev, seq![c]));
            }
            i = i + 1;
        }
        proof {
            assert(text.take(n as int) =~= text);
        }
        let ghost endst = ScanState {
            mode: literal,
            buf: buf@,
            base: base as nat,
            row: self@.row,
            col: self@.col,
            toks: toks_of(tokens@),
        };
        match literal {
            LiteralType::Int => {
                match parse_digits(buf.as_str(), base) {
                    Ok(v) => {
                        push_token(
                            &mut tokens,
                            TokenKind::Literal(Literal::Int(v)),
                            self.pos,
                        );
                    },
                    Err(e) => {
                        proof {
                            assert(spec_finish(endst) == Err::<ScanState, LexError>(e));
                        }
                        return Err(e);
                    },
                }
            },
            LiteralType::Str => {
                let done = buf;
                push_token(&mut tokens, TokenKind::Literal(Literal::Str(done)), self.pos);
            },
            LiteralType::Neither => {
                flush_buf(&mut tokens, &mut buf, self.pos);
            },
        }
        proof {
            assert(spec_finish(endst) matches Ok(st1) && st1.toks == toks_of(tokens@)
                && st1.row == self@.row && st1.col == self@.col);
        }
        Ok(tokens)
    }
}

} // verus!
