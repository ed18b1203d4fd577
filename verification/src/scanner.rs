//! The two-mode character scanner.
//!
//! The scanner pulls characters from a [`Source`] through a buffering
//! [`BufferStream`] (multi-character lookahead) and emits one [`Token`]
//! per call to [`Scanner::scan`].  In `Text` mode every character is
//! literal text except the special characters `; ( ) [ ] $`, and
//! consecutive literal characters coalesce into a single `Text` token.
//! In `Expr` mode the scanner reads decimal integers, identifiers and
//! keywords.  The function [`spec_scan`] is the mathematical model of one
//! scan step, and `scan`'s contract ties the implementation to it.

use vstd::prelude::*;

use crate::result::{Error, SpecError};
use crate::util::{BufferStream, Source, Stream, StreamItem};

verus! {

// ---------------------------------------------------------------------
// Character classes
// ---------------------------------------------------------------------

/// Whether `c` has the Unicode `Alphabetic` property, as decided by
/// `char::is_alphabetic`.
pub uninterp spec fn alphabetic(c: char) -> bool;

/// Whether `c` is alphanumeric, as decided by `char::is_alphanumeric`.
pub uninterp spec fn alphanumeric(c: char) -> bool;

/// An ASCII letter `a..z` or `A..Z`.
pub open spec fn ascii_letter(c: char) -> bool {
    (97 <= (c as u32) && (c as u32) <= 122) || (65 <= (c as u32) && (c as u32) <= 90)
}

/// An ASCII decimal digit `0..9`.
pub open spec fn digit_char(c: char) -> bool {
    48 <= (c as u32) && (c as u32) <= 57
}

/// The numeric value of an ASCII decimal digit.
pub open spec fn digit_val(c: char) -> int {
    (c as u32) - 48
}

/// Relies on `char::is_alphabetic`: true exactly for characters with the
/// Unicode `Alphabetic` property.  Within ASCII the alphabetic characters
/// are precisely the letters.
#[verifier::external_body]
fn char_is_alphabetic(c: char) -> (r: bool)
    ensures
        r == alphabetic(c),
        (c as u32) < 128 ==> (r <==> ascii_letter(c)),
{
    c.is_alphabetic()
}

/// Relies on `char::is_alphanumeric`: true exactly for characters that are
/// alphabetic or numeric.  Within ASCII the alphanumeric characters are
/// precisely the letters and the decimal digits.
#[verifier::external_body]
fn char_is_alphanumeric(c: char) -> (r: bool)
    ensures
        r == alphanumeric(c),
        (c as u32) < 128 ==> (r <==> (ascii_letter(c) || digit_char(c))),
{
    c.is_alphanumeric()
}

/// A character that can begin an identifier.
pub open spec fn ident_start_char(c: char) -> bool {
    alphabetic(c) || c == '_'
}

/// A character that can continue an identifier.
pub open spec fn ident_part_char(c: char) -> bool {
    alphanumeric(c) || c == '_'
}

/// A whitespace character of the source language.
pub open spec fn whitespace_char(c: char) -> bool {
    c == '\n' || c == '\r' || c == '\t' || c == ' '
}

/// A character that is special in `Text` mode.
pub open spec fn is_special_char(c: char) -> bool {
    c == ';' || c == '(' || c == ')' || c == '[' || c == ']' || c == '$'
}

pub fn is_whitespace(ch: char) -> (r: bool)
    ensures
        r == whitespace_char(ch),
{
    ch == '\n' || ch == '\r' || ch == '\t' || ch == ' '
}

pub fn is_ident_start(ch: char) -> (r: bool)
    ensures
        r == ident_start_char(ch),
{
    char_is_alphabetic(ch) || ch == '_'
}

pub fn is_ident_part(ch: char) -> (r: bool)
    ensures
        r == ident_part_char(ch),
{
    char_is_alphanumeric(ch) || ch == '_'
}

fn is_special(ch: char) -> (r: bool)
    ensures
        r == is_special_char(ch),
{
    ch == ';' || ch == '(' || ch == ')' || ch == '[' || ch == ']' || ch == '$'
}

/// Relies on `String::push`: appends exactly one character at the end.
#[verifier::external_body]
fn push_char(s: &mut String, c: char)
    ensures
        final(s)@ == old(s)@.push(c),
{
    s.push(c);
}

// ---------------------------------------------------------------------
// Maximal runs of characters satisfying a predicate
// ---------------------------------------------------------------------

/// The maximal prefix of `cs` whose characters all satisfy `p`.
pub open spec fn pred_run(p: spec_fn(char) -> bool, cs: Seq<char>) -> Seq<char>
    decreases cs.len(),
{
    if cs.len() == 0 || !p(cs[0]) {
        Seq::empty()
    } else {
        seq![cs[0]] + pred_run(p, cs.drop_first())
    }
}

/// The predicate satisfied by literal text characters in `Text` mode.
pub open spec fn text_p() -> spec_fn(char) -> bool {
    |c: char| !is_special_char(c)
}

/// The predicate satisfied by identifier continuation characters.
pub open spec fn ident_part_p() -> spec_fn(char) -> bool {
    |c: char| ident_part_char(c)
}

/// The predicate satisfied by decimal digits.
pub open spec fn digit_p() -> spec_fn(char) -> bool {
    |c: char| digit_char(c)
}

/// The maximal literal text run at the front of `cs`.
pub open spec fn text_run(cs: Seq<char>) -> Seq<char> {
    pred_run(text_p(), cs)
}

/// The maximal identifier continuation run at the front of `cs`.
pub open spec fn ident_run(cs: Seq<char>) -> Seq<char> {
    pred_run(ident_part_p(), cs)
}

/// The maximal digit run at the front of `cs`.
pub open spec fn digit_run(cs: Seq<char>) -> Seq<char> {
    pred_run(digit_p(), cs)
}

/// The identifier scanned from the front of `cs`: its first character
/// (assumed to be an identifier start) followed by the maximal run of
/// identifier continuation characters.
pub open spec fn ident_of(cs: Seq<char>) -> Seq<char>
    recommends
        cs.len() > 0,
{
    seq![cs[0]] + ident_run(cs.drop_first())
}

pub proof fn lemma_pred_run_len(p: spec_fn(char) -> bool, cs: Seq<char>)
    ensures
        pred_run(p, cs).len() <= cs.len(),
    decreases cs.len(),
{
    if cs.len() == 0 || !p(cs[0]) {
    } else {
        lemma_pred_run_len(p, cs.drop_first());
    }
}

pub proof fn lemma_pred_run_all(p: spec_fn(char) -> bool, cs: Seq<char>)
    requires
        forall|i: int| 0 <= i < cs.len() ==> p(#[trigger] cs[i]),
    ensures
        pred_run(p, cs) == cs,
    decreases cs.len(),
{
    if cs.len() == 0 {
        assert(pred_run(p, cs) =~= cs);
    } else {
        lemma_pred_run_all(p, cs.drop_first());
        assert(pred_run(p, cs) =~= cs);
    }
}

/// Skipping `a` characters and then `b` more skips `a + b`.
pub proof fn lemma_skip_skip(s: Seq<char>, a: int, b: int)
    requires
        0 <= a,
        0 <= b,
        a + b <= s.len(),
    ensures
        s.skip(a).skip(b) == s.skip(a + b),
{
    assert(s.skip(a).skip(b) =~= s.skip(a + b));
}

// ---------------------------------------------------------------------
// Tokens
// ---------------------------------------------------------------------

/// A character pulled from the character layer: either a source character
/// or the explicit end-of-input marker.  End of input is represented as a
/// state of its own rather than as a reserved code point, so no legitimate
/// source character can be mistaken for it.
#[derive(Clone, Copy, PartialEq, Eq, Structural, Debug)]
pub enum CharItem {
    Ch(char),
    End,
}

impl StreamItem for CharItem {
    type A = CharItem;

    open spec fn abs(&self) -> CharItem {
        *self
    }

    fn dup(&self) -> (r: Self) {
        *self
    }
}

/// A half-open source offset range `[start, end)`, counted in Unicode
/// scalar values.
#[derive(Clone, Copy, PartialEq, Eq, Structural, Debug)]
pub struct Span {
    pub start: usize,
    pub end: usize,
}

/// The kind of a token, without its payload.
#[derive(Clone, Copy, PartialEq, Eq, Structural, Debug)]
pub enum TokenKind {
    Ident,
    Text,
    Dollar,
    DollarDollar,
    DollarIdent,
    LParen,
    RParen,
    LBracket,
    RBracket,
    Integer,
    IfKeyword,
    ElifKeyword,
    ElseKeyword,
    FiKeyword,
    ForKeyword,
    WhileKeyword,
    UntilKeyword,
    CaseKeyword,
    EsacKeyword,
    FunctionKeyword,
    DoKeyword,
    DoneKeyword,
    Semi,
    SemiSemi,
    EOF,
    NewLine,
}

/// The smallest lexical unit produced by the scanner.
///
/// The keyword variants `ElifKeyword`, `ElseKeyword`, `UntilKeyword` and
/// `FunctionKeyword` are declared for the full keyword surface of the
/// language but are not produced by the current classification rule.
#[derive(Debug, PartialEq, Eq)]
pub enum Token {
    Ident(String),
    Text(String),
    Dollar,
    DollarDollar,
    DollarIdent(String),
    LParen,
    RParen,
    LBracket,
    RBracket,
    Integer(i64),
    IfKeyword,
    ElifKeyword,
    ElseKeyword,
    FiKeyword,
    ForKeyword,
    WhileKeyword,
    UntilKeyword,
    CaseKeyword,
    EsacKeyword,
    FunctionKeyword,
    DoKeyword,
    DoneKeyword,
    Semi,
    SemiSemi,
    EOF,
    NewLine,
}

/// The abstract value of a [`Token`], with text payloads as character
/// sequences.
pub enum SpecToken {
    Ident(Seq<char>),
    Text(Seq<char>),
    Dollar,
    DollarDollar,
    DollarIdent(Seq<char>),
    LParen,
    RParen,
    LBracket,
    RBracket,
    Integer(i64),
    IfKeyword,
    ElifKeyword,
    ElseKeyword,
    FiKeyword,
    ForKeyword,
    WhileKeyword,
    UntilKeyword,
    CaseKeyword,
    EsacKeyword,
    FunctionKeyword,
    DoKeyword,
    DoneKeyword,
    Semi,
    SemiSemi,
    EOF,
    NewLine,
}

impl DeepView for Token {
    type V = SpecToken;

    open spec fn deep_view(&self) -> SpecToken {
        match self {
            Token::Ident(s) => SpecToken::Ident(s@),
            Token::Text(s) => SpecToken::Text(s@),
            Token::Dollar => SpecToken::Dollar,
            Token::DollarDollar => SpecToken::DollarDollar,
            Token::DollarIdent(s) => SpecToken::DollarIdent(s@),
            Token::LParen => SpecToken::LParen,
            Token::RParen => SpecToken::RParen,
            Token::LBracket => SpecToken::LBracket,
            Token::RBracket => SpecToken::RBracket,
            Token::Integer(v) => SpecToken::Integer(*v),
            Token::IfKeyword => SpecToken::IfKeyword,
            Token::ElifKeyword => SpecToken::ElifKeyword,
            Token::ElseKeyword => SpecToken::ElseKeyword,
            Token::FiKeyword => SpecToken::FiKeyword,
            Token::ForKeyword => SpecToken::ForKeyword,
            Token::WhileKeyword => SpecToken::WhileKeyword,
            Token::UntilKeyword => SpecToken::UntilKeyword,
            Token::CaseKeyword => SpecToken::CaseKeyword,
            Token::EsacKeyword => SpecToken::EsacKeyword,
            Token::FunctionKeyword => SpecToken::FunctionKeyword,
            Token::DoKeyword => SpecToken::DoKeyword,
            Token::DoneKeyword => SpecToken::DoneKeyword,
            Token::Semi => SpecToken::Semi,
            Token::SemiSemi => SpecToken::SemiSemi,
            Token::EOF => SpecToken::EOF,
            Token::NewLine => SpecToken::NewLine,
        }
    }
}

impl Token {
    pub fn dup(&self) -> (r: Self)
        ensures
            r.deep_view() == self.deep_view(),
    {
        match self {
            Token::Ident(s) => Token::Ident(s.clone()),
            Token::Text(s) => Token::Text(s.clone()),
            Token::Dollar => Token::Dollar,
            Token::DollarDollar => Token::DollarDollar,
            Token::DollarIdent(s) => Token::DollarIdent(s.clone()),
            Token::LParen => Token::LParen,
            Token::RParen => Token::RParen,
            Token::LBracket => Token::LBracket,
            Token::RBracket => Token::RBracket,
            Token::Integer(v) => Token::Integer(*v),
            Token::IfKeyword => Token::IfKeyword,
            Token::ElifKeyword => Token::ElifKeyword,
            Token::ElseKeyword => Token::ElseKeyword,
            Token::FiKeyword => Token::FiKeyword,
            Token::ForKeyword => Token::ForKeyword,
            Token::WhileKeyword => Token::WhileKeyword,
            Token::UntilKeyword => Token::UntilKeyword,
            Token::CaseKeyword => Token::CaseKeyword,
            Token::EsacKeyword => Token::EsacKeyword,
            Token::FunctionKeyword => Token::FunctionKeyword,
            Token::DoKeyword => Token::DoKeyword,
            Token::DoneKeyword => Token::DoneKeyword,
            Token::Semi => Token::Semi,
            Token::SemiSemi => Token::SemiSemi,
            Token::EOF => Token::EOF,
            Token::NewLine => Token::NewLine,
        }
    }
}

// ---------------------------------------------------------------------
// Keyword classification
// ---------------------------------------------------------------------

pub open spec fn kw_if() -> Seq<char> {
    seq!['i', 'f']
}

pub open spec fn kw_fi() -> Seq<char> {
    seq!['f', 'i']
}

pub open spec fn kw_for() -> Seq<char> {
    seq!['f', 'o', 'r']
}

pub open spec fn kw_while() -> Seq<char> {
    seq!['w', 'h', 'i', 'l', 'e']
}

pub open spec fn kw_do() -> Seq<char> {
    seq!['d', 'o']
}

pub open spec fn kw_done() -> Seq<char> {
    seq!['d', 'o', 'n', 'e']
}

pub open spec fn kw_case() -> Seq<char> {
    seq!['c', 'a', 's', 'e']
}

pub open spec fn kw_esac() -> Seq<char> {
    seq!['e', 's', 'a', 'c']
}

/// Whether `id` is one of the keywords recognized in `Expr` mode.
pub open spec fn is_keyword(id: Seq<char>) -> bool {
    id == kw_if() || id == kw_fi() || id == kw_for() || id == kw_while() || id == kw_do()
        || id == kw_done() || id == kw_case() || id == kw_esac()
}

/// Classify a scanned identifier against the keyword table, falling back
/// to a generic identifier token carrying the exact text matched.
pub open spec fn spec_classify(id: Seq<char>) -> SpecToken {
    if id == kw_if() {
        SpecToken::IfKeyword
    } else if id == kw_fi() {
        SpecToken::FiKeyword
    } else if id == kw_for() {
        SpecToken::ForKeyword
    } else if id == kw_while() {
        SpecToken::WhileKeyword
    } else if id == kw_do() {
        SpecToken::DoKeyword
    } else if id == kw_done() {
        SpecToken::DoneKeyword
    } else if id == kw_case() {
        SpecToken::CaseKeyword
    } else if id == kw_esac() {
        SpecToken::EsacKeyword
    } else {
        SpecToken::Ident(id)
    }
}

fn classify_ident(text: String) -> (t: Token)
    ensures
        t.deep_view() == spec_classify(text@),
{
    proof {
        reveal_strlit("if");
        reveal_strlit("fi");
        reveal_strlit("for");
        reveal_strlit("while");
        reveal_strlit("do");
        reveal_strlit("done");
        reveal_strlit("case");
        reveal_strlit("esac");
        assert("if"@ =~= kw_if());
        assert("fi"@ =~= kw_fi());
        assert("for"@ =~= kw_for());
        assert("while"@ =~= kw_while());
        assert("do"@ =~= kw_do());
        assert("done"@ =~= kw_done());
        assert("case"@ =~= kw_case());
        assert("esac"@ =~= kw_esac());
    }
    if text == "if".to_owned() {
        Token::IfKeyword
    } else if text == "fi".to_owned() {
        Token::FiKeyword
    } else if text == "for".to_owned() {
        Token::ForKeyword
    } else if text == "while".to_owned() {
        Token::WhileKeyword
    } else if text == "do".to_owned() {
        Token::DoKeyword
    } else if text == "done".to_owned() {
        Token::DoneKeyword
    } else if text == "case".to_owned() {
        Token::CaseKeyword
    } else if text == "esac".to_owned() {
        Token::EsacKeyword
    } else {
        Token::Ident(text)
    }
}

// ---------------------------------------------------------------------
// Integer accumulation
// ---------------------------------------------------------------------

/// The unsigned value of a digit run, accumulated left to right with the
/// usual decimal step, wrapping modulo 2^64 (there is no overflow guard).
pub open spec fn dec_value(ds: Seq<char>) -> u64
    decreases ds.len(),
{
    if ds.len() == 0 {
        0u64
    } else {
        ((dec_value(ds.drop_last()) * 10 + digit_val(ds.last())) % 0x1_0000_0000_0000_0000) as u64
    }
}

/// Reinterpret an accumulated unsigned value as the two's-complement
/// signed value carried by an integer token.
pub open spec fn as_wrapped_i64(u: u64) -> i64 {
    if u < 0x8000_0000_0000_0000 {
        u as i64
    } else {
        (u - 0x1_0000_0000_0000_0000) as i64
    }
}

fn wrap_to_i64(value: u64) -> (r: i64)
    ensures
        r == as_wrapped_i64(value),
{
    if value < 0x8000_0000_0000_0000 {
        value as i64
    } else {
        ((value as i128) - 0x1_0000_0000_0000_0000i128) as i64
    }
}

fn dec_step(value: u64, d: u32) -> (r: u64)
    requires
        d < 10,
    ensures
        r as int == (value * 10 + d) % 0x1_0000_0000_0000_0000,
{
    (((value as u128) * 10 + (d as u128)) % 0x1_0000_0000_0000_0000u128) as u64
}

// ---------------------------------------------------------------------
// The scan model
// ---------------------------------------------------------------------

/// The scanner's lexical context.
#[derive(Clone, Copy, PartialEq, Eq, Structural, Debug)]
pub enum ScanMode {
    Text,
    Expr,
}

/// The outcome of one scan step on a character sequence: a token together
/// with the number of characters it consumed, or the character that
/// matched no rule (which consumes nothing).
pub enum ScanStep {
    Tok { token: SpecToken, used: nat },
    Fail { actual: char },
}

/// One scan step in `Text` mode.
pub open spec fn spec_scan_text(cs: Seq<char>) -> ScanStep {
    let run = text_run(cs);
    if run.len() > 0 {
        ScanStep::Tok { token: SpecToken::Text(run), used: run.len() }
    } else if cs.len() == 0 {
        ScanStep::Tok { token: SpecToken::EOF, used: 0 }
    } else if cs[0] == ';' {
        if cs.len() > 1 && cs[1] == ';' {
            ScanStep::Tok { token: SpecToken::SemiSemi, used: 2 }
        } else {
            ScanStep::Tok { token: SpecToken::Semi, used: 1 }
        }
    } else if cs[0] == '(' {
        ScanStep::Tok { token: SpecToken::LParen, used: 1 }
    } else if cs[0] == ')' {
        ScanStep::Tok { token: SpecToken::RParen, used: 1 }
    } else if cs[0] == '[' {
        ScanStep::Tok { token: SpecToken::LBracket, used: 1 }
    } else if cs[0] == ']' {
        ScanStep::Tok { token: SpecToken::RBracket, used: 1 }
    } else {
        if cs.len() > 1 && cs[1] == '$' {
            ScanStep::Tok { token: SpecToken::DollarDollar, used: 2 }
        } else if cs.len() > 1 && ident_start_char(cs[1]) {
            let id = ident_of(cs.drop_first());
            ScanStep::Tok { token: SpecToken::DollarIdent(id), used: 1 + id.len() }
        } else {
            ScanStep::Tok { token: SpecToken::Dollar, used: 1 }
        }
    }
}

/// One scan step in `Expr` mode.
pub open spec fn spec_scan_expr(cs: Seq<char>) -> ScanStep {
    if cs.len() == 0 {
        ScanStep::Tok { token: SpecToken::EOF, used: 0 }
    } else if digit_char(cs[0]) {
        let ds = digit_run(cs);
        ScanStep::Tok { token: SpecToken::Integer(as_wrapped_i64(dec_value(ds))), used: ds.len() }
    } else if ident_start_char(cs[0]) {
        let id = ident_of(cs);
        ScanStep::Tok { token: spec_classify(id), used: id.len() }
    } else {
        ScanStep::Fail { actual: cs[0] }
    }
}

/// One scan step: the next token produced from `cs` in `mode`, or the
/// failing character.
pub open spec fn spec_scan(mode: ScanMode, cs: Seq<char>) -> ScanStep {
    match mode {
        ScanMode::Text => spec_scan_text(cs),
        ScanMode::Expr => spec_scan_expr(cs),
    }
}

/// Bounds of one scan step: a step never consumes more characters than
/// there are, and it consumes none exactly on empty input (the terminal
/// token, which is also what makes the terminal token idempotent).
pub proof fn lemma_scan_used(mode: ScanMode, cs: Seq<char>)
    ensures
        spec_scan(mode, cs) matches ScanStep::Tok { token, used } ==> used <= cs.len() && (used
            == 0 <==> cs.len() == 0),
        cs.len() == 0 ==> spec_scan(mode, cs) == (ScanStep::Tok {
            token: SpecToken::EOF,
            used: 0nat,
        }),
{
    match mode {
        ScanMode::Text => {
            lemma_pred_run_len(text_p(), cs);
            if cs.len() > 0 && text_run(cs).len() == 0 && cs[0] == '$' {
                if cs.len() > 1 && !(cs[1] == '$') && ident_start_char(cs[1]) {
                    lemma_pred_run_len(ident_part_p(), cs.drop_first().drop_first());
                    assert(cs.drop_first().drop_first() =~= cs.skip(2));
                }
            }
        },
        ScanMode::Expr => {
            if cs.len() > 0 {
                if digit_char(cs[0]) {
                    lemma_pred_run_len(digit_p(), cs);
                } else if ident_start_char(cs[0]) {
                    lemma_pred_run_len(ident_part_p(), cs.drop_first());
                }
            }
        },
    }
}

// ---------------------------------------------------------------------
// The scanner
// ---------------------------------------------------------------------

/// The characters of a source text, ready to feed a [`crate::util::VecSource`].
pub fn char_items(s: &str) -> (r: Vec<CharItem>)
    ensures
        r@.len() == s@.len(),
        forall|i: int| 0 <= i < s@.len() ==> r@[i] == CharItem::Ch(s@[i]),
{
    let n = s.unicode_len();
    let mut v: Vec<CharItem> = Vec::new();
    let mut i: usize = 0;
    while i < n
        invariant
            n == s@.len(),
            i <= n,
            v@.len() == i,
            forall|j: int| 0 <= j < i ==> v@[j] == CharItem::Ch(s@[j]),
        decreases n - i,
    {
        v.push(CharItem::Ch(s.get_char(i)));
        i = i + 1;
    }
    v
}

/// The sequence of characters carried by a sequence of `Ch` items.
pub open spec fn chars_of(s: Seq<CharItem>) -> Seq<char> {
    s.map(|i: int, ci: CharItem| ci->Ch_0)
}

/// The stateful two-mode lexer.  It owns a buffered view of the character
/// source, the current read offset, the offset at which the current token
/// attempt started, and the current mode.
pub struct Scanner<C: Source<Item = CharItem>> {
    chars: BufferStream<C>,
    offset: usize,
    start_offset: usize,
    mode: ScanMode,
}

impl<C: Source<Item = CharItem>> Scanner<C> {
    /// Well-formedness: the buffered stream is well formed, ends in the
    /// explicit end-of-input state, carries only real characters before
    /// that, and the offsets stay within machine range.
    pub closed spec fn inv(&self) -> bool {
        &&& self.chars.wf()
        &&& self.chars.terminal() == CharItem::End
        &&& forall|i: int|
            0 <= i < self.chars.remaining().len() ==> #[trigger] self.chars.remaining()[i] is Ch
        &&& self.offset + self.chars.remaining().len() <= usize::MAX
        &&& self.start_offset <= self.offset
    }

    /// The characters not yet consumed.
    pub closed spec fn chars_left(&self) -> Seq<char> {
        chars_of(self.chars.remaining())
    }

    /// The current mode.
    pub closed spec fn mode(&self) -> ScanMode {
        self.mode
    }

    /// The current read offset.
    pub closed spec fn offset(&self) -> usize {
        self.offset
    }

    /// The offset at which the current token attempt started.
    pub closed spec fn token_start(&self) -> usize {
        self.start_offset
    }

    pub fn new(chars: C) -> (r: Self)
        requires
            chars.wf(),
            chars.terminal() == CharItem::End,
            forall|i: int| 0 <= i < chars.remaining().len() ==> #[trigger] chars.remaining()[i] is Ch,
            chars.remaining().len() <= usize::MAX,
        ensures
            r.inv(),
            r.chars_left() == chars_of(chars.remaining()),
            r.mode() == ScanMode::Text,
            r.offset() == 0,
            r.token_start() == 0,
    {
        Scanner {
            chars: BufferStream::new(chars),
            offset: 0,
            start_offset: 0,
            mode: ScanMode::Text,
        }
    }

    /// Switch the lexical context.  The caller (normally the parser) is
    /// responsible for knowing when a mode change is required.
    pub fn set_mode(&mut self, mode: ScanMode)
        ensures
            final(self).mode() == mode,
            final(self).inv() == old(self).inv(),
            final(self).chars_left() == old(self).chars_left(),
            final(self).offset() == old(self).offset(),
            final(self).token_start() == old(self).token_start(),
    {
        self.mode = mode;
    }

    /// The span of the current token attempt.
    pub fn span(&self) -> (r: Span)
        ensures
            r == (Span { start: self.token_start(), end: self.offset() }),
    {
        Span { start: self.start_offset, end: self.offset }
    }

    /// Look `count` characters ahead (1-based) without consuming anything.
    fn peek_char(&mut self, count: usize) -> (r: CharItem)
        requires
            old(self).inv(),
            1 <= count,
        ensures
            final(self).inv(),
            final(self).chars_left() == old(self).chars_left(),
            final(self).mode() == old(self).mode(),
            final(self).offset() == old(self).offset(),
            final(self).token_start() == old(self).token_start(),
            r == (if count - 1 < old(self).chars_left().len() {
                CharItem::Ch(old(self).chars_left()[count - 1])
            } else {
                CharItem::End
            }),
    {
        let r = self.chars.peek(count - 1);
        proof {
            if count - 1 < self.chars.remaining().len() {
                assert(self.chars.remaining()[count - 1] is Ch);
                assert(self.chars_left()[count - 1] == self.chars.remaining()[count - 1]->Ch_0);
            }
        }
        r
    }

    /// Consume and return the next character, advancing the read offset,
    /// or report the end of input, changing nothing.
    fn get_char(&mut self) -> (r: CharItem)
        requires
            old(self).inv(),
        ensures
            final(self).inv(),
            final(self).mode() == old(self).mode(),
            final(self).token_start() == old(self).token_start(),
            old(self).chars_left().len() > 0 ==> r == CharItem::Ch(old(self).chars_left()[0])
                && final(self).chars_left() == old(self).chars_left().drop_first()
                && final(self).offset() == old(self).offset() + 1,
            old(self).chars_left().len() == 0 ==> r == CharItem::End && final(self).chars_left()
                == old(self).chars_left() && final(self).offset() == old(self).offset(),
    {
        let ghost pre = *self;
        let r = self.chars.get();
        proof {
            if pre.chars.remaining().len() > 0 {
                assert(pre.chars.remaining()[0] is Ch);
                assert(pre.chars_left()[0] == pre.chars.remaining()[0]->Ch_0);
                assert(self.chars_left() =~= pre.chars_left().drop_first());
            }
        }
        if let CharItem::Ch(_) = r {
            self.offset = self.offset + 1;
        }
        r
    }

    /// Consume one character if one is left.
    fn skip_char(&mut self)
        requires
            old(self).inv(),
        ensures
            final(self).inv(),
            final(self).mode() == old(self).mode(),
            final(self).token_start() == old(self).token_start(),
            old(self).chars_left().len() > 0 ==> final(self).chars_left() == old(self)
                .chars_left().drop_first() && final(self).offset() == old(self).offset() + 1,
            old(self).chars_left().len() == 0 ==> final(self).chars_left() == old(self).chars_left()
                && final(self).offset() == old(self).offset(),
    {
        let _ = self.get_char();
    }

    /// Consume `count` characters, or as many as are left.
    fn skip_chars(&mut self, count: usize)
        requires
            old(self).inv(),
        ensures
            final(self).inv(),
            final(self).mode() == old(self).mode(),
            final(self).token_start() == old(self).token_start(),
            ({
                let k = if count <= old(self).chars_left().len() {
                    count as int
                } else {
                    old(self).chars_left().len() as int
                };
                final(self).chars_left() == old(self).chars_left().skip(k) && final(self).offset()
                    == old(self).offset() + k
            }),
    {
        let ghost pre = *self;
        let mut i: usize = 0;
        while i < count
            invariant
                pre.inv(),
                self.inv(),
                i <= count,
                self.mode() == pre.mode(),
                self.token_start() == pre.token_start(),
                ({
                    let k = if i <= pre.chars_left().len() {
                        i as int
                    } else {
                        pre.chars_left().len() as int
                    };
                    self.chars_left() == pre.chars_left().skip(k) && self.offset() == pre.offset()
                        + k
                }),
            decreases count - i,
        {
            let ghost mid = *self;
            let _ = self.get_char();
            proof {
                if mid.chars_left().len() > 0 {
                    assert(self.chars_left() =~= pre.chars_left().skip(
                        if i + 1 <= pre.chars_left().len() {
                            i + 1
                        } else {
                            pre.chars_left().len() as int
                        },
                    ));
                } else {
                    assert(self.chars_left() =~= mid.chars_left());
                }
            }
            i = i + 1;
        }
    }

    /// Repeatedly peek one character ahead, consuming it and appending it
    /// to `out` while `pred` holds of it; the first character that fails
    /// `pred` (if any) is left unconsumed.
    fn take_while<F: Fn(char) -> bool>(&mut self, pred: F, Ghost(p): Ghost<spec_fn(char) -> bool>, out: &mut String)
        requires
            old(self).inv(),
            forall|c: char| #[trigger] pred.requires((c,)),
            forall|c: char, b: bool| #[trigger] pred.ensures((c,), b) ==> b == p(c),
        ensures
            final(self).inv(),
            final(self).mode() == old(self).mode(),
            final(self).token_start() == old(self).token_start(),
            final(out)@ == old(out)@ + pred_run(p, old(self).chars_left()),
            final(self).chars_left() == old(self).chars_left().skip(
                pred_run(p, old(self).chars_left()).len() as int,
            ),
            final(self).offset() == old(self).offset() + pred_run(p, old(self).chars_left()).len(),
    {
        let ghost start = *self;
        let ghost out0 = out@;
        let ghost mut taken: Seq<char> = Seq::empty();
        proof {
            lemma_pred_run_len(p, start.chars_left());
        }
        loop
            invariant
                start == *old(self),
                out0 == old(out)@,
                self.inv(),
                start.inv(),
                self.mode() == start.mode(),
                self.token_start() == start.token_start(),
                forall|c: char| #[trigger] pred.requires((c,)),
                forall|c: char, b: bool| #[trigger] pred.ensures((c,), b) ==> b == p(c),
                taken.len() <= start.chars_left().len(),
                self.chars_left() == start.chars_left().skip(taken.len() as int),
                self.offset() == start.offset() + taken.len(),
                out@ == out0 + taken,
                pred_run(p, start.chars_left()) == taken + pred_run(p, self.chars_left()),
            ensures
                self.inv(),
                self.mode() == start.mode(),
                self.token_start() == start.token_start(),
                self.chars_left() == start.chars_left().skip(
                    pred_run(p, start.chars_left()).len() as int,
                ),
                self.offset() == start.offset() + pred_run(p, start.chars_left()).len(),
                out@ == out0 + pred_run(p, start.chars_left()),
            decreases start.chars_left().len() - taken.len(),
        {
            let c0 = self.peek_char(1);
            match c0 {
                CharItem::End => {
                    proof {
                        assert(pred_run(p, self.chars_left()) =~= Seq::<char>::empty());
                        assert(pred_run(p, start.chars_left()) =~= taken);
                    }
                    break;
                },
                CharItem::Ch(c) => {
                    if pred(c) {
                        let ghost mid = *self;
                        let _ = self.get_char();
                        push_char(out, c);
                        proof {
                            assert(pred_run(p, mid.chars_left()) == seq![c] + pred_run(
                                p,
                                mid.chars_left().drop_first(),
                            ));
                            taken = taken.push(c);
                            assert(out@ =~= out0 + taken);
                            assert(taken + pred_run(p, self.chars_left()) =~= (taken.drop_last()
                                + (seq![c] + pred_run(p, self.chars_left()))));
                            assert(self.chars_left() =~= start.chars_left().skip(
                                taken.len() as int,
                            ));
                        }
                    } else {
                        proof {
                            assert(pred_run(p, self.chars_left()) =~= Seq::<char>::empty());
                            assert(pred_run(p, start.chars_left()) =~= taken);
                        }
                        break;
                    }
                },
            }
        }
    }

    /// Scan an identifier: the next character followed by the maximal run
    /// of identifier continuation characters.
    fn scan_ident(&mut self) -> (r: String)
        requires
            old(self).inv(),
            old(self).chars_left().len() > 0,
        ensures
            final(self).inv(),
            final(self).mode() == old(self).mode(),
            final(self).token_start() == old(self).token_start(),
            r@ == ident_of(old(self).chars_left()),
            final(self).chars_left() == old(self).chars_left().skip(
                ident_of(old(self).chars_left()).len() as int,
            ),
            final(self).offset() == old(self).offset() + ident_of(old(self).chars_left()).len(),
    {
        let ghost start = *self;
        let mut text = String::new();
        let c0 = self.get_char();
        match c0 {
            CharItem::Ch(c) => {
                push_char(&mut text, c);
                proof {
                    assert(text@ =~= seq![c]);
                }
            },
            CharItem::End => {
                proof {
                    assert(false);
                }
            },
        }
        let ghost mid = *self;
        self.take_while(is_ident_part, Ghost(ident_part_p()), &mut text);
        proof {
            let cs = start.chars_left();
            assert(mid.chars_left() == cs.drop_first());
            assert(cs.drop_first() =~= cs.skip(1));
            assert(text@ =~= ident_of(cs));
            assert(ident_of(cs).len() == 1 + ident_run(cs.drop_first()).len());
            let k = ident_run(mid.chars_left()).len() as int;
            assert(self.chars_left() == mid.chars_left().skip(k));
            lemma_pred_run_len(ident_part_p(), mid.chars_left());
            lemma_skip_skip(cs, 1, k);
            assert(self.chars_left() == cs.skip(1 + k));
        }
        text
    }

    /// One scan step in `Text` mode; never fails.
    fn scan_text(&mut self) -> (r: Result<Token, Error>)
        requires
            old(self).inv(),
        ensures
            final(self).inv(),
            final(self).mode() == old(self).mode(),
            final(self).token_start() == old(self).token_start(),
            ({
                let step = spec_scan_text(old(self).chars_left());
                step matches ScanStep::Tok { token, used } && r matches Ok(t) && t.deep_view()
                    == token && final(self).chars_left() == old(self).chars_left().skip(
                    used as int,
                ) && final(self).offset() == old(self).offset() + used
            }),
    {
        let ghost start = *self;
        let mut buf = String::new();
        let mut buffered: usize = 0;
        let ghost mut taken: Seq<char> = Seq::empty();
        proof {
            lemma_pred_run_len(text_p(), start.chars_left());
        }
        loop
            invariant
                start == *old(self),
                self.inv(),
                start.inv(),
                self.mode() == start.mode(),
                self.token_start() == start.token_start(),
                taken.len() <= start.chars_left().len(),
                self.chars_left() == start.chars_left().skip(taken.len() as int),
                self.offset() == start.offset() + taken.len(),
                buf@ == taken,
                buffered == taken.len(),
                text_run(start.chars_left()) == taken + text_run(self.chars_left()),
            decreases start.chars_left().len() - taken.len(),
        {
            let ghost cur = *self;
            let c0 = self.peek_char(1);
            match c0 {
                CharItem::End => {
                    proof {
                        assert(text_run(cur.chars_left()) =~= Seq::<char>::empty());
                        assert(text_run(start.chars_left()) =~= taken);
                    }
                    if buffered > 0 {
                        return Ok(Token::Text(buf));
                    } else {
                        proof {
                            assert(start.chars_left() =~= cur.chars_left());
                        }
                        return Ok(Token::EOF);
                    }
                },
                CharItem::Ch(c) => {
                    if is_special(c) {
                        proof {
                            assert(text_run(cur.chars_left()) =~= Seq::<char>::empty());
                            assert(text_run(start.chars_left()) =~= taken);
                        }
                        if buffered > 0 {
                            return Ok(Token::Text(buf));
                        }
                        proof {
                            assert(start.chars_left() =~= cur.chars_left());
                            assert(text_run(start.chars_left()).len() == 0);
                        }
                        // An empty run: the special character itself forms
                        // the token.
                        if c == ';' {
                            let c1 = self.peek_char(2);
                            match c1 {
                                CharItem::Ch(s) => {
                                    if s == ';' {
                                        self.skip_chars(2);
                                        return Ok(Token::SemiSemi);
                                    } else {
                                        self.skip_char();
                                        return Ok(Token::Semi);
                                    }
                                },
                                CharItem::End => {
                                    self.skip_char();
                                    return Ok(Token::Semi);
                                },
                            }
                        } else if c == '(' {
                            self.skip_char();
                            return Ok(Token::LParen);
                        } else if c == ')' {
                            self.skip_char();
                            return Ok(Token::RParen);
                        } else if c == '[' {
                            self.skip_char();
                            return Ok(Token::LBracket);
                        } else if c == ']' {
                            self.skip_char();
                            return Ok(Token::RBracket);
                        } else {
                            let c1 = self.peek_char(2);
                            match c1 {
                                CharItem::Ch(s) => {
                                    if s == '$' {
                                        self.skip_chars(2);
                                        return Ok(Token::DollarDollar);
                                    } else if is_ident_start(s) {
                                        self.skip_char();
                                        let ghost afterdollar = *self;
                                        let id = self.scan_ident();
                                        proof {
                                            let cs = start.chars_left();
                                            assert(afterdollar.chars_left() == cs.drop_first());
                                            assert(cs.drop_first() =~= cs.skip(1));
                                            assert(id@ == ident_of(cs.drop_first()));
                                            let k = ident_of(cs.drop_first()).len() as int;
                                            assert(self.chars_left() == afterdollar.chars_left()
                                                .skip(k));
                                            lemma_pred_run_len(
                                                ident_part_p(),
                                                cs.drop_first().drop_first(),
                                            );
                                            lemma_skip_skip(cs, 1, k);
                                            assert(self.chars_left() == cs.skip(1 + k));
                                        }
                                        return Ok(Token::DollarIdent(id));
                                    } else {
                                        self.skip_char();
                                        return Ok(Token::Dollar);
                                    }
                                },
                                CharItem::End => {
                                    self.skip_char();
                                    return Ok(Token::Dollar);
                                },
                            }
                        }
                    } else {
                        let ghost mid = *self;
                        self.skip_char();
                        push_char(&mut buf, c);
                        buffered = buffered + 1;
                        proof {
                            assert(text_run(mid.chars_left()) == seq![c] + text_run(
                                mid.chars_left().drop_first(),
                            ));
                            taken = taken.push(c);
                            assert(buf@ =~= taken);
                            assert(taken + text_run(self.chars_left()) =~= (taken.drop_last() + (
                            seq![c] + text_run(self.chars_left()))));
                            assert(self.chars_left() =~= start.chars_left().skip(
                                taken.len() as int,
                            ));
                        }
                    }
                },
            }
        }
    }

    /// One scan step in `Expr` mode.
    fn scan_expr(&mut self) -> (r: Result<Token, Error>)
        requires
            old(self).inv(),
        ensures
            final(self).inv(),
            final(self).mode() == old(self).mode(),
            final(self).token_start() == old(self).token_start(),
            ({
                let step = spec_scan_expr(old(self).chars_left());
                match step {
                    ScanStep::Tok { token, used } => r matches Ok(t) && t.deep_view() == token
                        && final(self).chars_left() == old(self).chars_left().skip(used as int)
                        && final(self).offset() == old(self).offset() + used,
                    ScanStep::Fail { actual } => r matches Err(e) && e.deep_view() == (
                    SpecError::UnexpectedString {
                        actual: seq![actual],
                        span: (Span {
                            start: old(self).token_start(),
                            end: old(self).offset(),
                        }),
                    }) && final(self).chars_left() == old(self).chars_left() && final(self).offset()
                        == old(self).offset(),
                }
            }),
    {
        let ghost start = *self;
        let c0 = self.peek_char(1);
        match c0 {
            CharItem::End => Ok(Token::EOF),
            CharItem::Ch(c) => {
                let u = c as u32;
                if 48 <= u && u <= 57 {
                    let mut value: u64 = 0;
                    let ghost mut taken: Seq<char> = Seq::empty();
                    proof {
                        lemma_pred_run_len(digit_p(), start.chars_left());
                    }
                    loop
                        invariant
                            start == *old(self),
                            self.inv(),
                            start.inv(),
                            self.mode() == start.mode(),
                            self.token_start() == start.token_start(),
                            taken.len() <= start.chars_left().len(),
                            self.chars_left() == start.chars_left().skip(taken.len() as int),
                            self.offset() == start.offset() + taken.len(),
                            value == dec_value(taken),
                            digit_run(start.chars_left()) == taken + digit_run(self.chars_left()),
                        ensures
                            self.inv(),
                            self.mode() == start.mode(),
                            self.token_start() == start.token_start(),
                            self.chars_left() == start.chars_left().skip(
                                digit_run(start.chars_left()).len() as int,
                            ),
                            self.offset() == start.offset() + digit_run(start.chars_left()).len(),
                            value == dec_value(digit_run(start.chars_left())),
                        decreases start.chars_left().len() - taken.len(),
                    {
                        let ghost cur = *self;
                        let c1 = self.peek_char(1);
                        match c1 {
                            CharItem::End => {
                                proof {
                                    assert(digit_run(cur.chars_left()) =~= Seq::<char>::empty());
                                    assert(digit_run(start.chars_left()) =~= taken);
                                }
                                break;
                            },
                            CharItem::Ch(d) => {
                                let du = d as u32;
                                if 48 <= du && du <= 57 {
                                    let _ = self.get_char();
                                    value = dec_step(value, du - 48);
                                    proof {
                                        assert(digit_run(cur.chars_left()) == seq![d] + digit_run(
                                            cur.chars_left().drop_first(),
                                        ));
                                        let prev = taken;
                                        taken = prev.push(d);
                                        assert(taken.drop_last() =~= prev);
                                        assert(taken.last() == d);
                                        assert(digit_val(d) == du - 48);
                                        assert(value == dec_value(taken));
                                        assert(taken + digit_run(self.chars_left()) =~= (
                                        taken.drop_last() + (seq![d] + digit_run(
                                            self.chars_left(),
                                        ))));
                                        assert(self.chars_left() =~= start.chars_left().skip(
                                            taken.len() as int,
                                        ));
                                    }
                                } else {
                                    proof {
                                        assert(digit_run(cur.chars_left()) =~= Seq::<
                                            char,
                                        >::empty());
                                        assert(digit_run(start.chars_left()) =~= taken);
                                    }
                                    break;
                                }
                            },
                        }
                    }
                    Ok(Token::Integer(wrap_to_i64(value)))
                } else if is_ident_start(c) {
                    let id = self.scan_ident();
                    Ok(classify_ident(id))
                } else {
                    let mut actual = String::new();
                    push_char(&mut actual, c);
                    proof {
                        assert(actual@ =~= seq![c]);
                    }
                    Err(Error::UnexpectedString { actual, span: self.span() })
                }
            },
        }
    }

    /// Produce the next token, or fail with the character that matched no
    /// rule of the current mode.
    ///
    /// The whole behavior is pinned to [`spec_scan`]: on success the token
    /// is the model token and exactly `used` characters are consumed; on
    /// failure nothing is consumed, so a failing scanner keeps failing the
    /// same way.  On empty input the terminal `EOF` token is produced, the
    /// offsets do not advance, and every later call does the same.
    pub fn scan(&mut self) -> (r: Result<Token, Error>)
        requires
            old(self).inv(),
        ensures
            final(self).inv(),
            final(self).mode() == old(self).mode(),
            final(self).token_start() == old(self).offset(),
            ({
                let step = spec_scan(old(self).mode(), old(self).chars_left());
                match step {
                    ScanStep::Tok { token, used } => r matches Ok(t) && t.deep_view() == token
                        && final(self).chars_left() == old(self).chars_left().skip(used as int)
                        && final(self).offset() == old(self).offset() + used,
                    ScanStep::Fail { actual } => r matches Err(e) && e.deep_view() == (
                    SpecError::UnexpectedString {
                        actual: seq![actual],
                        span: (Span { start: old(self).offset(), end: old(self).offset() }),
                    }) && final(self).chars_left() == old(self).chars_left() && final(self).offset()
                        == old(self).offset(),
                }
            }),
    {
        self.start_offset = self.offset;
        proof {
            lemma_scan_used(self.mode, self.chars_left());
        }
        match self.mode {
            ScanMode::Text => self.scan_text(),
            ScanMode::Expr => self.scan_expr(),
        }
    }
}

// ---------------------------------------------------------------------
// The scanner as a token source
// ---------------------------------------------------------------------

/// The sequence of proper tokens that scanning will produce from `cs` in
/// `mode`, up to (and not including) the idempotent terminal token or the
/// first failure.
pub open spec fn spec_tokens(mode: ScanMode, cs: Seq<char>) -> Seq<Result<SpecToken, SpecError>>
    decreases cs.len(),
{
    match spec_scan(mode, cs) {
        ScanStep::Fail { .. } => Seq::empty(),
        ScanStep::Tok { token, used } => if 1 <= used <= cs.len() {
            seq![Result::<SpecToken, SpecError>::Ok(token)] + spec_tokens(
                mode,
                cs.skip(used as int),
            )
        } else {
            Seq::empty()
        },
    }
}

/// The item the scanner will produce forever once the proper tokens run
/// out: the terminal end-of-input token, or the failure that scanning
/// runs into, with the span at which it occurs.
pub open spec fn spec_scan_terminal(mode: ScanMode, cs: Seq<char>, off: int) -> Result<
    SpecToken,
    SpecError,
>
    decreases cs.len(),
{
    match spec_scan(mode, cs) {
        ScanStep::Fail { actual } => Result::Err(
            SpecError::UnexpectedString {
                actual: seq![actual],
                span: Span { start: off as usize, end: off as usize },
            },
        ),
        ScanStep::Tok { token, used } => if 1 <= used <= cs.len() {
            spec_scan_terminal(mode, cs.skip(used as int), off + used)
        } else {
            Result::Ok(SpecToken::EOF)
        },
    }
}

impl<C: Source<Item = CharItem>> Source for Scanner<C> {
    type Item = Result<Token, Error>;

    closed spec fn wf(&self) -> bool {
        self.inv()
    }

    closed spec fn remaining(&self) -> Seq<Result<SpecToken, SpecError>> {
        spec_tokens(self.mode(), self.chars_left())
    }

    closed spec fn terminal(&self) -> Result<SpecToken, SpecError> {
        spec_scan_terminal(self.mode(), self.chars_left(), self.offset() as int)
    }

    fn get(&mut self) -> (r: Result<Token, Error>) {
        let ghost pre = *self;
        proof {
            lemma_scan_used(pre.mode(), pre.chars_left());
        }
        let r = self.scan();
        proof {
            let step = spec_scan(pre.mode(), pre.chars_left());
            match step {
                ScanStep::Tok { token, used } => {
                    if used == 0 {
                        assert(pre.chars_left().len() == 0);
                        assert(token == SpecToken::EOF);
                        assert(pre.remaining() =~= Seq::<Result<SpecToken, SpecError>>::empty());
                        assert(pre.chars_left().skip(0) =~= pre.chars_left());
                        assert(self.chars_left() == pre.chars_left());
                        assert(r.abs() == pre.terminal());
                    } else {
                        assert(pre.remaining() == seq![Result::<SpecToken, SpecError>::Ok(token)]
                            + spec_tokens(pre.mode(), pre.chars_left().skip(used as int)));
                        assert(pre.remaining()[0] == Result::<SpecToken, SpecError>::Ok(token));
                        assert(self.remaining() =~= pre.remaining().drop_first());
                        assert(self.terminal() == pre.terminal());
                    }
                },
                ScanStep::Fail { actual } => {
                    assert(pre.remaining() =~= Seq::<Result<SpecToken, SpecError>>::empty());
                    assert(r.abs() == pre.terminal());
                },
            }
        }
        r
    }
}

// ---------------------------------------------------------------------
// Laws of the scanner
// ---------------------------------------------------------------------

/// Coalescing: a non-empty `Text`-mode input containing no special
/// character scans to exactly one `Text` token equal to the entire input,
/// and what remains after it is empty, so the following scan yields the
/// terminal token.
pub proof fn lemma_text_coalescing(cs: Seq<char>)
    requires
        cs.len() > 0,
        forall|i: int| 0 <= i < cs.len() ==> !is_special_char(#[trigger] cs[i]),
    ensures
        spec_scan(ScanMode::Text, cs) == (ScanStep::Tok {
            token: SpecToken::Text(cs),
            used: cs.len(),
        }),
        spec_scan(ScanMode::Text, cs.skip(cs.len() as int)) == (ScanStep::Tok {
            token: SpecToken::EOF,
            used: 0nat,
        }),
{
    assert forall|i: int| 0 <= i < cs.len() implies (text_p())(#[trigger] cs[i]) by {}
    lemma_pred_run_all(text_p(), cs);
    assert(cs.skip(cs.len() as int) =~= Seq::<char>::empty());
}

/// Idempotence of the terminal token: on empty input a scan in either
/// mode yields the terminal token and consumes nothing, so repeated
/// scans after the end of input keep returning it, never fail, and never
/// advance the offsets.
pub proof fn lemma_terminal_idempotent(mode: ScanMode)
    ensures
        spec_scan(mode, Seq::<char>::empty()) == (ScanStep::Tok {
            token: SpecToken::EOF,
            used: 0nat,
        }),
{
    lemma_scan_used(mode, Seq::<char>::empty());
}

/// Keyword classification: an `Expr`-mode input beginning with an
/// identifier-start character (not a digit) scans to the classification
/// of the maximal identifier at its front: the respective keyword token
/// for each of the eight keywords, and a generic identifier token
/// carrying the exact text matched for every other identifier.
pub proof fn lemma_keyword_classification(cs: Seq<char>)
    requires
        cs.len() > 0,
        ident_start_char(cs[0]),
        !digit_char(cs[0]),
    ensures
        spec_scan(ScanMode::Expr, cs) == (ScanStep::Tok {
            token: spec_classify(ident_of(cs)),
            used: ident_of(cs).len(),
        }),
        !is_keyword(ident_of(cs)) ==> spec_classify(ident_of(cs)) == SpecToken::Ident(
            ident_of(cs),
        ),
{
}

} // verus!
