//! The recursive-descent parser.
//!
//! The parser pulls tokens from a [`Stream`] and builds the
//! command-expression tree: a command is a sequence of literal words and
//! parenthesized sub-groups, terminated by a newline or the end of the
//! input; a file is the sequence of its top-level commands.  The
//! functions [`spec_parse_command`] and [`spec_parse_file`] are the
//! mathematical model of the grammar, and the parser's contracts tie the
//! implementation to them.

use vstd::prelude::*;

use crate::result::{Error, Expected, SpecError, SpecExpected};
use crate::scanner::{SpecToken, Token, TokenKind};
use crate::util::{Source, Stream, StreamItem};

verus! {

broadcast use vstd::std_specs::vec::axiom_vec_index_decreases;

/// A node of the command-expression tree: a literal word, or a command
/// owning an ordered sequence of parts, which may themselves be nested
/// commands from parenthesized groups.  The tree is strictly a tree,
/// owned top-down.
#[derive(Debug, PartialEq, Eq)]
pub enum Expr {
    Literal { text: String },
    Command { parts: Vec<Expr> },
}

/// The abstract value of an [`Expr`].
pub enum SpecExpr {
    Literal { text: Seq<char> },
    Command { parts: Seq<SpecExpr> },
}

/// The abstract value of an expression.
pub open spec fn expr_deep(e: Expr) -> SpecExpr
    decreases e,
{
    match e {
        Expr::Literal { text } => SpecExpr::Literal { text: text@ },
        Expr::Command { parts } => SpecExpr::Command { parts: exprs_deep_from(parts, 0) },
    }
}

/// The abstract values of the expressions of `v` from index `from` on.
pub open spec fn exprs_deep_from(v: Vec<Expr>, from: int) -> Seq<SpecExpr>
    decreases v, v.len() - from,
{
    if from < 0 || from >= v.len() {
        Seq::empty()
    } else {
        seq![expr_deep(v[from])] + exprs_deep_from(v, from + 1)
    }
}

impl DeepView for Expr {
    type V = SpecExpr;

    open spec fn deep_view(&self) -> SpecExpr {
        expr_deep(*self)
    }
}

/// The abstract value of a command expression is the command of its
/// parts' abstract values, as the standard elementwise view of the
/// vector gives them.
pub proof fn lemma_command_deep_view(v: Vec<Expr>)
    ensures
        (Expr::Command { parts: v }).deep_view() == (SpecExpr::Command { parts: v.deep_view() }),
{
    lemma_exprs_deep_from(v, 0);
    assert(v.deep_view().skip(0) =~= v.deep_view());
}

proof fn lemma_exprs_deep_from(v: Vec<Expr>, from: int)
    requires
        0 <= from <= v.len(),
    ensures
        exprs_deep_from(v, from) == v.deep_view().skip(from),
    decreases v.len() - from,
{
    if from < v.len() {
        lemma_exprs_deep_from(v, from + 1);
        assert(exprs_deep_from(v, from) =~= v.deep_view().skip(from));
    } else {
        assert(exprs_deep_from(v, from) =~= v.deep_view().skip(from));
    }
}

/// The root of a parsed file: one expression per top-level command, in
/// source order.
#[derive(Debug, PartialEq, Eq)]
pub enum Node {
    File { elements: Vec<Expr> },
}

/// The abstract value of a [`Node`].
pub enum SpecNode {
    File { elements: Seq<SpecExpr> },
}

impl DeepView for Node {
    type V = SpecNode;

    open spec fn deep_view(&self) -> SpecNode {
        match self {
            Node::File { elements } => SpecNode::File { elements: exprs_deep_from(*elements, 0) },
        }
    }
}

/// The next token the parser will see: the first remaining item of the
/// stream, or the terminal end-of-input token once it is exhausted.
pub open spec fn first_tok(ts: Seq<Result<SpecToken, SpecError>>) -> Result<SpecToken, SpecError> {
    if ts.len() > 0 {
        ts[0]
    } else {
        Ok(SpecToken::EOF)
    }
}

/// The token kinds acceptable where a command part may start (the
/// grammar's first set at that position).
pub open spec fn spec_cmd_first_set() -> Seq<TokenKind> {
    seq![
        TokenKind::EOF,
        TokenKind::NewLine,
        TokenKind::Ident,
        TokenKind::Text,
        TokenKind::LParen,
        TokenKind::RParen,
    ]
}

/// The token kinds acceptable where a top-level command may start.
pub open spec fn spec_file_first_set() -> Seq<TokenKind> {
    seq![TokenKind::EOF, TokenKind::NewLine, TokenKind::Ident, TokenKind::Text, TokenKind::LParen]
}

/// The outcome of parsing one command: the parts of the command together
/// with the number of tokens consumed, or the error that aborted the
/// parse.
pub enum SpecParse {
    Done { parts: Seq<SpecExpr>, used: nat },
    Fail { err: SpecError },
}

/// Prepend one parsed part (which consumed `n` tokens) to the outcome of
/// parsing the rest of the command.
pub open spec fn cons_part(part: SpecExpr, n: nat, rest: SpecParse) -> SpecParse {
    match rest {
        SpecParse::Done { parts, used } => SpecParse::Done {
            parts: seq![part] + parts,
            used: n + used,
        },
        SpecParse::Fail { err } => SpecParse::Fail { err },
    }
}

/// Parse one command from the token sequence `ts` (with the idempotent
/// end-of-input token past its end).  The end of the input or a newline
/// terminates the command, consuming the newline; a closing parenthesis
/// terminates it without being consumed, so that the enclosing group can
/// check it; a literal word extends it; an opening parenthesis parses a
/// nested group whose very next token must be the closing parenthesis;
/// any other token is a hard parse error carrying the grammar's first
/// set at this position.
pub open spec fn spec_parse_command(ts: Seq<Result<SpecToken, SpecError>>) -> SpecParse
    decreases ts.len(),
{
    match first_tok(ts) {
        Err(e) => SpecParse::Fail { err: e },
        Ok(t) => match t {
            SpecToken::EOF => SpecParse::Done {
                parts: Seq::empty(),
                used: if ts.len() > 0 {
                    1nat
                } else {
                    0nat
                },
            },
            SpecToken::NewLine => SpecParse::Done { parts: Seq::empty(), used: 1 },
            SpecToken::RParen => SpecParse::Done { parts: Seq::empty(), used: 0 },
            SpecToken::Ident(text) => cons_part(
                SpecExpr::Literal { text },
                1,
                spec_parse_command(ts.skip(1)),
            ),
            SpecToken::Text(text) => cons_part(
                SpecExpr::Literal { text },
                1,
                spec_parse_command(ts.skip(1)),
            ),
            SpecToken::LParen => match spec_parse_command(ts.skip(1)) {
                SpecParse::Fail { err } => SpecParse::Fail { err },
                SpecParse::Done { parts: inner, used: inner_used } => {
                    let after = 1 + inner_used;
                    let rest_ts = if after <= ts.len() {
                        ts.skip(after as int)
                    } else {
                        Seq::empty()
                    };
                    match first_tok(rest_ts) {
                        Err(e) => SpecParse::Fail { err: e },
                        Ok(t1) => if t1 == SpecToken::RParen {
                            cons_part(
                                SpecExpr::Command { parts: inner },
                                (after + 1) as nat,
                                spec_parse_command(
                                    if after + 1 <= ts.len() {
                                        ts.skip(after as int + 1)
                                    } else {
                                        Seq::empty()
                                    },
                                ),
                            )
                        } else {
                            SpecParse::Fail {
                                err: SpecError::UnexpectedToken {
                                    actual: t1,
                                    expected: SpecExpected::Tok(TokenKind::RParen),
                                },
                            }
                        },
                    }
                },
            },
            _ => SpecParse::Fail {
                err: SpecError::UnexpectedToken {
                    actual: t,
                    expected: SpecExpected::OneOf(spec_cmd_first_set()),
                },
            },
        },
    }
}

/// The outcome of parsing a whole file.
pub enum SpecParseFile {
    Done { elements: Seq<SpecExpr> },
    Fail { err: SpecError },
}

/// Parse a file: commands, one after the other, until the next token
/// available is the end-of-input token.  A closing parenthesis at the
/// top level is a parse error (it would otherwise make no progress).
pub open spec fn spec_parse_file(ts: Seq<Result<SpecToken, SpecError>>) -> SpecParseFile
    decreases ts.len(),
{
    match first_tok(ts) {
        Err(e) => SpecParseFile::Fail { err: e },
        Ok(t) => if t == SpecToken::EOF {
            SpecParseFile::Done { elements: Seq::empty() }
        } else if t == SpecToken::RParen {
            SpecParseFile::Fail {
                err: SpecError::UnexpectedToken {
                    actual: t,
                    expected: SpecExpected::OneOf(spec_file_first_set()),
                },
            }
        } else {
            match spec_parse_command(ts) {
                SpecParse::Fail { err } => SpecParseFile::Fail { err },
                SpecParse::Done { parts, used } => {
                    let rest = if 1 <= used <= ts.len() {
                        ts.skip(used as int)
                    } else {
                        Seq::empty()
                    };
                    match spec_parse_file(rest) {
                        SpecParseFile::Fail { err } => SpecParseFile::Fail { err },
                        SpecParseFile::Done { elements } => SpecParseFile::Done {
                            elements: seq![SpecExpr::Command { parts }] + elements,
                        },
                    }
                },
            }
        },
    }
}

/// Bounds and progress of one command parse: it never consumes more
/// tokens than there are, and it consumes at least one unless the next
/// token is the terminal end-of-input token or a closing parenthesis.
pub proof fn lemma_parse_command_used(ts: Seq<Result<SpecToken, SpecError>>)
    ensures
        spec_parse_command(ts) is Done ==> spec_parse_command(ts)->Done_used <= ts.len(),
        spec_parse_command(ts) is Done && ts.len() > 0 && ts[0] != Result::<
            SpecToken,
            SpecError,
        >::Ok(SpecToken::EOF) && ts[0] != Result::<SpecToken, SpecError>::Ok(SpecToken::RParen)
            ==> spec_parse_command(ts)->Done_used >= 1,
    decreases ts.len(),
{
    match first_tok(ts) {
        Err(_) => {},
        Ok(t) => match t {
            SpecToken::Ident(_) => lemma_parse_command_used(ts.skip(1)),
            SpecToken::Text(_) => lemma_parse_command_used(ts.skip(1)),
            SpecToken::LParen => {
                lemma_parse_command_used(ts.skip(1));
                match spec_parse_command(ts.skip(1)) {
                    SpecParse::Fail { .. } => {},
                    SpecParse::Done { parts: _, used: inner_used } => {
                        let after = 1 + inner_used;
                        if after + 1 <= ts.len() {
                            lemma_parse_command_used(ts.skip(after as int + 1));
                        } else {
                            lemma_parse_command_used(Seq::empty());
                        }
                    },
                }
            },
            _ => {},
        },
    }
}

/// Termination of a file parse: on an input consisting solely of the
/// terminal end-of-input token, the parse stops at once and produces a
/// file with zero elements.
pub proof fn lemma_parse_file_empty()
    ensures
        spec_parse_file(Seq::<Result<SpecToken, SpecError>>::empty()) == (SpecParseFile::Done {
            elements: Seq::<SpecExpr>::empty(),
        }),
{
}

fn cmd_first_set() -> (r: Vec<TokenKind>)
    ensures
        r@ == spec_cmd_first_set(),
{
    let mut v: Vec<TokenKind> = Vec::new();
    v.push(TokenKind::EOF);
    v.push(TokenKind::NewLine);
    v.push(TokenKind::Ident);
    v.push(TokenKind::Text);
    v.push(TokenKind::LParen);
    v.push(TokenKind::RParen);
    proof {
        assert(v@ =~= spec_cmd_first_set());
    }
    v
}

fn file_first_set() -> (r: Vec<TokenKind>)
    ensures
        r@ == spec_file_first_set(),
{
    let mut v: Vec<TokenKind> = Vec::new();
    v.push(TokenKind::EOF);
    v.push(TokenKind::NewLine);
    v.push(TokenKind::Ident);
    v.push(TokenKind::Text);
    v.push(TokenKind::LParen);
    proof {
        assert(v@ =~= spec_file_first_set());
    }
    v
}

/// The recursive-descent consumer of a token stream.
pub struct Parser<T> {
    tokens: T,
}

impl<T: Stream<Item = Result<Token, Error>>> Parser<T> {
    /// Well-formedness: the token stream is well formed and its terminal
    /// item is the end-of-input token, produced idempotently, as the
    /// scanner does.
    pub closed spec fn inv(&self) -> bool {
        &&& self.tokens.wf()
        &&& self.tokens.terminal() == Result::<SpecToken, SpecError>::Ok(SpecToken::EOF)
    }

    /// The abstract values of the tokens not yet consumed.
    pub closed spec fn toks(&self) -> Seq<Result<SpecToken, SpecError>> {
        self.tokens.remaining()
    }

    pub fn new(tokens: T) -> (r: Self)
        requires
            tokens.wf(),
            tokens.terminal() == Result::<SpecToken, SpecError>::Ok(SpecToken::EOF),
        ensures
            r.inv(),
            r.toks() == tokens.remaining(),
    {
        Parser { tokens }
    }

    /// Build one command by reading tokens until its terminator, exactly
    /// as [`spec_parse_command`] describes: the result is the command
    /// whose parts the model gives, consuming the tokens the model
    /// counts, or the model's error.
    pub fn parse_command(&mut self) -> (r: Result<Expr, Error>)
        requires
            old(self).inv(),
        ensures
            final(self).inv(),
            ({
                let out = spec_parse_command(old(self).toks());
                match out {
                    SpecParse::Done { parts, used } => r matches Ok(e) && e.deep_view() == (
                    SpecExpr::Command { parts }) && final(self).toks() == old(self).toks().skip(
                        used as int,
                    ),
                    SpecParse::Fail { err } => r matches Err(e) && e.deep_view() == err,
                }
            }),
        decreases old(self).toks().len(),
    {
        let ghost entry = *self;
        let mut parts: Vec<Expr> = Vec::new();
        let ghost mut consumed: nat = 0;
        loop
            invariant
                entry == *old(self),
                self.inv(),
                consumed <= entry.toks().len(),
                self.toks() == entry.toks().skip(consumed as int),
                ({
                    let rest = spec_parse_command(self.toks());
                    let whole = spec_parse_command(entry.toks());
                    match rest {
                        SpecParse::Done { parts: p2, used: u2 } => whole == (SpecParse::Done {
                            parts: parts.deep_view() + p2,
                            used: (consumed + u2) as nat,
                        }),
                        SpecParse::Fail { err } => whole == (SpecParse::Fail { err }),
                    }
                }),
            decreases entry.toks().len() - consumed,
        {
            let ghost cur = *self;
            let t0 = self.tokens.peek(0);
            match t0 {
                Err(e) => {
                    proof {
                        assert(cur.toks().len() > 0);
                    }
                    return Err(e);
                },
                Ok(tok) => match tok {
                    Token::EOF => {
                        let _ = self.tokens.get();
                        proof {
                            lemma_command_deep_view(parts);
                            assert(parts.deep_view() + Seq::<SpecExpr>::empty()
                                =~= parts.deep_view());
                        }
                        return Ok(Expr::Command { parts });
                    },
                    Token::NewLine => {
                        let _ = self.tokens.get();
                        proof {
                            assert(cur.toks().len() > 0);
                            lemma_command_deep_view(parts);
                            assert(parts.deep_view() + Seq::<SpecExpr>::empty()
                                =~= parts.deep_view());
                        }
                        return Ok(Expr::Command { parts });
                    },
                    Token::RParen => {
                        proof {
                            assert(cur.toks().len() > 0);
                            lemma_command_deep_view(parts);
                            assert(parts.deep_view() + Seq::<SpecExpr>::empty()
                                =~= parts.deep_view());
                        }
                        return Ok(Expr::Command { parts });
                    },
                    Token::Ident(text) => {
                        let _ = self.tokens.get();
                        let ghost pdv = parts.deep_view();
                        let ghost lit = SpecExpr::Literal { text: text@ };
                        parts.push(Expr::Literal { text });
                        proof {
                            let cs = cur.toks();
                            assert(cs.len() > 0);
                            assert(self.toks() =~= cs.skip(1));
                            consumed = consumed + 1;
                            assert(self.toks() =~= entry.toks().skip(consumed as int));
                            lemma_exprs_deep_from(parts, 0);
                            assert(parts.deep_view() =~= pdv.push(lit));
                            match spec_parse_command(self.toks()) {
                                SpecParse::Done { parts: p2, used: u2 } => {
                                    assert(pdv + (seq![lit] + p2) =~= pdv.push(lit) + p2);
                                },
                                SpecParse::Fail { .. } => {},
                            }
                        }
                    },
                    Token::Text(text) => {
                        let _ = self.tokens.get();
                        let ghost pdv = parts.deep_view();
                        let ghost lit = SpecExpr::Literal { text: text@ };
                        parts.push(Expr::Literal { text });
                        proof {
                            let cs = cur.toks();
                            assert(cs.len() > 0);
                            assert(self.toks() =~= cs.skip(1));
                            consumed = consumed + 1;
                            assert(self.toks() =~= entry.toks().skip(consumed as int));
                            lemma_exprs_deep_from(parts, 0);
                            assert(parts.deep_view() =~= pdv.push(lit));
                            match spec_parse_command(self.toks()) {
                                SpecParse::Done { parts: p2, used: u2 } => {
                                    assert(pdv + (seq![lit] + p2) =~= pdv.push(lit) + p2);
                                },
                                SpecParse::Fail { .. } => {},
                            }
                        }
                    },
                    Token::LParen => {
                        let _ = self.tokens.get();
                        let ghost afterl = *self;
                        proof {
                            assert(cur.toks().len() > 0);
                            assert(afterl.toks() =~= cur.toks().skip(1));
                            lemma_parse_command_used(afterl.toks());
                            assert(afterl.toks().len() < entry.toks().len());
                        }
                        let inner = match self.parse_command() {
                            Ok(e) => e,
                            Err(e) => {
                                return Err(e);
                            },
                        };
                        let ghost afteri = *self;
                        let ghost iu = spec_parse_command(afterl.toks())->Done_used;
                        proof {
                            assert(afteri.toks() == afterl.toks().skip(iu as int));
                            assert(afteri.toks() =~= cur.toks().skip(1 + iu as int));
                        }
                        let t1 = self.tokens.get();
                        match t1 {
                            Err(e) => {
                                proof {
                                    assert(afteri.toks().len() > 0);
                                }
                                return Err(e);
                            },
                            Ok(t1tok) => {
                                if let Token::RParen = t1tok {
                                    let ghost pdv = parts.deep_view();
                                    let ghost grp = inner.deep_view();
                                    parts.push(inner);
                                    proof {
                                        assert(afteri.toks().len() > 0);
                                        assert(self.toks() =~= cur.toks().skip(2 + iu as int));
                                        consumed = consumed + 2 + iu;
                                        assert(self.toks() =~= entry.toks().skip(consumed as int));
                                        lemma_exprs_deep_from(parts, 0);
                                        assert(parts.deep_view() =~= pdv.push(grp));
                                        match spec_parse_command(self.toks()) {
                                            SpecParse::Done { parts: p2, used: u2 } => {
                                                assert(pdv + (seq![grp] + p2) =~= pdv.push(grp)
                                                    + p2);
                                            },
                                            SpecParse::Fail { .. } => {},
                                        }
                                    }
                                } else {
                                    return Err(
                                        Error::UnexpectedToken {
                                            actual: t1tok,
                                            expected: Expected::Tok(TokenKind::RParen),
                                        },
                                    );
                                }
                            },
                        }
                    },
                    other => {
                        proof {
                            assert(cur.toks().len() > 0);
                        }
                        return Err(
                            Error::UnexpectedToken {
                                actual: other,
                                expected: Expected::OneOf(cmd_first_set()),
                            },
                        );
                    },
                },
            }
        }
    }

    /// Build the file node by parsing commands until the next token
    /// available is the end-of-input token, exactly as
    /// [`spec_parse_file`] describes.  On an input holding only the
    /// terminal token this returns a file with zero elements at once.
    pub fn parse_file(&mut self) -> (r: Result<Node, Error>)
        requires
            old(self).inv(),
        ensures
            final(self).inv(),
            ({
                let out = spec_parse_file(old(self).toks());
                match out {
                    SpecParseFile::Done { elements } => r matches Ok(n) && n.deep_view() == (
                    SpecNode::File { elements }),
                    SpecParseFile::Fail { err } => r matches Err(e) && e.deep_view() == err,
                }
            }),
    {
        let ghost entry = *self;
        let mut elements: Vec<Expr> = Vec::new();
        let ghost mut consumed: nat = 0;
        loop
            invariant
                entry == *old(self),
                self.inv(),
                consumed <= entry.toks().len(),
                self.toks() == entry.toks().skip(consumed as int),
                ({
                    let rest = spec_parse_file(self.toks());
                    let whole = spec_parse_file(entry.toks());
                    match rest {
                        SpecParseFile::Done { elements: e2 } => whole == (SpecParseFile::Done {
                            elements: exprs_deep_from(elements, 0) + e2,
                        }),
                        SpecParseFile::Fail { err } => whole == (SpecParseFile::Fail { err }),
                    }
                }),
            decreases entry.toks().len() - consumed,
        {
            let ghost cur = *self;
            let t0 = self.tokens.peek(0);
            match t0 {
                Err(e) => {
                    proof {
                        assert(cur.toks().len() > 0);
                    }
                    return Err(e);
                },
                Ok(Token::EOF) => {
                    proof {
                        assert(exprs_deep_from(elements, 0) + Seq::<SpecExpr>::empty()
                            =~= exprs_deep_from(elements, 0));
                    }
                    return Ok(Node::File { elements });
                },
                Ok(Token::RParen) => {
                    proof {
                        assert(cur.toks().len() > 0);
                    }
                    return Err(
                        Error::UnexpectedToken {
                            actual: Token::RParen,
                            expected: Expected::OneOf(file_first_set()),
                        },
                    );
                },
                Ok(_) => {
                    proof {
                        assert(cur.toks().len() > 0);
                        lemma_parse_command_used(cur.toks());
                    }
                    let cmd = match self.parse_command() {
                        Ok(c) => c,
                        Err(e) => {
                            return Err(e);
                        },
                    };
                    let ghost u = spec_parse_command(cur.toks())->Done_used;
                    let ghost edv = exprs_deep_from(elements, 0);
                    let ghost grp = cmd.deep_view();
                    let ghost oldv = elements;
                    proof {
                        lemma_exprs_deep_from(oldv, 0);
                        assert(oldv.deep_view().skip(0) =~= oldv.deep_view());
                    }
                    elements.push(cmd);
                    proof {
                        consumed = consumed + u;
                        assert(self.toks() =~= entry.toks().skip(consumed as int));
                        lemma_exprs_deep_from(elements, 0);
                        assert(elements.deep_view().skip(0) =~= elements.deep_view());
                        assert(elements.deep_view() =~= oldv.deep_view().push(grp));
                        assert(exprs_deep_from(elements, 0) =~= edv.push(grp));
                        match spec_parse_file(self.toks()) {
                            SpecParseFile::Done { elements: e2 } => {
                                assert(edv + (seq![grp] + e2) =~= edv.push(grp) + e2);
                            },
                            SpecParseFile::Fail { .. } => {},
                        }
                    }
                },
            }
        }
    }
}

} // verus!
