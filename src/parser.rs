//! The grammar of license expressions: `OR` binds loosest, then `AND`, then `WITH`;
//! parentheses group; both binary operators associate to the left.
use vstd::prelude::*;
use vstd::string::*;
use crate::ast::{
    document_ref_prefix, license_ref_prefix, AndExpr, CompoundExpr, LicenseExceptionId, LicenseExpr,
    LicenseId, LicenseRef, OrExpr, ParenExpr, SimpleExpr, SimpleExprWithException, Term,
};
use crate::lexer::{chars_of, lex, tokenize, tokens_fit, Token, TokenKind};

verus! {

/// The deepest nesting of parentheses that is accepted.
pub const MAX_DEPTH: usize = 100;

/// Why a text is not a license expression.
#[derive(Clone, Copy, Debug, PartialEq, Eq, Structural)]
pub enum ParseError {
    /// No token can hold the character at `position`.
    Lexical { position: usize },
    /// The token that starts at `position` (or the end of the text) does not fit the grammar.
    Syntax { position: usize },
}

/// A partial parse: the term read and the index of the first token after it,
/// or the index of the token that does not fit.
pub type Partial = Result<(Term, int), int>;

/// The characters that token `t` covers.
pub open spec fn span(cs: Seq<char>, t: Token) -> Seq<char> {
    cs.subrange(t.start as int, t.end as int)
}

/// The characters of token `t` after its first `n`.
pub open spec fn suffix(cs: Seq<char>, t: Token, n: int) -> Seq<char> {
    cs.subrange(t.start + n, t.end as int)
}

pub open spec fn is_kind(ts: Seq<Token>, p: int, k: TokenKind) -> bool {
    0 <= p < ts.len() && ts[p].kind == k
}

/// A license or a license reference at token `p`.
pub open spec fn leaf(cs: Seq<char>, ts: Seq<Token>, p: int) -> Partial {
    if !(0 <= p < ts.len()) {
        Err(p)
    } else {
        let t = ts[p];
        match t.kind {
            TokenKind::Word { plus } => Ok((Term::Id { id: span(cs, t), plus }, p + 1)),
            TokenKind::LicenseRef => Ok(
                (
                    Term::Ref { document: None, license: suffix(cs, t, license_ref_prefix().len() as int) },
                    p + 1,
                ),
            ),
            TokenKind::DocumentRef => if !is_kind(ts, p + 1, TokenKind::Colon) {
                Err(p + 1)
            } else if !is_kind(ts, p + 2, TokenKind::LicenseRef) {
                Err(p + 2)
            } else {
                Ok(
                    (
                        Term::Ref {
                            document: Some(suffix(cs, t, document_ref_prefix().len() as int)),
                            license: suffix(cs, ts[p + 2], license_ref_prefix().len() as int),
                        },
                        p + 3,
                    ),
                )
            },
            _ => Err(p),
        }
    }
}

/// A parenthesised expression, or a leaf with an optional `WITH <exception>`.
pub open spec fn primary(cs: Seq<char>, ts: Seq<Token>, p: int, d: nat) -> Partial
    decreases d, ts.len() - p, 1int,
{
    if is_kind(ts, p, TokenKind::Open) {
        if d == 0 {
            Err(p)
        } else {
            match disj(cs, ts, p + 1, (d - 1) as nat) {
                Ok((t, q)) => if is_kind(ts, q, TokenKind::Close) {
                    Ok((Term::Paren { inner: Box::new(t) }, q + 1))
                } else {
                    Err(q)
                },
                Err(e) => Err(e),
            }
        }
    } else {
        match leaf(cs, ts, p) {
            Ok((t, q)) => if is_kind(ts, q, TokenKind::With) {
                if is_kind(ts, q + 1, TokenKind::Word { plus: false }) {
                    Ok((Term::With { expr: Box::new(t), exception: span(cs, ts[q + 1]) }, q + 2))
                } else {
                    Err(q + 1)
                }
            } else {
                Ok((t, q))
            },
            Err(e) => Err(e),
        }
    }
}

/// `AND` operands after `acc`, from token `p` on.
pub open spec fn conj_tail(cs: Seq<char>, ts: Seq<Token>, acc: Term, p: int, d: nat) -> Partial
    decreases d, ts.len() - p, 0int,
{
    if is_kind(ts, p, TokenKind::And) {
        match primary(cs, ts, p + 1, d) {
            Ok((t, q)) => if p < q <= ts.len() {
                conj_tail(cs, ts, Term::And { left: Box::new(acc), right: Box::new(t) }, q, d)
            } else {
                Err(q)
            },
            Err(e) => Err(e),
        }
    } else {
        Ok((acc, p))
    }
}

/// A chain of `AND`s.
pub open spec fn conj(cs: Seq<char>, ts: Seq<Token>, p: int, d: nat) -> Partial
    decreases d, ts.len() - p, 2int,
{
    match primary(cs, ts, p, d) {
        Ok((t, q)) => if p < q <= ts.len() {
            conj_tail(cs, ts, t, q, d)
        } else {
            Err(q)
        },
        Err(e) => Err(e),
    }
}

/// `OR` operands after `acc`, from token `p` on.
pub open spec fn disj_tail(cs: Seq<char>, ts: Seq<Token>, acc: Term, p: int, d: nat) -> Partial
    decreases d, ts.len() - p, 3int,
{
    if is_kind(ts, p, TokenKind::Or) {
        match conj(cs, ts, p + 1, d) {
            Ok((t, q)) => if p < q <= ts.len() {
                disj_tail(cs, ts, Term::Or { left: Box::new(acc), right: Box::new(t) }, q, d)
            } else {
                Err(q)
            },
            Err(e) => Err(e),
        }
    } else {
        Ok((acc, p))
    }
}

/// A chain of `OR`s: a whole expression, with at most `d` levels of parentheses.
pub open spec fn disj(cs: Seq<char>, ts: Seq<Token>, p: int, d: nat) -> Partial
    decreases d, ts.len() - p, 4int,
{
    match conj(cs, ts, p, d) {
        Ok((t, q)) => if p < q <= ts.len() {
            disj_tail(cs, ts, t, q, d)
        } else {
            Err(q)
        },
        Err(e) => Err(e),
    }
}

/// The expression that the tokens `ts` of `cs` spell, all of them used,
/// or the index of the first token that does not fit.
pub open spec fn parse_tokens(cs: Seq<char>, ts: Seq<Token>) -> Result<Term, int> {
    match disj(cs, ts, 0, MAX_DEPTH as nat) {
        Ok((t, q)) => if q == ts.len() {
            Ok(t)
        } else {
            Err(q)
        },
        Err(e) => Err(e),
    }
}

/// The expression that the text `cs` spells, or why it spells none.
pub open spec fn parse_text(cs: Seq<char>) -> Result<Term, ParseError> {
    match lex(cs) {
        Err(e) => Err(ParseError::Lexical { position: e.position }),
        Ok(ts) => match parse_tokens(cs, ts) {
            Ok(t) => Ok(t),
            Err(k) => Err(
                ParseError::Syntax {
                    position: if 0 <= k < ts.len() {
                        ts[k].start
                    } else {
                        cs.len() as usize
                    },
                },
            ),
        },
    }
}

/// The characters `from..to` of `s`, as a string of their own.
fn text_of(s: &str, from: usize, to: usize) -> (r: String)
    requires
        from <= to <= s@.len(),
    ensures
        r@ == s@.subrange(from as int, to as int),
{
    String::from_str(s.substring_char(from, to))
}

fn kind_at(ts: &Vec<Token>, p: usize, k: TokenKind) -> (r: bool)
    ensures
        r == is_kind(ts@, p as int, k),
        ts@.len() <= usize::MAX,
{
    p < ts.len() && ts[p].kind == k
}

fn parse_leaf(s: &str, ts: &Vec<Token>, p: usize) -> (r: Result<(SimpleExpr, usize), usize>)
    requires
        tokens_fit(s@, ts@),
        p <= ts@.len(),
    ensures
        match r {
            Ok((e, q)) => leaf(s@, ts@, p as int) == Partial::Ok((e@, q as int)) && p < q
                <= ts@.len(),
            Err(k) => leaf(s@, ts@, p as int) == Partial::Err(k as int),
        },
{
    let n = ts.len();
    if p >= n {
        return Err(p);
    }
    let t = ts[p];
    assert(t == ts@[p as int]);
    match t.kind {
        TokenKind::Word { plus } => {
            let id = text_of(s, t.start, t.end);
            Ok((SimpleExpr::LicenseId(LicenseId { id, plus }), p + 1))
        },
        TokenKind::LicenseRef => {
            let license_ref = text_of(s, t.start + 11, t.end);
            Ok((SimpleExpr::LicenseRef(LicenseRef { license_ref, document_ref: None }), p + 1))
        },
        TokenKind::DocumentRef => {
            if !kind_at(ts, p + 1, TokenKind::Colon) {
                Err(p + 1)
            } else if !kind_at(ts, p + 2, TokenKind::LicenseRef) {
                Err(p + 2)
            } else {
                let l = ts[p + 2];
                assert(l == ts@[p + 2]);
                let document_ref = text_of(s, t.start + 12, t.end);
                let license_ref = text_of(s, l.start + 11, l.end);
                Ok(
                    (
                        SimpleExpr::LicenseRef(
                            LicenseRef { license_ref, document_ref: Some(document_ref) },
                        ),
                        p + 3,
                    ),
                )
            }
        },
        _ => Err(p),
    }
}

fn parse_primary(s: &str, ts: &Vec<Token>, p: usize, d: usize) -> (r: Result<
    (CompoundExpr, usize),
    usize,
>)
    requires
        tokens_fit(s@, ts@),
        p <= ts@.len(),
    ensures
        match r {
            Ok((e, q)) => primary(s@, ts@, p as int, d as nat) == Partial::Ok((e@, q as int)) && p
                < q <= ts@.len(),
            Err(k) => primary(s@, ts@, p as int, d as nat) == Partial::Err(k as int),
        },
    decreases d, ts@.len() - p, 1int,
{
    if kind_at(ts, p, TokenKind::Open) {
        if d == 0 {
            return Err(p);
        }
        match parse_disj(s, ts, p + 1, d - 1) {
            Ok((e, q)) => {
                if kind_at(ts, q, TokenKind::Close) {
                    Ok((CompoundExpr::ParenExpr(ParenExpr { expr: Box::new(e) }), q + 1))
                } else {
                    Err(q)
                }
            },
            Err(k) => Err(k),
        }
    } else {
        match parse_leaf(s, ts, p) {
            Ok((e, q)) => {
                if kind_at(ts, q, TokenKind::With) {
                    if kind_at(ts, q + 1, TokenKind::Word { plus: false }) {
                        let x = ts[q + 1];
                        assert(x == ts@[q + 1]);
                        let id = text_of(s, x.start, x.end);
                        Ok(
                            (
                                CompoundExpr::SimpleExprWithException(
                                    SimpleExprWithException {
                                        expr: e,
                                        license_exception_id: LicenseExceptionId { id },
                                    },
                                ),
                                q + 2,
                            ),
                        )
                    } else {
                        Err(q + 1)
                    }
                } else {
                    Ok((CompoundExpr::SimpleExpr(e), q))
                }
            },
            Err(k) => Err(k),
        }
    }
}

fn parse_conj(s: &str, ts: &Vec<Token>, p: usize, d: usize) -> (r: Result<
    (CompoundExpr, usize),
    usize,
>)
    requires
        tokens_fit(s@, ts@),
        p <= ts@.len(),
    ensures
        match r {
            Ok((e, q)) => conj(s@, ts@, p as int, d as nat) == Partial::Ok((e@, q as int)) && p < q
                <= ts@.len(),
            Err(k) => conj(s@, ts@, p as int, d as nat) == Partial::Err(k as int),
        },
    decreases d, ts@.len() - p, 2int,
{
    let (mut acc, mut q) = match parse_primary(s, ts, p, d) {
        Ok(x) => x,
        Err(k) => {
            return Err(k);
        },
    };
    while kind_at(ts, q, TokenKind::And)
        invariant
            tokens_fit(s@, ts@),
            p < q <= ts@.len(),
            conj(s@, ts@, p as int, d as nat) == conj_tail(s@, ts@, acc@, q as int, d as nat),
        decreases ts@.len() - q,
    {
        match parse_primary(s, ts, q + 1, d) {
            Ok((e, q2)) => {
                acc = CompoundExpr::AndExpr(AndExpr { lexpr: Box::new(acc), rexpr: Box::new(e) });
                q = q2;
            },
            Err(k) => {
                return Err(k);
            },
        }
    }
    Ok((acc, q))
}

fn parse_disj(s: &str, ts: &Vec<Token>, p: usize, d: usize) -> (r: Result<
    (CompoundExpr, usize),
    usize,
>)
    requires
        tokens_fit(s@, ts@),
        p <= ts@.len(),
    ensures
        match r {
            Ok((e, q)) => disj(s@, ts@, p as int, d as nat) == Partial::Ok((e@, q as int)) && p < q
                <= ts@.len(),
            Err(k) => disj(s@, ts@, p as int, d as nat) == Partial::Err(k as int),
        },
    decreases d, ts@.len() - p, 4int,
{
    let (mut acc, mut q) = match parse_conj(s, ts, p, d) {
        Ok(x) => x,
        Err(k) => {
            return Err(k);
        },
    };
    while kind_at(ts, q, TokenKind::Or)
        invariant
            tokens_fit(s@, ts@),
            p < q <= ts@.len(),
            disj(s@, ts@, p as int, d as nat) == disj_tail(s@, ts@, acc@, q as int, d as nat),
        decreases ts@.len() - q,
    {
        match parse_conj(s, ts, q + 1, d) {
            Ok((e, q2)) => {
                acc = CompoundExpr::OrExpr(OrExpr { lexpr: Box::new(acc), rexpr: Box::new(e) });
                q = q2;
            },
            Err(k) => {
                return Err(k);
            },
        }
    }
    Ok((acc, q))
}

/// Parses a license expression; on success the tree is the one that `parse_text`
/// gives, with a lone leaf at the root as `LicenseExpr::SimpleExpr`, and on failure
/// the error is the one that it gives.
pub fn parse(s: &str) -> (r: Result<LicenseExpr, ParseError>)
    ensures
        match r {
            Ok(e) => parse_text(s@) == Result::<Term, ParseError>::Ok(e@) && (e is SimpleExpr
                <==> (e@ is Id || e@ is Ref)),
            Err(x) => parse_text(s@) == Result::<Term, ParseError>::Err(x),
        },
{
    let cs = chars_of(s);
    let ts = match tokenize(&cs) {
        Ok(ts) => ts,
        Err(e) => {
            return Err(ParseError::Lexical { position: e.position });
        },
    };
    let k = match parse_disj(s, &ts, 0, MAX_DEPTH) {
        Ok((e, q)) => {
            if q == ts.len() {
                return Ok(
                    match e {
                        CompoundExpr::SimpleExpr(x) => LicenseExpr::SimpleExpr(x),
                        other => LicenseExpr::CompoundExpr(other),
                    },
                );
            }
            q
        },
        Err(k) => k,
    };
    let position = if k < ts.len() {
        ts[k].start
    } else {
        cs.len()
    };
    Err(ParseError::Syntax { position })
}

impl std::str::FromStr for LicenseExpr {
    type Err = ParseError;

    /// Parses a license expression, as `parse` does.
    fn from_str(s: &str) -> (r: Result<LicenseExpr, ParseError>)
        ensures
            match r {
                Ok(e) => parse_text(s@) == Result::<Term, ParseError>::Ok(e@) && (e is SimpleExpr
                    <==> (e@ is Id || e@ is Ref)),
                Err(x) => parse_text(s@) == Result::<Term, ParseError>::Err(x),
            },
    {
        parse(s)
    }
}

} // verus!
