//! What holds between parsing and printing.
use vstd::prelude::*;
use crate::ast::{and_sep, document_ref_prefix, license_ref_prefix, or_sep, text, with_sep, Term};
use crate::lexer::{
    after, classify, cons, is_id_char, lemma_word_end, kw_and, kw_or, kw_with, lemma_after_cons, lex, lex_from, tok,
    word_end, LexError, Token, TokenKind,
};
use crate::parser::{
    conj, conj_tail, disj, disj_tail, is_kind, leaf, parse_text, parse_tokens, primary, span,
    suffix, ParseError, MAX_DEPTH,
};

verus! {

/// A nonempty run of identifier characters.
pub open spec fn is_ref_part(w: Seq<char>) -> bool {
    w.len() > 0 && forall|k: int| 0 <= k < w.len() ==> is_id_char(#[trigger] w[k])
}

/// An identifier that reads as a license or exception name, not as a keyword or a reference.
pub open spec fn is_word(w: Seq<char>) -> bool {
    is_ref_part(w) && classify(w) == Some(TokenKind::Word { plus: false })
}

pub open spec fn leaf_ok(t: Term) -> bool {
    match t {
        Term::Id { id, plus } => is_word(id),
        Term::Ref { document, license } => is_ref_part(license) && match document {
            Some(d) => is_ref_part(d),
            None => true,
        },
        _ => false,
    }
}

/// A leaf, a leaf `WITH` an exception, or a parenthesised expression,
/// with at most `d` levels of parentheses.
pub open spec fn primary_ok(t: Term, d: nat) -> bool
    decreases t, 0int,
{
    match t {
        Term::With { expr, exception } => leaf_ok(*expr) && is_word(exception),
        Term::Paren { inner } => d > 0 && disj_ok(*inner, (d - 1) as nat),
        _ => leaf_ok(t),
    }
}

/// A left-leaning chain of `AND`s over primaries.
pub open spec fn conj_ok(t: Term, d: nat) -> bool
    decreases t, 1int,
{
    match t {
        Term::And { left, right } => conj_ok(*left, d) && primary_ok(*right, d),
        _ => primary_ok(t, d),
    }
}

/// A left-leaning chain of `OR`s over chains of `AND`s.
pub open spec fn disj_ok(t: Term, d: nat) -> bool
    decreases t, 2int,
{
    match t {
        Term::Or { left, right } => disj_ok(*left, d) && conj_ok(*right, d),
        _ => conj_ok(t, d),
    }
}

/// A term that the grammar can produce: its identifiers are well spelled, each operand
/// binds as tightly as its operator asks, and parentheses nest at most `MAX_DEPTH` deep.
pub open spec fn well_formed(t: Term) -> bool {
    disj_ok(t, MAX_DEPTH as nat)
}

/// How many tokens the text of `t` has.
pub open spec fn ntoks(t: Term) -> nat
    decreases t,
{
    match t {
        Term::Id { .. } => 1,
        Term::Ref { document, .. } => if document is Some {
            3
        } else {
            1
        },
        Term::With { expr, .. } => ntoks(*expr) + 2,
        Term::And { left, right } => ntoks(*left) + 1 + ntoks(*right),
        Term::Or { left, right } => ntoks(*left) + 1 + ntoks(*right),
        Term::Paren { inner } => ntoks(*inner) + 2,
    }
}

/// The tokens of `ts` from `p` on spell `t`, with its identifiers taken from `cs`.
pub open spec fn encodes(cs: Seq<char>, ts: Seq<Token>, p: int, t: Term) -> bool
    decreases t,
{
    0 <= p && p + ntoks(t) <= ts.len() && match t {
        Term::Id { id, plus } => ts[p].kind == (TokenKind::Word { plus }) && span(cs, ts[p]) == id,
        Term::Ref { document, license } => match document {
            None => ts[p].kind == TokenKind::LicenseRef && suffix(
                cs,
                ts[p],
                license_ref_prefix().len() as int,
            ) == license,
            Some(d) => ts[p].kind == TokenKind::DocumentRef && suffix(
                cs,
                ts[p],
                document_ref_prefix().len() as int,
            ) == d && ts[p + 1].kind == TokenKind::Colon && ts[p + 2].kind == TokenKind::LicenseRef
                && suffix(cs, ts[p + 2], license_ref_prefix().len() as int) == license,
        },
        Term::With { expr, exception } => {
            let q = p + ntoks(*expr);
            encodes(cs, ts, p, *expr) && ts[q].kind == TokenKind::With && ts[q + 1].kind == (
            TokenKind::Word { plus: false }) && span(cs, ts[q + 1]) == exception
        },
        Term::And { left, right } => {
            let q = p + ntoks(*left);
            encodes(cs, ts, p, *left) && ts[q].kind == TokenKind::And && encodes(
                cs,
                ts,
                q + 1,
                *right,
            )
        },
        Term::Or { left, right } => {
            let q = p + ntoks(*left);
            encodes(cs, ts, p, *left) && ts[q].kind == TokenKind::Or && encodes(
                cs,
                ts,
                q + 1,
                *right,
            )
        },
        Term::Paren { inner } => ts[p].kind == TokenKind::Open && encodes(cs, ts, p + 1, *inner)
            && ts[p + 1 + ntoks(*inner)].kind == TokenKind::Close,
    }
}

proof fn lemma_leaf(cs: Seq<char>, ts: Seq<Token>, p: int, t: Term)
    requires
        leaf_ok(t),
        encodes(cs, ts, p, t),
    ensures
        leaf(cs, ts, p) == Ok::<(Term, int), int>((t, p + ntoks(t))),
{
}

proof fn lemma_primary(cs: Seq<char>, ts: Seq<Token>, p: int, t: Term, d: nat)
    requires
        primary_ok(t, d),
        encodes(cs, ts, p, t),
        !is_kind(ts, p + ntoks(t), TokenKind::With),
    ensures
        primary(cs, ts, p, d) == Ok::<(Term, int), int>((t, p + ntoks(t))),
    decreases t, 0int,
{
    match t {
        Term::With { expr, exception } => {
            lemma_leaf(cs, ts, p, *expr);
        },
        Term::Paren { inner } => {
            lemma_disj(cs, ts, p + 1, *inner, (d - 1) as nat);
        },
        _ => {
            lemma_leaf(cs, ts, p, t);
        },
    }
}

proof fn lemma_conj_reach(cs: Seq<char>, ts: Seq<Token>, p: int, t: Term, d: nat)
    requires
        conj_ok(t, d),
        encodes(cs, ts, p, t),
        !is_kind(ts, p + ntoks(t), TokenKind::With),
    ensures
        conj(cs, ts, p, d) == conj_tail(cs, ts, t, p + ntoks(t), d),
    decreases t, 1int,
{
    match t {
        Term::And { left, right } => {
            lemma_conj_reach(cs, ts, p, *left, d);
            lemma_primary(cs, ts, p + ntoks(*left) + 1, *right, d);
        },
        _ => {
            lemma_primary(cs, ts, p, t, d);
        },
    }
}

proof fn lemma_disj_reach(cs: Seq<char>, ts: Seq<Token>, p: int, t: Term, d: nat)
    requires
        disj_ok(t, d),
        encodes(cs, ts, p, t),
        !is_kind(ts, p + ntoks(t), TokenKind::With),
        !is_kind(ts, p + ntoks(t), TokenKind::And),
    ensures
        disj(cs, ts, p, d) == disj_tail(cs, ts, t, p + ntoks(t), d),
    decreases t, 2int,
{
    match t {
        Term::Or { left, right } => {
            lemma_disj_reach(cs, ts, p, *left, d);
            lemma_conj_reach(cs, ts, p + ntoks(*left) + 1, *right, d);
        },
        _ => {
            lemma_conj_reach(cs, ts, p, t, d);
        },
    }
}

proof fn lemma_disj(cs: Seq<char>, ts: Seq<Token>, p: int, t: Term, d: nat)
    requires
        disj_ok(t, d),
        encodes(cs, ts, p, t),
        !is_kind(ts, p + ntoks(t), TokenKind::With),
        !is_kind(ts, p + ntoks(t), TokenKind::And),
        !is_kind(ts, p + ntoks(t), TokenKind::Or),
    ensures
        disj(cs, ts, p, d) == Ok::<(Term, int), int>((t, p + ntoks(t))),
    decreases t, 3int,
{
    lemma_disj_reach(cs, ts, p, t, d);
}

/// Every identifier of `t` is well spelled.
pub open spec fn leaves_ok(t: Term) -> bool
    decreases t,
{
    match t {
        Term::With { expr, exception } => leaf_ok(*expr) && is_word(exception),
        Term::And { left, right } => leaves_ok(*left) && leaves_ok(*right),
        Term::Or { left, right } => leaves_ok(*left) && leaves_ok(*right),
        Term::Paren { inner } => leaves_ok(*inner),
        _ => leaf_ok(t),
    }
}

proof fn lemma_primary_leaves(t: Term, d: nat)
    requires
        primary_ok(t, d),
    ensures
        leaves_ok(t),
    decreases t, 0int,
{
    if let Term::Paren { inner } = t {
        lemma_disj_leaves(*inner, (d - 1) as nat);
    }
}

proof fn lemma_conj_leaves(t: Term, d: nat)
    requires
        conj_ok(t, d),
    ensures
        leaves_ok(t),
    decreases t, 1int,
{
    match t {
        Term::And { left, right } => {
            lemma_conj_leaves(*left, d);
            lemma_primary_leaves(*right, d);
        },
        _ => lemma_primary_leaves(t, d),
    }
}

proof fn lemma_disj_leaves(t: Term, d: nat)
    requires
        disj_ok(t, d),
    ensures
        leaves_ok(t),
    decreases t, 2int,
{
    match t {
        Term::Or { left, right } => {
            lemma_disj_leaves(*left, d);
            lemma_conj_leaves(*right, d);
        },
        _ => lemma_conj_leaves(t, d),
    }
}

/// What may follow the text of a term: the end, a space or a closing parenthesis.
pub open spec fn boundary(cs: Seq<char>, j: int) -> bool {
    j == cs.len() || (0 <= j < cs.len() && (cs[j] == ' ' || cs[j] == ')'))
}

pub open spec fn placed(cs: Seq<char>, i: int, w: Seq<char>) -> bool {
    0 <= i && i + w.len() <= cs.len() && cs.subrange(i, i + w.len()) == w
}

proof fn lemma_split(cs: Seq<char>, i: int, a: Seq<char>, b: Seq<char>)
    requires
        placed(cs, i, a + b),
    ensures
        placed(cs, i, a),
        placed(cs, i + a.len(), b),
{
    assert(cs.subrange(i, i + a.len()) =~= (a + b).subrange(0, a.len() as int));
    assert(cs.subrange(i + a.len(), i + a.len() + b.len()) =~= (a + b).subrange(
        a.len() as int,
        (a + b).len() as int,
    ));
    assert((a + b).subrange(0, a.len() as int) =~= a);
    assert((a + b).subrange(a.len() as int, (a + b).len() as int) =~= b);
}

proof fn lemma_placed_index(cs: Seq<char>, i: int, w: Seq<char>, k: int)
    requires
        placed(cs, i, w),
        0 <= k < w.len(),
    ensures
        cs[i + k] == w[k],
{
    assert(cs.subrange(i, i + w.len())[k] == w[k]);
}

proof fn lemma_word_run(cs: Seq<char>, i: int, w: Seq<char>, k: int)
    requires
        placed(cs, i, w),
        forall|m: int| 0 <= m < w.len() ==> is_id_char(#[trigger] w[m]),
        i + w.len() == cs.len() || !is_id_char(cs[i + w.len()]),
        i <= k <= i + w.len(),
    ensures
        word_end(cs, k) == i + w.len(),
    decreases i + w.len() - k,
{
    if k < i + w.len() {
        lemma_placed_index(cs, i, w, k - i);
        lemma_word_run(cs, i, w, k + 1);
    }
}

/// A word of identifier characters at `i`, ended by a character of no identifier,
/// lexes as one token of kind `kind`.
proof fn lemma_lex_word(cs: Seq<char>, i: int, w: Seq<char>, kind: TokenKind)
    requires
        placed(cs, i, w),
        w.len() > 0,
        forall|m: int| 0 <= m < w.len() ==> is_id_char(#[trigger] w[m]),
        i + w.len() == cs.len() || !is_id_char(cs[i + w.len()]),
        i + w.len() < cs.len() ==> cs[i + w.len()] != '+',
        classify(w) == Some(kind),
    ensures
        lex_from(cs, i) == cons(tok(kind, i, i + w.len()), lex_from(cs, i + w.len())),
{
    lemma_word_run(cs, i, w, i);
    lemma_placed_index(cs, i, w, 0);
}

proof fn lemma_lex_keyword(cs: Seq<char>, i: int, sep: Seq<char>, kw: Seq<char>, kind: TokenKind)
    requires
        placed(cs, i, sep),
        sep == seq![' '] + kw + seq![' '],
        kw.len() > 0,
        forall|m: int| 0 <= m < kw.len() ==> is_id_char(#[trigger] kw[m]),
        classify(kw) == Some(kind),
    ensures
        lex_from(cs, i) == cons(tok(kind, i + 1, i + 1 + kw.len()), lex_from(cs, i + sep.len())),
{
    lemma_split(cs, i, seq![' '] + kw, seq![' ']);
    lemma_split(cs, i, seq![' '], kw);
    lemma_placed_index(cs, i, seq![' '], 0);
    lemma_placed_index(cs, i + 1 + kw.len(), seq![' '], 0);
    lemma_lex_word(cs, i + 1, kw, kind);
}

proof fn lemma_after_after(x: Seq<Token>, y: Seq<Token>, r: Result<Seq<Token>, LexError>)
    ensures
        after(x, after(y, r)) == after(x + y, r),
{
    if let Ok(ts) = r {
        assert(x + (y + ts) =~= (x + y) + ts);
    }
}

proof fn lemma_encodes_shift(
    cs: Seq<char>,
    x: Seq<Token>,
    p: int,
    t: Term,
    pre: Seq<Token>,
    post: Seq<Token>,
)
    requires
        encodes(cs, x, p, t),
    ensures
        encodes(cs, pre + x + post, pre.len() + p, t),
    decreases t,
{
    let y = pre + x + post;
    assert forall|k: int| 0 <= k < x.len() implies #[trigger] y[pre.len() + k] == x[k] by {
        assert(y[pre.len() + k] == (pre + x)[pre.len() + k]);
    }
    match t {
        Term::With { expr, .. } => {
            lemma_encodes_shift(cs, x, p, *expr, pre, post);
        },
        Term::And { left, right } => {
            lemma_encodes_shift(cs, x, p, *left, pre, post);
            lemma_encodes_shift(cs, x, p + ntoks(*left) + 1, *right, pre, post);
        },
        Term::Or { left, right } => {
            lemma_encodes_shift(cs, x, p, *left, pre, post);
            lemma_encodes_shift(cs, x, p + ntoks(*left) + 1, *right, pre, post);
        },
        Term::Paren { inner } => {
            lemma_encodes_shift(cs, x, p + 1, *inner, pre, post);
        },
        _ => {},
    }
}

proof fn lemma_ref_word(w: Seq<char>, l: Seq<char>)
    requires
        w == license_ref_prefix() + l,
        is_ref_part(l),
    ensures
        forall|m: int| 0 <= m < w.len() ==> is_id_char(#[trigger] w[m]),
        classify(w) == Some(TokenKind::LicenseRef),
{
    let p = license_ref_prefix();
    assert forall|m: int| 0 <= m < w.len() implies is_id_char(#[trigger] w[m]) by {
        if m >= p.len() {
            assert(w[m] == l[m - p.len()]);
        }
    }
    assert(w.subrange(0, 12)[0] != document_ref_prefix()[0]);
    assert(w.subrange(0, 11) =~= p);
}

proof fn lemma_doc_word(w: Seq<char>, d: Seq<char>)
    requires
        w == document_ref_prefix() + d,
        is_ref_part(d),
    ensures
        forall|m: int| 0 <= m < w.len() ==> is_id_char(#[trigger] w[m]),
        classify(w) == Some(TokenKind::DocumentRef),
{
    let p = document_ref_prefix();
    assert forall|m: int| 0 <= m < w.len() implies is_id_char(#[trigger] w[m]) by {
        if m >= p.len() {
            assert(w[m] == d[m - p.len()]);
        }
    }
    assert(w.subrange(0, 12) =~= p);
}

proof fn lemma_keywords()
    ensures
        seq![' '] + kw_and() + seq![' '] == and_sep(),
        seq![' '] + kw_or() + seq![' '] == or_sep(),
        seq![' '] + kw_with() + seq![' '] == with_sep(),
        classify(kw_and()) == Some(TokenKind::And),
        classify(kw_or()) == Some(TokenKind::Or),
        classify(kw_with()) == Some(TokenKind::With),
        forall|m: int| 0 <= m < kw_and().len() ==> is_id_char(#[trigger] kw_and()[m]),
        forall|m: int| 0 <= m < kw_or().len() ==> is_id_char(#[trigger] kw_or()[m]),
        forall|m: int| 0 <= m < kw_with().len() ==> is_id_char(#[trigger] kw_with()[m]),
{
    assert(seq![' '] + kw_and() + seq![' '] =~= and_sep());
    assert(seq![' '] + kw_or() + seq![' '] =~= or_sep());
    assert(seq![' '] + kw_with() + seq![' '] =~= with_sep());
}

/// Lexing the text of `t`, followed by an end, a space or a `)`, yields tokens that
/// encode `t`, and then goes on after that text.
proof fn lemma_lex_term(cs: Seq<char>, i: int, t: Term) -> (x: Seq<Token>)
    requires
        cs.len() <= usize::MAX,
        leaves_ok(t),
        placed(cs, i, text(t)),
        boundary(cs, i + text(t).len()),
    ensures
        x.len() == ntoks(t),
        encodes(cs, x, 0, t),
        lex_from(cs, i) == after(x, lex_from(cs, i + text(t).len())),
    decreases t, 1int,
{
    match t {
        Term::Id { .. } => lemma_lex_id(cs, i, t),
        Term::Ref { .. } => lemma_lex_ref(cs, i, t),
        Term::With { .. } => lemma_lex_with(cs, i, t),
        Term::And { .. } => lemma_lex_and(cs, i, t),
        Term::Or { .. } => lemma_lex_or(cs, i, t),
        Term::Paren { .. } => lemma_lex_paren(cs, i, t),
    }
}

proof fn lemma_lex_id(cs: Seq<char>, i: int, t: Term) -> (x: Seq<Token>)
    requires
        cs.len() <= usize::MAX,
        leaves_ok(t),
        placed(cs, i, text(t)),
        boundary(cs, i + text(t).len()),
        t is Id,
    ensures
        x.len() == ntoks(t),
        encodes(cs, x, 0, t),
        lex_from(cs, i) == after(x, lex_from(cs, i + text(t).len())),
    decreases t, 0int,
{
    let n = text(t).len();
    let rest = lex_from(cs, i + n);
    match t {
        Term::Id { id, plus } => {
            if plus {
                assert(text(t) =~= id + seq!['+']);
                lemma_split(cs, i, id, seq!['+']);
                lemma_placed_index(cs, i + id.len(), seq!['+'], 0);
                lemma_word_run(cs, i, id, i);
                lemma_placed_index(cs, i, id, 0);
            } else {
                lemma_lex_word(cs, i, id, TokenKind::Word { plus: false });
            }
            seq![tok(TokenKind::Word { plus }, i, i + id.len())]
        },
        _ => seq![],
    }
}

proof fn lemma_lex_ref(cs: Seq<char>, i: int, t: Term) -> (x: Seq<Token>)
    requires
        cs.len() <= usize::MAX,
        leaves_ok(t),
        placed(cs, i, text(t)),
        boundary(cs, i + text(t).len()),
        t is Ref,
    ensures
        x.len() == ntoks(t),
        encodes(cs, x, 0, t),
        lex_from(cs, i) == after(x, lex_from(cs, i + text(t).len())),
    decreases t, 0int,
{
    let n = text(t).len();
    let rest = lex_from(cs, i + n);
    match t {
        Term::Ref { document, license } => {
            match document {
                None => {
                    lemma_ref_word(text(t), license);
                    lemma_split(cs, i, license_ref_prefix(), license);
                    lemma_lex_word(cs, i, text(t), TokenKind::LicenseRef);
                    seq![tok(TokenKind::LicenseRef, i, i + n)]
                },
                Some(d) => {
                    let a = document_ref_prefix() + d;
                    let b = license_ref_prefix() + license;
                    assert(text(t) =~= (a + seq![':']) + b);
                    lemma_split(cs, i, a + seq![':'], b);
                    lemma_split(cs, i, a, seq![':']);
                    lemma_split(cs, i, document_ref_prefix(), d);
                    lemma_split(cs, i + a.len() + 1, license_ref_prefix(), license);
                    lemma_placed_index(cs, i + a.len(), seq![':'], 0);
                    lemma_doc_word(a, d);
                    lemma_ref_word(b, license);
                    lemma_lex_word(cs, i, a, TokenKind::DocumentRef);
                    lemma_lex_word(cs, i + a.len() + 1, b, TokenKind::LicenseRef);
                    let t0 = tok(TokenKind::DocumentRef, i, i + a.len());
                    let t1 = tok(TokenKind::Colon, i + a.len(), i + a.len() + 1);
                    let t2 = tok(TokenKind::LicenseRef, i + a.len() + 1, i + n);
                    lemma_after_cons(seq![t0], t1, cons(t2, rest));
                    lemma_after_cons(seq![t0].push(t1), t2, rest);
                    assert(seq![t0].push(t1).push(t2) =~= seq![t0, t1, t2]);
                    seq![t0, t1, t2]
                },
            }
        },
        _ => seq![],
    }
}

proof fn lemma_lex_with(cs: Seq<char>, i: int, t: Term) -> (x: Seq<Token>)
    requires
        cs.len() <= usize::MAX,
        leaves_ok(t),
        placed(cs, i, text(t)),
        boundary(cs, i + text(t).len()),
        t is With,
    ensures
        x.len() == ntoks(t),
        encodes(cs, x, 0, t),
        lex_from(cs, i) == after(x, lex_from(cs, i + text(t).len())),
    decreases t, 0int,
{
    let n = text(t).len();
    let rest = lex_from(cs, i + n);
    match t {
        Term::With { expr, exception } => {
            let e = text(*expr);
            lemma_split(cs, i, e + with_sep(), exception);
            lemma_split(cs, i, e, with_sep());
            lemma_placed_index(cs, i + e.len(), with_sep(), 0);
            let xe = lemma_lex_term(cs, i, *expr);
            lemma_keywords();
            lemma_lex_keyword(cs, i + e.len(), with_sep(), kw_with(), TokenKind::With);
            let j = i + e.len() + with_sep().len();
            lemma_lex_word(cs, j, exception, TokenKind::Word { plus: false });
            let tw = tok(TokenKind::With, i + e.len() + 1, i + e.len() + 5);
            let tx = tok(TokenKind::Word { plus: false }, j, j + exception.len());
            lemma_after_cons(xe, tw, cons(tx, rest));
            lemma_after_cons(xe.push(tw), tx, rest);
            let x = xe.push(tw).push(tx);
            lemma_encodes_shift(cs, xe, 0, *expr, seq![], seq![tw, tx]);
            assert(seq![] + xe + seq![tw, tx] =~= x);
            x
        },
        _ => seq![],
    }
}

proof fn lemma_lex_and(cs: Seq<char>, i: int, t: Term) -> (x: Seq<Token>)
    requires
        cs.len() <= usize::MAX,
        leaves_ok(t),
        placed(cs, i, text(t)),
        boundary(cs, i + text(t).len()),
        t is And,
    ensures
        x.len() == ntoks(t),
        encodes(cs, x, 0, t),
        lex_from(cs, i) == after(x, lex_from(cs, i + text(t).len())),
    decreases t, 0int,
{
    let n = text(t).len();
    let rest = lex_from(cs, i + n);
    match t {
        Term::And { left, right } => {
            let a = text(*left);
            let b = text(*right);
            lemma_split(cs, i, a + and_sep(), b);
            lemma_split(cs, i, a, and_sep());
            lemma_placed_index(cs, i + a.len(), and_sep(), 0);
            let xl = lemma_lex_term(cs, i, *left);
            lemma_keywords();
            lemma_lex_keyword(cs, i + a.len(), and_sep(), kw_and(), TokenKind::And);
            let j = i + a.len() + and_sep().len();
            let xr = lemma_lex_term(cs, j, *right);
            let ta = tok(TokenKind::And, i + a.len() + 1, i + a.len() + 4);
            assert(j + b.len() == i + n);
            lemma_after_cons(xl, ta, lex_from(cs, j));
            lemma_after_after(xl.push(ta), xr, rest);
            let x = xl.push(ta) + xr;
            lemma_encodes_shift(cs, xl, 0, *left, seq![], seq![ta] + xr);
            assert(seq![] + xl + (seq![ta] + xr) =~= x);
            lemma_encodes_shift(cs, xr, 0, *right, xl.push(ta), seq![]);
            assert(xl.push(ta) + xr + seq![] =~= x);
            x
        },
        _ => seq![],
    }
}

proof fn lemma_lex_or(cs: Seq<char>, i: int, t: Term) -> (x: Seq<Token>)
    requires
        cs.len() <= usize::MAX,
        leaves_ok(t),
        placed(cs, i, text(t)),
        boundary(cs, i + text(t).len()),
        t is Or,
    ensures
        x.len() == ntoks(t),
        encodes(cs, x, 0, t),
        lex_from(cs, i) == after(x, lex_from(cs, i + text(t).len())),
    decreases t, 0int,
{
    let n = text(t).len();
    let rest = lex_from(cs, i + n);
    match t {
        Term::Or { left, right } => {
            let a = text(*left);
            let b = text(*right);
            lemma_split(cs, i, a + or_sep(), b);
            lemma_split(cs, i, a, or_sep());
            lemma_placed_index(cs, i + a.len(), or_sep(), 0);
            let xl = lemma_lex_term(cs, i, *left);
            lemma_keywords();
            lemma_lex_keyword(cs, i + a.len(), or_sep(), kw_or(), TokenKind::Or);
            let j = i + a.len() + or_sep().len();
            let xr = lemma_lex_term(cs, j, *right);
            let to = tok(TokenKind::Or, i + a.len() + 1, i + a.len() + 3);
            assert(j + b.len() == i + n);
            lemma_after_cons(xl, to, lex_from(cs, j));
            lemma_after_after(xl.push(to), xr, rest);
            let x = xl.push(to) + xr;
            lemma_encodes_shift(cs, xl, 0, *left, seq![], seq![to] + xr);
            assert(seq![] + xl + (seq![to] + xr) =~= x);
            lemma_encodes_shift(cs, xr, 0, *right, xl.push(to), seq![]);
            assert(xl.push(to) + xr + seq![] =~= x);
            x
        },
        _ => seq![],
    }
}

proof fn lemma_lex_paren(cs: Seq<char>, i: int, t: Term) -> (x: Seq<Token>)
    requires
        cs.len() <= usize::MAX,
        leaves_ok(t),
        placed(cs, i, text(t)),
        boundary(cs, i + text(t).len()),
        t is Paren,
    ensures
        x.len() == ntoks(t),
        encodes(cs, x, 0, t),
        lex_from(cs, i) == after(x, lex_from(cs, i + text(t).len())),
    decreases t, 0int,
{
    let n = text(t).len();
    let rest = lex_from(cs, i + n);
    match t {
        Term::Paren { inner } => {
            let a = text(*inner);
            lemma_split(cs, i, seq!['('] + a, seq![')']);
            lemma_split(cs, i, seq!['('], a);
            lemma_placed_index(cs, i, seq!['('], 0);
            lemma_placed_index(cs, i + 1 + a.len(), seq![')'], 0);
            let xi = lemma_lex_term(cs, i + 1, *inner);
            let t0 = tok(TokenKind::Open, i, i + 1);
            let t1 = tok(TokenKind::Close, i + 1 + a.len(), i + 2 + a.len());
            lemma_after_cons(xi, t1, rest);
            lemma_after_after(seq![t0], xi.push(t1), rest);
            let x = seq![t0] + xi.push(t1);
            lemma_encodes_shift(cs, xi, 0, *inner, seq![t0], seq![t1]);
            assert(seq![t0] + xi + seq![t1] =~= x);
            x
        },
        _ => seq![],
    }
}

/// Round trip: printing a well-formed term and parsing the text gives the term back.
/// So a text in canonical spelling (the text of a well-formed term) is reproduced
/// exactly by parsing it and printing the result.
pub proof fn lemma_round_trip(t: Term)
    requires
        well_formed(t),
        text(t).len() <= usize::MAX,
    ensures
        parse_text(text(t)) == Ok::<Term, ParseError>(t),
{
    let cs = text(t);
    assert(cs.subrange(0, cs.len() as int) =~= cs);
    lemma_disj_leaves(t, MAX_DEPTH as nat);
    let x = lemma_lex_term(cs, 0, t);
    assert(x + seq![] =~= x);
    assert(lex(cs) == Ok::<Seq<Token>, LexError>(x));
    lemma_disj(cs, x, 0, t, MAX_DEPTH as nat);
}

/// The token `t` of `cs` is well spelled: a word is an identifier, a reference has
/// a nonempty run of identifier characters after its prefix.
pub open spec fn token_ok(cs: Seq<char>, t: Token) -> bool {
    &&& t.start <= t.end <= cs.len()
    &&& (t.kind is Word ==> is_word(span(cs, t)))
    &&& (t.kind == TokenKind::LicenseRef ==> t.end - t.start > license_ref_prefix().len()
        && is_ref_part(suffix(cs, t, license_ref_prefix().len() as int)))
    &&& (t.kind == TokenKind::DocumentRef ==> t.end - t.start > document_ref_prefix().len()
        && is_ref_part(suffix(cs, t, document_ref_prefix().len() as int)))
}

pub open spec fn tokens_ok(cs: Seq<char>, ts: Seq<Token>) -> bool {
    forall|k: int| 0 <= k < ts.len() ==> token_ok(cs, #[trigger] ts[k])
}

proof fn lemma_cons_ok(cs: Seq<char>, t: Token, r: Result<Seq<Token>, LexError>)
    requires
        token_ok(cs, t),
        r matches Ok(ts) ==> tokens_ok(cs, ts),
    ensures
        cons(t, r) matches Ok(ts) ==> tokens_ok(cs, ts),
{
    if let Ok(ts) = r {
        assert forall|k: int| 0 <= k < (seq![t] + ts).len() implies token_ok(
            cs,
            #[trigger] (seq![t] + ts)[k],
        ) by {
            if k > 0 {
                assert((seq![t] + ts)[k] == ts[k - 1]);
            }
        }
    }
}

proof fn lemma_lex_ok(cs: Seq<char>, i: int)
    requires
        cs.len() <= usize::MAX,
        0 <= i,
    ensures
        lex_from(cs, i) matches Ok(ts) ==> tokens_ok(cs, ts),
    decreases cs.len() - i,
{
    if i < cs.len() {
        let c = cs[i];
        if is_id_char(c) && !(c == '(' || c == ')' || c == ':' || c == '/') {
            lemma_word_end_facts(cs, i);
            let j = word_end(cs, i);
            let w = cs.subrange(i, j);
            assert forall|m: int| 0 <= m < w.len() implies is_id_char(#[trigger] w[m]) by {
                assert(w[m] == cs[i + m]);
            }
            if let Some(kind) = classify(w) {
                if kind == TokenKind::LicenseRef {
                    assert(suffix(cs, tok(kind, i, j), license_ref_prefix().len() as int)
                        =~= w.subrange(11, w.len() as int));
                }
                if kind == TokenKind::DocumentRef {
                    assert(suffix(cs, tok(kind, i, j), document_ref_prefix().len() as int)
                        =~= w.subrange(12, w.len() as int));
                }
                if j < cs.len() && cs[j] == '+' && kind == (TokenKind::Word { plus: false }) {
                    lemma_lex_ok(cs, j + 1);
                    lemma_cons_ok(cs, tok(TokenKind::Word { plus: true }, i, j), lex_from(cs, j + 1));
                } else if !(j < cs.len() && cs[j] == '+') {
                    lemma_lex_ok(cs, j);
                    lemma_cons_ok(cs, tok(kind, i, j), lex_from(cs, j));
                }
            }
        } else {
            lemma_lex_ok(cs, i + 1);
            if c == '(' {
                lemma_cons_ok(cs, tok(TokenKind::Open, i, i + 1), lex_from(cs, i + 1));
            } else if c == ')' {
                lemma_cons_ok(cs, tok(TokenKind::Close, i, i + 1), lex_from(cs, i + 1));
            } else if c == ':' {
                lemma_cons_ok(cs, tok(TokenKind::Colon, i, i + 1), lex_from(cs, i + 1));
            } else if c == '/' {
                lemma_cons_ok(cs, tok(TokenKind::Or, i, i + 1), lex_from(cs, i + 1));
            }
        }
    }
}

proof fn lemma_word_end_facts(cs: Seq<char>, i: int)
    requires
        0 <= i < cs.len(),
        is_id_char(cs[i]),
    ensures
        i < word_end(cs, i) <= cs.len(),
        forall|k: int| i <= k < word_end(cs, i) ==> is_id_char(#[trigger] cs[k]),
        word_end(cs, i) < cs.len() ==> !is_id_char(cs[word_end(cs, i)]),
{
    lemma_word_end(cs, i + 1);
    assert(word_end(cs, i) == word_end(cs, i + 1));
}

proof fn lemma_leaf_sound(cs: Seq<char>, ts: Seq<Token>, p: int)
    requires
        tokens_ok(cs, ts),
    ensures
        leaf(cs, ts, p) matches Ok((t, q)) ==> leaf_ok(t),
{
    if 0 <= p < ts.len() {
        assert(token_ok(cs, ts[p]));
        if 0 <= p + 2 < ts.len() {
            assert(token_ok(cs, ts[p + 2]));
        }
    }
}

proof fn lemma_primary_sound(cs: Seq<char>, ts: Seq<Token>, p: int, d: nat)
    requires
        tokens_ok(cs, ts),
    ensures
        primary(cs, ts, p, d) matches Ok((t, q)) ==> primary_ok(t, d),
    decreases d, ts.len() - p, 1int,
{
    if is_kind(ts, p, TokenKind::Open) {
        if d > 0 {
            lemma_disj_sound(cs, ts, p + 1, (d - 1) as nat);
        }
    } else {
        lemma_leaf_sound(cs, ts, p);
        if let Ok((t, q)) = leaf(cs, ts, p) {
            if is_kind(ts, q + 1, TokenKind::Word { plus: false }) {
                assert(token_ok(cs, ts[q + 1]));
            }
        }
    }
}

proof fn lemma_conj_tail_sound(cs: Seq<char>, ts: Seq<Token>, acc: Term, p: int, d: nat)
    requires
        tokens_ok(cs, ts),
        conj_ok(acc, d),
    ensures
        conj_tail(cs, ts, acc, p, d) matches Ok((t, q)) ==> conj_ok(t, d),
    decreases d, ts.len() - p, 0int,
{
    if is_kind(ts, p, TokenKind::And) {
        lemma_primary_sound(cs, ts, p + 1, d);
        if let Ok((r, q)) = primary(cs, ts, p + 1, d) {
            if p < q <= ts.len() {
                let t = Term::And { left: Box::new(acc), right: Box::new(r) };
                assert(conj_ok(t, d));
                lemma_conj_tail_sound(cs, ts, t, q, d);
            }
        }
    }
}

proof fn lemma_conj_sound(cs: Seq<char>, ts: Seq<Token>, p: int, d: nat)
    requires
        tokens_ok(cs, ts),
    ensures
        conj(cs, ts, p, d) matches Ok((t, q)) ==> conj_ok(t, d),
    decreases d, ts.len() - p, 2int,
{
    lemma_primary_sound(cs, ts, p, d);
    if let Ok((t, q)) = primary(cs, ts, p, d) {
        if p < q <= ts.len() {
            lemma_conj_tail_sound(cs, ts, t, q, d);
        }
    }
}

proof fn lemma_disj_tail_sound(cs: Seq<char>, ts: Seq<Token>, acc: Term, p: int, d: nat)
    requires
        tokens_ok(cs, ts),
        disj_ok(acc, d),
    ensures
        disj_tail(cs, ts, acc, p, d) matches Ok((t, q)) ==> disj_ok(t, d),
    decreases d, ts.len() - p, 3int,
{
    if is_kind(ts, p, TokenKind::Or) {
        lemma_conj_sound(cs, ts, p + 1, d);
        if let Ok((r, q)) = conj(cs, ts, p + 1, d) {
            if p < q <= ts.len() {
                let t = Term::Or { left: Box::new(acc), right: Box::new(r) };
                assert(disj_ok(t, d));
                lemma_disj_tail_sound(cs, ts, t, q, d);
            }
        }
    }
}

proof fn lemma_disj_sound(cs: Seq<char>, ts: Seq<Token>, p: int, d: nat)
    requires
        tokens_ok(cs, ts),
    ensures
        disj(cs, ts, p, d) matches Ok((t, q)) ==> disj_ok(t, d),
    decreases d, ts.len() - p, 4int,
{
    lemma_conj_sound(cs, ts, p, d);
    if let Ok((t, q)) = conj(cs, ts, p, d) {
        if p < q <= ts.len() {
            if let Term::Or { .. } = t {
                assert(!primary_ok(t, d));
            }
            lemma_disj_tail_sound(cs, ts, t, q, d);
        }
    }
}

/// Whatever a text parses to is well formed.
pub proof fn lemma_parse_well_formed(s: Seq<char>)
    requires
        s.len() <= usize::MAX,
    ensures
        parse_text(s) matches Ok(t) ==> well_formed(t),
{
    lemma_lex_ok(s, 0);
    if let Ok(ts) = lex(s) {
        lemma_disj_sound(s, ts, 0, MAX_DEPTH as nat);
    }
}

/// Printing is idempotent: the canonical text of what a text parses to parses to the
/// same tree, so printing, parsing and printing again gives the same text.
pub proof fn lemma_print_idempotent(s: Seq<char>, t: Term)
    requires
        s.len() <= usize::MAX,
        parse_text(s) == Ok::<Term, ParseError>(t),
        text(t).len() <= usize::MAX,
    ensures
        parse_text(text(t)) == Ok::<Term, ParseError>(t),
        parse_text(text(t)) matches Ok(u) && text(u) == text(t),
{
    lemma_parse_well_formed(s);
    lemma_round_trip(t);
}

} // verus!
