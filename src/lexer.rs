//! Splitting the text of an expression into tokens.
use vstd::prelude::*;
use vstd::string::*;
use crate::ast::{document_ref_prefix, license_ref_prefix};

verus! {

/// What a token is.
#[derive(Clone, Copy, Debug, PartialEq, Eq, Structural)]
pub enum TokenKind {
    /// A license or exception identifier; `plus` when a `+` follows it directly.
    Word { plus: bool },
    /// `DocumentRef-<suffix>`.
    DocumentRef,
    /// `LicenseRef-<suffix>`.
    LicenseRef,
    And,
    /// `OR`, or its older spelling `/`.
    Or,
    With,
    Open,
    Close,
    Colon,
}

/// A token and the characters `start..end` of the input that it covers
/// (for a word, without its `+`).
#[derive(Clone, Copy, Debug, PartialEq, Eq, Structural)]
pub struct Token {
    pub kind: TokenKind,
    pub start: usize,
    pub end: usize,
}

/// A character that no token can hold at `position`.
#[derive(Clone, Copy, Debug, PartialEq, Eq, Structural)]
pub struct LexError {
    pub position: usize,
}

pub open spec fn is_space(c: char) -> bool {
    c == ' ' || c == '\t' || c == '\n' || c == '\r'
}

/// A character of an identifier or of a reference: a letter, a digit, `.` or `-`.
pub open spec fn is_id_char(c: char) -> bool {
    ('a' <= c && c <= 'z') || ('A' <= c && c <= 'Z') || ('0' <= c && c <= '9') || c == '.'
        || c == '-'
}

/// The end of the longest run of identifier characters from `i`.
pub open spec fn word_end(cs: Seq<char>, i: int) -> int
    decreases cs.len() - i,
{
    if 0 <= i < cs.len() && is_id_char(cs[i]) {
        word_end(cs, i + 1)
    } else {
        i
    }
}

pub open spec fn kw_and() -> Seq<char> {
    seq!['A', 'N', 'D']
}

pub open spec fn kw_or() -> Seq<char> {
    seq!['O', 'R']
}

pub open spec fn kw_with() -> Seq<char> {
    seq!['W', 'I', 'T', 'H']
}

pub open spec fn has_prefix(w: Seq<char>, p: Seq<char>) -> bool {
    w.len() >= p.len() && w.subrange(0, p.len() as int) == p
}

/// What the word `w` is, or `None` for a reference prefix with nothing after it.
pub open spec fn classify(w: Seq<char>) -> Option<TokenKind> {
    if w == kw_and() {
        Some(TokenKind::And)
    } else if w == kw_or() {
        Some(TokenKind::Or)
    } else if w == kw_with() {
        Some(TokenKind::With)
    } else if has_prefix(w, document_ref_prefix()) {
        if w.len() > document_ref_prefix().len() {
            Some(TokenKind::DocumentRef)
        } else {
            None
        }
    } else if has_prefix(w, license_ref_prefix()) {
        if w.len() > license_ref_prefix().len() {
            Some(TokenKind::LicenseRef)
        } else {
            None
        }
    } else {
        Some(TokenKind::Word { plus: false })
    }
}

pub open spec fn cons(t: Token, r: Result<Seq<Token>, LexError>) -> Result<Seq<Token>, LexError> {
    match r {
        Ok(ts) => Ok(seq![t] + ts),
        Err(e) => Err(e),
    }
}

pub open spec fn tok(kind: TokenKind, start: int, end: int) -> Token {
    Token { kind, start: start as usize, end: end as usize }
}

/// The tokens of `cs` from position `i` on, or the first character that fits none.
pub open spec fn lex_from(cs: Seq<char>, i: int) -> Result<Seq<Token>, LexError>
    decreases cs.len() - i,
    via lex_from_decreases
{
    if i < 0 || i >= cs.len() {
        Ok(seq![])
    } else {
        let c = cs[i];
        if is_space(c) {
            lex_from(cs, i + 1)
        } else if c == '(' {
            cons(tok(TokenKind::Open, i, i + 1), lex_from(cs, i + 1))
        } else if c == ')' {
            cons(tok(TokenKind::Close, i, i + 1), lex_from(cs, i + 1))
        } else if c == ':' {
            cons(tok(TokenKind::Colon, i, i + 1), lex_from(cs, i + 1))
        } else if c == '/' {
            cons(tok(TokenKind::Or, i, i + 1), lex_from(cs, i + 1))
        } else if is_id_char(c) {
            let j = word_end(cs, i);
            match classify(cs.subrange(i, j)) {
                None => Err(LexError { position: j as usize }),
                Some(kind) => if j < cs.len() && cs[j] == '+' {
                    if kind == (TokenKind::Word { plus: false }) {
                        cons(tok(TokenKind::Word { plus: true }, i, j), lex_from(cs, j + 1))
                    } else {
                        Err(LexError { position: j as usize })
                    }
                } else {
                    cons(tok(kind, i, j), lex_from(cs, j))
                },
            }
        } else {
            Err(LexError { position: i as usize })
        }
    }
}

/// The tokens of the whole text `cs`.
pub open spec fn lex(cs: Seq<char>) -> Result<Seq<Token>, LexError> {
    lex_from(cs, 0)
}

/// Each token lies inside `cs`, and a reference has something after its prefix.
pub open spec fn tokens_fit(cs: Seq<char>, ts: Seq<Token>) -> bool {
    forall|k: int|
        0 <= k < ts.len() ==> {
            let t = #[trigger] ts[k];
            &&& t.start <= t.end <= cs.len()
            &&& t.kind == TokenKind::DocumentRef ==> t.end - t.start > document_ref_prefix().len()
            &&& t.kind == TokenKind::LicenseRef ==> t.end - t.start > license_ref_prefix().len()
        }
}

pub open spec fn after(p: Seq<Token>, r: Result<Seq<Token>, LexError>) -> Result<Seq<Token>, LexError> {
    match r {
        Ok(ts) => Ok(p + ts),
        Err(e) => Err(e),
    }
}

#[via_fn]
proof fn lex_from_decreases(cs: Seq<char>, i: int) {
    if 0 <= i < cs.len() {
        lemma_word_end(cs, i);
    }
}

pub proof fn lemma_word_end(cs: Seq<char>, i: int)
    requires
        0 <= i <= cs.len(),
    ensures
        i <= word_end(cs, i) <= cs.len(),
        forall|k: int| i <= k < word_end(cs, i) ==> is_id_char(#[trigger] cs[k]),
        word_end(cs, i) < cs.len() ==> !is_id_char(cs[word_end(cs, i)]),
    decreases cs.len() - i,
{
    if i < cs.len() && is_id_char(cs[i]) {
        lemma_word_end(cs, i + 1);
    }
}

fn is_space_char(c: char) -> (r: bool)
    ensures
        r == is_space(c),
{
    c == ' ' || c == '\t' || c == '\n' || c == '\r'
}

fn is_word_char(c: char) -> (r: bool)
    ensures
        r == is_id_char(c),
{
    ('a' <= c && c <= 'z') || ('A' <= c && c <= 'Z') || ('0' <= c && c <= '9') || c == '.'
        || c == '-'
}

/// The characters of `s`, one by one.
pub fn chars_of(s: &str) -> (r: Vec<char>)
    ensures
        r@ == s@,
{
    let n = s.unicode_len();
    let mut r: Vec<char> = Vec::new();
    let mut i: usize = 0;
    while i < n
        invariant
            n == s@.len(),
            i <= n,
            r@ == s@.subrange(0, i as int),
        decreases n - i,
    {
        r.push(s.get_char(i));
        i = i + 1;
        proof {
            assert(r@ =~= s@.subrange(0, i as int));
        }
    }
    proof {
        assert(r@ =~= s@);
    }
    r
}

/// Whether the characters `i..i + p.len()` of `cs` are those of `p`.
fn matches_at(cs: &Vec<char>, i: usize, j: usize, p: &str) -> (r: bool)
    requires
        i <= j <= cs@.len(),
    ensures
        r == has_prefix(cs@.subrange(i as int, j as int), p@),
{
    let n = p.unicode_len();
    if j - i < n {
        return false;
    }
    let mut k: usize = 0;
    while k < n
        invariant
            n == p@.len(),
            i + n <= j <= cs@.len(),
            k <= n,
            forall|m: int| 0 <= m < k ==> cs@[i + m] == p@[m],
        decreases n - k,
    {
        if cs[i + k] != p.get_char(k) {
            assert(cs@.subrange(i as int, j as int).subrange(0, n as int)[k as int] != p@[k as int]);
            return false;
        }
        k = k + 1;
    }
    assert(cs@.subrange(i as int, j as int).subrange(0, n as int) =~= p@);
    true
}

/// Whether the characters `i..j` of `cs` are exactly those of `p`.
fn equals_at(cs: &Vec<char>, i: usize, j: usize, p: &str) -> (r: bool)
    requires
        i <= j <= cs@.len(),
    ensures
        r == (cs@.subrange(i as int, j as int) == p@),
{
    if j - i != p.unicode_len() {
        return false;
    }
    let b = matches_at(cs, i, j, p);
    proof {
        assert(cs@.subrange(i as int, j as int).subrange(0, p@.len() as int) =~= cs@.subrange(
            i as int,
            j as int,
        ));
    }
    b
}

fn classify_word(cs: &Vec<char>, i: usize, j: usize) -> (r: Option<TokenKind>)
    requires
        i <= j <= cs@.len(),
    ensures
        r == classify(cs@.subrange(i as int, j as int)),
{
    proof {
        reveal_strlit("AND");
        reveal_strlit("OR");
        reveal_strlit("WITH");
        reveal_strlit("DocumentRef-");
        reveal_strlit("LicenseRef-");
        assert("AND"@ =~= kw_and());
        assert("OR"@ =~= kw_or());
        assert("WITH"@ =~= kw_with());
        assert("DocumentRef-"@ =~= document_ref_prefix());
        assert("LicenseRef-"@ =~= license_ref_prefix());
    }
    if equals_at(cs, i, j, "AND") {
        Some(TokenKind::And)
    } else if equals_at(cs, i, j, "OR") {
        Some(TokenKind::Or)
    } else if equals_at(cs, i, j, "WITH") {
        Some(TokenKind::With)
    } else if matches_at(cs, i, j, "DocumentRef-") {
        if j - i > 12 {
            Some(TokenKind::DocumentRef)
        } else {
            None
        }
    } else if matches_at(cs, i, j, "LicenseRef-") {
        if j - i > 11 {
            Some(TokenKind::LicenseRef)
        } else {
            None
        }
    } else {
        Some(TokenKind::Word { plus: false })
    }
}

/// Splits `cs` into tokens; fails at the first character that no token can hold.
pub fn tokenize(cs: &Vec<char>) -> (r: Result<Vec<Token>, LexError>)
    ensures
        match r {
            Ok(ts) => lex(cs@) == Ok::<Seq<Token>, LexError>(ts@) && tokens_fit(cs@, ts@),
            Err(e) => lex(cs@) == Err::<Seq<Token>, LexError>(e),
        },
{
    let n = cs.len();
    let mut toks: Vec<Token> = Vec::new();
    let mut i: usize = 0;
    assert(toks@ + seq![] =~= toks@);
    while i < n
        invariant
            n == cs@.len(),
            i <= n,
            lex(cs@) == after(toks@, lex_from(cs@, i as int)),
            forall|k: int| 0 <= k < toks@.len() ==> (#[trigger] toks@[k]).end <= i,
            tokens_fit(cs@, toks@),
        decreases n - i,
    {
        let c = cs[i];
        let ghost old_toks = toks@;
        if is_space_char(c) {
            i = i + 1;
        } else if c == '(' || c == ')' || c == ':' || c == '/' {
            let kind = if c == '(' {
                TokenKind::Open
            } else if c == ')' {
                TokenKind::Close
            } else if c == ':' {
                TokenKind::Colon
            } else {
                TokenKind::Or
            };
            toks.push(Token { kind, start: i, end: i + 1 });
            i = i + 1;
            proof {
                assert(toks@ == old_toks.push(tok(kind, i - 1, i as int)));
                lemma_after_cons(old_toks, tok(kind, i - 1, i as int), lex_from(cs@, i as int));
            }
        } else if is_word_char(c) {
            let mut j = i;
            while j < n && is_word_char(cs[j])
                invariant
                    n == cs@.len(),
                    i <= j <= n,
                    word_end(cs@, i as int) == word_end(cs@, j as int),
                decreases n - j,
            {
                j = j + 1;
            }
            proof {
                lemma_word_end(cs@, i as int);
            }
            match classify_word(cs, i, j) {
                None => {
                    return Err(LexError { position: j });
                },
                Some(kind) => {
                    if j < n && cs[j] == '+' {
                        if kind == (TokenKind::Word { plus: false }) {
                            let t = Token { kind: TokenKind::Word { plus: true }, start: i, end: j };
                            toks.push(t);
                            i = j + 1;
                            proof {
                                lemma_after_cons(old_toks, t, lex_from(cs@, i as int));
                            }
                        } else {
                            return Err(LexError { position: j });
                        }
                    } else {
                        let t = Token { kind, start: i, end: j };
                        toks.push(t);
                        i = j;
                        proof {
                            lemma_after_cons(old_toks, t, lex_from(cs@, i as int));
                        }
                    }
                },
            }
        } else {
            return Err(LexError { position: i });
        }
    }
    proof {
        assert(toks@ + seq![] =~= toks@);
    }
    Ok(toks)
}

pub proof fn lemma_after_cons(p: Seq<Token>, t: Token, r: Result<Seq<Token>, LexError>)
    ensures
        after(p, cons(t, r)) == after(p.push(t), r),
{
    match r {
        Ok(ts) => {
            assert(p + (seq![t] + ts) =~= p.push(t) + ts);
        },
        Err(e) => {},
    }
}

} // verus!
