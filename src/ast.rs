//! The tree of a license expression, its mathematical model and its canonical text.
use vstd::prelude::*;
use vstd::string::*;

verus! {

/// The model of an expression: the tree with its identifiers as character sequences.
pub enum Term {
    /// A listed license, `plus` for "or later".
    Id { id: Seq<char>, plus: bool },
    /// A license reference, possibly into another document.
    Ref { document: Option<Seq<char>>, license: Seq<char> },
    /// A leaf with an exception.
    With { expr: Box<Term>, exception: Seq<char> },
    And { left: Box<Term>, right: Box<Term> },
    Or { left: Box<Term>, right: Box<Term> },
    /// A group written in parentheses.
    Paren { inner: Box<Term> },
}

pub open spec fn document_ref_prefix() -> Seq<char> {
    seq!['D', 'o', 'c', 'u', 'm', 'e', 'n', 't', 'R', 'e', 'f', '-']
}

pub open spec fn license_ref_prefix() -> Seq<char> {
    seq!['L', 'i', 'c', 'e', 'n', 's', 'e', 'R', 'e', 'f', '-']
}

pub open spec fn with_sep() -> Seq<char> {
    seq![' ', 'W', 'I', 'T', 'H', ' ']
}

pub open spec fn and_sep() -> Seq<char> {
    seq![' ', 'A', 'N', 'D', ' ']
}

pub open spec fn or_sep() -> Seq<char> {
    seq![' ', 'O', 'R', ' ']
}

/// The canonical text of a term.
pub open spec fn text(t: Term) -> Seq<char>
    decreases t,
{
    match t {
        Term::Id { id, plus } => if plus {
            id.push('+')
        } else {
            id
        },
        Term::Ref { document, license } => match document {
            Some(d) => document_ref_prefix() + d + seq![':'] + license_ref_prefix() + license,
            None => license_ref_prefix() + license,
        },
        Term::With { expr, exception } => text(*expr) + with_sep() + exception,
        Term::And { left, right } => text(*left) + and_sep() + text(*right),
        Term::Or { left, right } => text(*left) + or_sep() + text(*right),
        Term::Paren { inner } => seq!['('] + text(*inner) + seq![')'],
    }
}

/// The license identifiers of `t`, left to right, without their `+`.
pub open spec fn license_names(t: Term) -> Seq<Seq<char>>
    decreases t,
{
    match t {
        Term::Id { id, .. } => seq![id],
        Term::Ref { .. } => seq![],
        Term::With { expr, .. } => license_names(*expr),
        Term::And { left, right } => license_names(*left) + license_names(*right),
        Term::Or { left, right } => license_names(*left) + license_names(*right),
        Term::Paren { inner } => license_names(*inner),
    }
}

/// The exception identifiers of `t`, left to right.
pub open spec fn exception_names(t: Term) -> Seq<Seq<char>>
    decreases t,
{
    match t {
        Term::With { exception, .. } => seq![exception],
        Term::And { left, right } => exception_names(*left) + exception_names(*right),
        Term::Or { left, right } => exception_names(*left) + exception_names(*right),
        Term::Paren { inner } => exception_names(*inner),
        _ => seq![],
    }
}

/// A license from the SPDX list, with `plus` for "this version or any later one".
#[derive(Clone, Debug, PartialEq, Eq, Hash)]
pub struct LicenseId {
    pub id: String,
    pub plus: bool,
}

/// An exception from the SPDX exception list.
#[derive(Clone, Debug, PartialEq, Eq, Hash)]
pub struct LicenseExceptionId {
    pub id: String,
}

/// A license that is not on the SPDX list, possibly defined in another document.
#[derive(Clone, Debug, PartialEq, Eq, Hash)]
pub struct LicenseRef {
    pub license_ref: String,
    pub document_ref: Option<String>,
}

/// A leaf of the grammar.
#[derive(Clone, Debug, PartialEq, Eq, Hash)]
pub enum SimpleExpr {
    LicenseId(LicenseId),
    LicenseRef(LicenseRef),
}

/// A license with an exception: `<expr> WITH <exception>`.
#[derive(Clone, Debug, PartialEq, Eq, Hash)]
pub struct SimpleExprWithException {
    pub expr: SimpleExpr,
    pub license_exception_id: LicenseExceptionId,
}

/// A parenthesised expression.
#[derive(Debug, PartialEq, Eq, Hash)]
pub struct ParenExpr {
    pub expr: Box<CompoundExpr>,
}

/// A conjunction.
#[derive(Debug, PartialEq, Eq, Hash)]
pub struct AndExpr {
    pub lexpr: Box<CompoundExpr>,
    pub rexpr: Box<CompoundExpr>,
}

/// A disjunction.
#[derive(Debug, PartialEq, Eq, Hash)]
pub struct OrExpr {
    pub lexpr: Box<CompoundExpr>,
    pub rexpr: Box<CompoundExpr>,
}

/// Any expression below the root.
#[derive(Debug, PartialEq, Eq, Hash)]
pub enum CompoundExpr {
    SimpleExpr(SimpleExpr),
    SimpleExprWithException(SimpleExprWithException),
    AndExpr(AndExpr),
    OrExpr(OrExpr),
    ParenExpr(ParenExpr),
}

/// The root of a parsed expression.
#[derive(Debug, PartialEq, Eq, Hash)]
pub enum LicenseExpr {
    SimpleExpr(SimpleExpr),
    CompoundExpr(CompoundExpr),
}

impl LicenseId {
    pub open spec fn view(&self) -> Term {
        Term::Id { id: self.id@, plus: self.plus }
    }

    /// The canonical text: the identifier, then `+` when `plus` is set.
    pub fn to_string(&self) -> (r: String)
        ensures
            r@ == text(self@),
    {
        let mut out = String::new();
        self.write_to(&mut out);
        proof {
            assert(out@ =~= text(self@));
        }
        out
    }

    fn write_to(&self, out: &mut String)
        ensures
            final(out)@ == old(out)@ + text(self@),
    {
        out.append(self.id.as_str());
        if self.plus {
            out.append("+");
            proof {
                reveal_strlit("+");
                assert(final(out)@ =~= old(out)@ + text(self@));
            }
        }
        proof {
            assert(final(out)@ =~= old(out)@ + text(self@));
        }
    }
}

impl LicenseExceptionId {
    pub open spec fn view(&self) -> Seq<char> {
        self.id@
    }

    /// The canonical text: the identifier as it stands.
    pub fn to_string(&self) -> (r: String)
        ensures
            r@ == self@,
    {
        self.id.clone()
    }
}

impl LicenseRef {
    pub open spec fn view(&self) -> Term {
        Term::Ref {
            document: match self.document_ref {
                Some(d) => Some(d@),
                None => None,
            },
            license: self.license_ref@,
        }
    }

    /// The canonical text: `[DocumentRef-<document>:]LicenseRef-<license>`.
    pub fn to_string(&self) -> (r: String)
        ensures
            r@ == text(self@),
    {
        let mut out = String::new();
        self.write_to(&mut out);
        proof {
            assert(out@ =~= text(self@));
        }
        out
    }

    fn write_to(&self, out: &mut String)
        ensures
            final(out)@ == old(out)@ + text(self@),
    {
        proof {
            reveal_strlit("DocumentRef-");
            reveal_strlit(":");
            reveal_strlit("LicenseRef-");
        }
        match &self.document_ref {
            Some(d) => {
                out.append("DocumentRef-");
                out.append(d.as_str());
                out.append(":");
            },
            None => {},
        }
        out.append("LicenseRef-");
        out.append(self.license_ref.as_str());
        proof {
            assert(final(out)@ =~= old(out)@ + text(self@));
        }
    }
}

impl SimpleExpr {
    pub open spec fn view(&self) -> Term {
        match self {
            SimpleExpr::LicenseId(l) => l@,
            SimpleExpr::LicenseRef(l) => l@,
        }
    }

    /// The canonical text of the leaf.
    pub fn to_string(&self) -> (r: String)
        ensures
            r@ == text(self@),
    {
        let mut out = String::new();
        self.write_to(&mut out);
        proof {
            assert(out@ =~= text(self@));
        }
        out
    }

    fn write_to(&self, out: &mut String)
        ensures
            final(out)@ == old(out)@ + text(self@),
    {
        match self {
            SimpleExpr::LicenseId(l) => l.write_to(out),
            SimpleExpr::LicenseRef(l) => l.write_to(out),
        }
    }
}

impl SimpleExprWithException {
    pub open spec fn view(&self) -> Term {
        Term::With { expr: Box::new(self.expr@), exception: self.license_exception_id@ }
    }

    /// The canonical text: `<expr> WITH <exception>`.
    pub fn to_string(&self) -> (r: String)
        ensures
            r@ == text(self@),
    {
        let mut out = String::new();
        self.write_to(&mut out);
        proof {
            assert(out@ =~= text(self@));
        }
        out
    }

    fn write_to(&self, out: &mut String)
        ensures
            final(out)@ == old(out)@ + text(self@),
    {
        self.expr.write_to(out);
        out.append(" WITH ");
        out.append(self.license_exception_id.id.as_str());
        proof {
            reveal_strlit(" WITH ");
            assert(final(out)@ =~= old(out)@ + text(self@));
        }
    }
}

impl ParenExpr {
    pub open spec fn view(&self) -> Term
        decreases self,
    {
        Term::Paren { inner: Box::new(self.expr.view()) }
    }

    /// The canonical text: `(<inner>)`, whatever the inner expression is.
    pub fn to_string(&self) -> (r: String)
        ensures
            r@ == text(self@),
    {
        let mut out = String::new();
        self.write_to(&mut out);
        proof {
            assert(out@ =~= text(self@));
        }
        out
    }

    fn write_to(&self, out: &mut String)
        ensures
            final(out)@ == old(out)@ + text(self@),
        decreases self,
    {
        out.append("(");
        self.expr.write_to(out);
        out.append(")");
        proof {
            reveal_strlit("(");
            reveal_strlit(")");
            assert(final(out)@ =~= old(out)@ + text(self@));
        }
    }
}

impl AndExpr {
    pub open spec fn view(&self) -> Term
        decreases self,
    {
        Term::And { left: Box::new(self.lexpr.view()), right: Box::new(self.rexpr.view()) }
    }

    /// The canonical text: `<left> AND <right>`.
    pub fn to_string(&self) -> (r: String)
        ensures
            r@ == text(self@),
    {
        let mut out = String::new();
        self.write_to(&mut out);
        proof {
            assert(out@ =~= text(self@));
        }
        out
    }

    fn write_to(&self, out: &mut String)
        ensures
            final(out)@ == old(out)@ + text(self@),
        decreases self,
    {
        self.lexpr.write_to(out);
        out.append(" AND ");
        self.rexpr.write_to(out);
        proof {
            reveal_strlit(" AND ");
            assert(final(out)@ =~= old(out)@ + text(self@));
        }
    }
}

impl OrExpr {
    pub open spec fn view(&self) -> Term
        decreases self,
    {
        Term::Or { left: Box::new(self.lexpr.view()), right: Box::new(self.rexpr.view()) }
    }

    /// The canonical text: `<left> OR <right>`.
    pub fn to_string(&self) -> (r: String)
        ensures
            r@ == text(self@),
    {
        let mut out = String::new();
        self.write_to(&mut out);
        proof {
            assert(out@ =~= text(self@));
        }
        out
    }

    fn write_to(&self, out: &mut String)
        ensures
            final(out)@ == old(out)@ + text(self@),
        decreases self,
    {
        self.lexpr.write_to(out);
        out.append(" OR ");
        self.rexpr.write_to(out);
        proof {
            reveal_strlit(" OR ");
            assert(final(out)@ =~= old(out)@ + text(self@));
        }
    }
}

impl CompoundExpr {
    pub open spec fn view(&self) -> Term
        decreases self,
    {
        match self {
            CompoundExpr::SimpleExpr(e) => e@,
            CompoundExpr::SimpleExprWithException(e) => e@,
            CompoundExpr::AndExpr(e) => e.view(),
            CompoundExpr::OrExpr(e) => e.view(),
            CompoundExpr::ParenExpr(e) => e.view(),
        }
    }

    /// The canonical text of the expression.
    pub fn to_string(&self) -> (r: String)
        ensures
            r@ == text(self@),
    {
        let mut out = String::new();
        self.write_to(&mut out);
        proof {
            assert(out@ =~= text(self@));
        }
        out
    }

    fn write_to(&self, out: &mut String)
        ensures
            final(out)@ == old(out)@ + text(self@),
        decreases self,
    {
        match self {
            CompoundExpr::SimpleExpr(e) => e.write_to(out),
            CompoundExpr::SimpleExprWithException(e) => e.write_to(out),
            CompoundExpr::AndExpr(e) => e.write_to(out),
            CompoundExpr::OrExpr(e) => e.write_to(out),
            CompoundExpr::ParenExpr(e) => e.write_to(out),
        }
    }
}

impl CompoundExpr {
    fn collect_names(&self, licenses: &mut Vec<String>, exceptions: &mut Vec<String>)
        ensures
            final(licenses).deep_view() == old(licenses).deep_view() + license_names(self@),
            final(exceptions).deep_view() == old(exceptions).deep_view() + exception_names(
                self@,
            ),
        decreases self,
    {
        match self {
            CompoundExpr::SimpleExpr(e) => {
                collect_leaf(e, licenses);
                proof {
                    assert(exceptions.deep_view() =~= old(exceptions).deep_view() + exception_names(
                        self@,
                    ));
                }
            },
            CompoundExpr::SimpleExprWithException(e) => {
                collect_leaf(&e.expr, licenses);
                exceptions.push(e.license_exception_id.id.clone());
                proof {
                    assert(exceptions.deep_view() =~= old(exceptions).deep_view() + exception_names(
                        self@,
                    ));
                }
            },
            CompoundExpr::AndExpr(e) => {
                e.lexpr.collect_names(licenses, exceptions);
                e.rexpr.collect_names(licenses, exceptions);
                proof {
                    assert(licenses.deep_view() =~= old(licenses).deep_view() + license_names(
                        self@,
                    ));
                    assert(exceptions.deep_view() =~= old(exceptions).deep_view() + exception_names(
                        self@,
                    ));
                }
            },
            CompoundExpr::OrExpr(e) => {
                e.lexpr.collect_names(licenses, exceptions);
                e.rexpr.collect_names(licenses, exceptions);
                proof {
                    assert(licenses.deep_view() =~= old(licenses).deep_view() + license_names(
                        self@,
                    ));
                    assert(exceptions.deep_view() =~= old(exceptions).deep_view() + exception_names(
                        self@,
                    ));
                }
            },
            CompoundExpr::ParenExpr(e) => {
                e.expr.collect_names(licenses, exceptions);
            },
        }
    }
}

fn collect_leaf(e: &SimpleExpr, licenses: &mut Vec<String>)
    ensures
        final(licenses).deep_view() == old(licenses).deep_view() + license_names(e@),
{
    match e {
        SimpleExpr::LicenseId(l) => {
            licenses.push(l.id.clone());
        },
        SimpleExpr::LicenseRef(_) => {},
    }
    proof {
        assert(licenses.deep_view() =~= old(licenses).deep_view() + license_names(e@));
    }
}

impl LicenseExpr {
    /// The identifiers that a check against the license and exception lists looks up:
    /// the licenses (without their `+`) and the exceptions, each left to right.
    /// License references are not on the lists and are left out.
    pub fn identifiers(&self) -> (r: (Vec<String>, Vec<String>))
        ensures
            r.0.deep_view() == license_names(self@),
            r.1.deep_view() == exception_names(self@),
    {
        let mut licenses: Vec<String> = Vec::new();
        let mut exceptions: Vec<String> = Vec::new();
        proof {
            assert(licenses.deep_view() =~= Seq::<Seq<char>>::empty());
            assert(exceptions.deep_view() =~= Seq::<Seq<char>>::empty());
        }
        match self {
            LicenseExpr::SimpleExpr(e) => collect_leaf(e, &mut licenses),
            LicenseExpr::CompoundExpr(e) => e.collect_names(&mut licenses, &mut exceptions),
        }
        proof {
            assert(licenses.deep_view() =~= license_names(self@));
            assert(exceptions.deep_view() =~= exception_names(self@));
        }
        (licenses, exceptions)
    }

    pub open spec fn view(&self) -> Term {
        match self {
            LicenseExpr::SimpleExpr(e) => e@,
            LicenseExpr::CompoundExpr(e) => e@,
        }
    }

    /// The canonical text of the expression.
    pub fn to_string(&self) -> (r: String)
        ensures
            r@ == text(self@),
    {
        let mut out = String::new();
        match self {
            LicenseExpr::SimpleExpr(e) => e.write_to(&mut out),
            LicenseExpr::CompoundExpr(e) => e.write_to(&mut out),
        }
        proof {
            assert(out@ =~= text(self@));
        }
        out
    }
}

} // verus!
