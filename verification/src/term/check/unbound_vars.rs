//! Scope analysis: every variable must be bound by a binder around it, and
//! every unscoped channel that is used must be declared somewhere in the
//! same term.
use vstd::prelude::*;
use vstd::string::StringExecFns;
use crate::term::text::{concat, lemma_append_assoc, lemma_concat_step};
use crate::term::book::{
    patterns_view, Definition, DefinitionBook, DefinitionView, Pattern, PatternView, Rule, RuleView,
};
use crate::term::{
    arms_view, idents, opt_ident, opt_idents, terms_view, ArmView, Ident, MatchRule, Name, Term,
    TermView,
};

verus! {

/// What a scan of a term finds, each list in the order of the walk: the
/// variables that no binder around them declares, the unscoped channels that
/// are declared, and the unscoped channels that are used.
pub struct ReportView {
    pub unbound: Seq<Ident>,
    pub declared: Seq<Ident>,
    pub used: Seq<Ident>,
}

impl ReportView {
    pub open spec fn empty() -> ReportView {
        ReportView { unbound: Seq::empty(), declared: Seq::empty(), used: Seq::empty() }
    }

    /// What two scans find, one after the other.
    pub open spec fn followed_by(self, next: ReportView) -> ReportView {
        ReportView {
            unbound: self.unbound + next.unbound,
            declared: self.declared + next.declared,
            used: self.used + next.used,
        }
    }
}

/// What the scans of several terms find, one after the other.
pub open spec fn merge(parts: Seq<ReportView>) -> ReportView
    decreases parts.len(),
{
    if parts.len() == 0 {
        ReportView::empty()
    } else {
        merge(parts.drop_last()).followed_by(parts.last())
    }
}

pub proof fn lemma_followed_assoc(a: ReportView, b: ReportView, c: ReportView)
    ensures
        a.followed_by(b).followed_by(c) == a.followed_by(b.followed_by(c)),
{
    assert(a.unbound + b.unbound + c.unbound =~= a.unbound + (b.unbound + c.unbound));
    assert(a.declared + b.declared + c.declared =~= a.declared + (b.declared + c.declared));
    assert(a.used + b.used + c.used =~= a.used + (b.used + c.used));
}

pub proof fn lemma_followed_empty(a: ReportView)
    ensures
        a.followed_by(ReportView::empty()) == a,
        ReportView::empty().followed_by(a) == a,
{
    assert(a.unbound + Seq::<Ident>::empty() =~= a.unbound);
    assert(a.declared + Seq::<Ident>::empty() =~= a.declared);
    assert(a.used + Seq::<Ident>::empty() =~= a.used);
    assert(Seq::<Ident>::empty() + a.unbound =~= a.unbound);
    assert(Seq::<Ident>::empty() + a.declared =~= a.declared);
    assert(Seq::<Ident>::empty() + a.used =~= a.used);
}

/// Merging one part more puts what it found at the end.
pub proof fn lemma_merge_step(parts: Seq<ReportView>, i: int)
    requires
        0 <= i < parts.len(),
    ensures
        merge(parts.take(i + 1)) == merge(parts.take(i)).followed_by(parts[i]),
        merge(parts.take(0)) == ReportView::empty(),
        parts.take(parts.len() as int) == parts,
{
    assert(parts.take(i + 1).drop_last() =~= parts.take(i));
    assert(parts.take(i + 1).last() == parts[i]);
    assert(parts.take(parts.len() as int) =~= parts);
}

/// The scope inside a binder: the name is declared once more. A binder
/// without a name declares nothing.
pub open spec fn bind(scope: Seq<Ident>, nam: Option<Ident>) -> Seq<Ident> {
    match nam {
        Some(n) => scope.push(n),
        None => scope,
    }
}

/// The scope inside several binders.
pub open spec fn bind_all(scope: Seq<Ident>, bnd: Seq<Option<Ident>>) -> Seq<Ident>
    decreases bnd.len(),
{
    if bnd.len() == 0 {
        scope
    } else {
        bind(bind_all(scope, bnd.drop_last()), bnd.last())
    }
}

/// What a scan of a term finds, when the names in `scope` are declared
/// around the term.
///
/// The binders are: the name of a lambda, of a `let` and of a `use`, for
/// what follows; the names of a tuple `let` and of a duplication, for what
/// follows; the field binders of the arm of a match, for the arm's body; the
/// predecessor of a switch, for its last arm.
pub open spec fn scan(t: TermView, scope: Seq<Ident>) -> ReportView
    decreases t, 0nat,
{
    match t {
        TermView::Lam { tag, nam, bod } => scan(*bod, bind(scope, nam)),
        TermView::Var { nam } => if scope.contains(nam) {
            ReportView::empty()
        } else {
            ReportView { unbound: seq![nam], declared: Seq::empty(), used: Seq::empty() }
        },
        TermView::Chn { tag, nam, bod } => ReportView {
            unbound: Seq::empty(),
            declared: seq![nam],
            used: Seq::empty(),
        }.followed_by(scan(*bod, scope)),
        TermView::Lnk { nam } => ReportView {
            unbound: Seq::empty(),
            declared: Seq::empty(),
            used: seq![nam],
        },
        TermView::Let { nam, val, nxt } => scan(*val, scope).followed_by(scan(*nxt, bind(scope, nam))),
        TermView::Use { nam, val, nxt } => scan(*val, scope).followed_by(scan(*nxt, scope.push(nam))),
        TermView::App { tag, fun, arg } => scan(*fun, scope).followed_by(scan(*arg, scope)),
        TermView::Ltp { bnd, val, nxt } => scan(*val, scope).followed_by(
            scan(*nxt, bind_all(scope, bnd)),
        ),
        TermView::Tup { els } => merge(scan_terms(els, scope)),
        TermView::Dup { tag, bnd, val, nxt } => scan(*val, scope).followed_by(
            scan(*nxt, bind_all(scope, bnd)),
        ),
        TermView::Sup { tag, els } => merge(scan_terms(els, scope)),
        TermView::Num { val } => ReportView::empty(),
        TermView::Nat { val } => ReportView::empty(),
        TermView::Str { val } => ReportView::empty(),
        TermView::Lst { els } => merge(scan_terms(els, scope)),
        TermView::Opx { opr, fst, snd } => scan(*fst, scope).followed_by(scan(*snd, scope)),
        TermView::Mat { arg, bnd, with, arms } => scan(*arg, scope).followed_by(
            merge(scan_arms(arms, scope)),
        ),
        TermView::Swt { arg, bnd, with, pred, arms } => scan(*arg, scope).followed_by(
            merge(scan_cases(arms, pred, scope)),
        ),
        TermView::Ref { nam } => ReportView::empty(),
        TermView::Era => ReportView::empty(),
        TermView::Error => ReportView::empty(),
    }
}

/// The scans of the terms of a list, all in the same scope.
pub open spec fn scan_terms(ts: Seq<TermView>, scope: Seq<Ident>) -> Seq<ReportView>
    decreases ts, 1nat,
{
    Seq::new(
        ts.len(),
        |i: int|
            if 0 <= i < ts.len() {
                scan(ts[i], scope)
            } else {
                ReportView::empty()
            },
    )
}

/// The scans of the bodies of the arms of a match, each inside the field
/// binders of its arm.
pub open spec fn scan_arms(arms: Seq<ArmView>, scope: Seq<Ident>) -> Seq<ReportView>
    decreases arms, 1nat,
{
    Seq::new(
        arms.len(),
        |i: int|
            if 0 <= i < arms.len() {
                scan(arms[i].body, bind_all(scope, arms[i].fields))
            } else {
                ReportView::empty()
            },
    )
}

/// The scans of the arms of a switch, the last inside the binder of the
/// predecessor.
pub open spec fn scan_cases(arms: Seq<TermView>, pred: Option<Ident>, scope: Seq<Ident>) -> Seq<
    ReportView,
>
    decreases arms, 1nat,
{
    Seq::new(
        arms.len(),
        |i: int|
            if 0 <= i < arms.len() {
                scan(
                    arms[i],
                    if i == arms.len() - 1 {
                        bind(scope, pred)
                    } else {
                        scope
                    },
                )
            } else {
                ReportView::empty()
            },
    )
}

/// The report of a scan, as it is gathered.
#[derive(Debug, PartialEq, Eq)]
pub struct ScopeReport {
    pub unbound: Vec<Name>,
    pub declared: Vec<Name>,
    pub used: Vec<Name>,
}

impl View for ScopeReport {
    type V = ReportView;

    open spec fn view(&self) -> ReportView {
        ReportView {
            unbound: idents(self.unbound@),
            declared: idents(self.declared@),
            used: idents(self.used@),
        }
    }
}

impl ScopeReport {
    pub fn new() -> (r: ScopeReport)
        ensures
            r@ == ReportView::empty(),
    {
        let r = ScopeReport { unbound: Vec::new(), declared: Vec::new(), used: Vec::new() };
        assert(r@.unbound =~= Seq::empty());
        assert(r@.declared =~= Seq::empty());
        assert(r@.used =~= Seq::empty());
        r
    }
}

/// Declares a name once more.
fn push_scope(nam: &Name, scope: &mut Vec<Name>)
    ensures
        idents(final(scope)@) == idents(old(scope)@).push(nam@),
        final(scope).len() == old(scope).len() + 1,
{
    scope.push(nam.clone());
    assert(idents(scope@) =~= idents(old(scope)@).push(nam@));
}

/// Takes back the declaration that was made last.
fn pop_scope(scope: &mut Vec<Name>)
    requires
        old(scope).len() > 0,
    ensures
        idents(final(scope)@) == idents(old(scope)@).drop_last(),
        final(scope).len() == old(scope).len() - 1,
{
    scope.pop();
    assert(idents(scope@) =~= idents(old(scope)@).drop_last());
}

/// Declares the name of a binder, if it has one; says whether it did.
fn push_bind(nam: &Option<Name>, scope: &mut Vec<Name>) -> (pushed: bool)
    ensures
        idents(final(scope)@) == bind(idents(old(scope)@), opt_ident(*nam)),
        pushed == nam.is_some(),
        final(scope).len() == old(scope).len() + if pushed { 1int } else { 0int },
{
    match nam {
        Some(n) => {
            push_scope(n, scope);
            true
        },
        None => false,
    }
}

/// Declares the names of several binders; says how many it declared.
fn push_binds(bnd: &Vec<Option<Name>>, scope: &mut Vec<Name>) -> (count: usize)
    ensures
        idents(final(scope)@) == bind_all(idents(old(scope)@), opt_idents(bnd@)),
        final(scope).len() == old(scope).len() + count,
        idents(final(scope)@).take(old(scope).len() as int) == idents(old(scope)@),
{
    let ghost all = opt_idents(bnd@);
    let mut count: usize = 0;
    let mut i: usize = 0;
    proof {
        assert(all.take(0) =~= Seq::empty());
        assert(idents(scope@).take(old(scope).len() as int) =~= idents(old(scope)@));
    }
    while i < bnd.len()
        invariant
            i <= bnd.len(),
            count <= i,
            all == opt_idents(bnd@),
            scope.len() == old(scope).len() + count,
            idents(scope@) == bind_all(idents(old(scope)@), all.take(i as int)),
            idents(scope@).take(old(scope).len() as int) == idents(old(scope)@),
        decreases bnd.len() - i,
    {
        let ghost before = idents(scope@);
        let pushed = push_bind(&bnd[i], scope);
        if pushed {
            count += 1;
        }
        proof {
            assert(all.take(i + 1).drop_last() =~= all.take(i as int));
            assert(all.take(i + 1).last() == opt_ident(bnd@[i as int]));
            assert(idents(scope@).take(old(scope).len() as int) =~= before.take(
                old(scope).len() as int,
            ));
        }
        i += 1;
    }
    proof {
        assert(all.take(bnd.len() as int) =~= all);
    }
    count
}

/// Takes back the declarations that were made last.
fn pop_scopes(scope: &mut Vec<Name>, count: usize)
    requires
        count <= old(scope).len(),
    ensures
        idents(final(scope)@) == idents(old(scope)@).take(old(scope).len() - count),
        final(scope).len() == old(scope).len() - count,
{
    let mut left: usize = count;
    proof {
        assert(idents(scope@) =~= idents(old(scope)@).take(old(scope).len() - count + left));
    }
    while left > 0
        invariant
            left <= count,
            count <= old(scope).len(),
            scope.len() == old(scope).len() - count + left,
            idents(scope@) == idents(old(scope)@).take(old(scope).len() - count + left),
        decreases left,
    {
        pop_scope(scope);
        left -= 1;
        proof {
            assert(idents(scope@) =~= idents(old(scope)@).take(old(scope).len() - count + left));
        }
    }
}

/// Whether a list holds a name.
pub fn contains_name(names: &Vec<Name>, nam: &Name) -> (r: bool)
    ensures
        r == idents(names@).contains(nam@),
{
    let mut i: usize = 0;
    while i < names.len()
        invariant
            i <= names.len(),
            forall|j: int| 0 <= j < i ==> idents(names@)[j] != nam@,
        decreases names.len() - i,
    {
        if names[i].same(nam) {
            assert(idents(names@)[i as int] == nam@);
            return true;
        }
        i += 1;
    }
    false
}

impl ScopeReport {
    fn note_unbound(&mut self, nam: &Name)
        ensures
            final(self)@ == old(self)@.followed_by(
                ReportView { unbound: seq![nam@], declared: Seq::empty(), used: Seq::empty() },
            ),
    {
        self.unbound.push(nam.clone());
        proof {
            assert(idents(self.unbound@) =~= idents(old(self).unbound@) + seq![nam@]);
            assert(idents(self.declared@) =~= idents(old(self).declared@) + Seq::<Ident>::empty());
            assert(idents(self.used@) =~= idents(old(self).used@) + Seq::<Ident>::empty());
        }
    }

    fn note_declared(&mut self, nam: &Name)
        ensures
            final(self)@ == old(self)@.followed_by(
                ReportView { unbound: Seq::empty(), declared: seq![nam@], used: Seq::empty() },
            ),
    {
        self.declared.push(nam.clone());
        proof {
            assert(idents(self.declared@) =~= idents(old(self).declared@) + seq![nam@]);
            assert(idents(self.unbound@) =~= idents(old(self).unbound@) + Seq::<Ident>::empty());
            assert(idents(self.used@) =~= idents(old(self).used@) + Seq::<Ident>::empty());
        }
    }

    fn note_used(&mut self, nam: &Name)
        ensures
            final(self)@ == old(self)@.followed_by(
                ReportView { unbound: Seq::empty(), declared: Seq::empty(), used: seq![nam@] },
            ),
    {
        self.used.push(nam.clone());
        proof {
            assert(idents(self.used@) =~= idents(old(self).used@) + seq![nam@]);
            assert(idents(self.unbound@) =~= idents(old(self).unbound@) + Seq::<Ident>::empty());
            assert(idents(self.declared@) =~= idents(old(self).declared@) + Seq::<Ident>::empty());
        }
    }
}

/// Scans a term: adds to the report what the scan finds, given the names
/// that `scope` declares around the term. The scope is the same after the
/// scan as before it.
pub fn check_uses(term: &Term, scope: &mut Vec<Name>, report: &mut ScopeReport)
    ensures
        idents(final(scope)@) == idents(old(scope)@),
        final(scope).len() == old(scope).len(),
        final(report)@ == old(report)@.followed_by(scan(term@, idents(old(scope)@))),
    decreases term, 0nat,
{
    let ghost outer = idents(scope@);
    let ghost start = report@;
    match term {
        Term::Lam { tag: _, nam, bod } => {
            let pushed = push_bind(nam, scope);
            check_uses(bod, scope, report);
            if pushed {
                pop_scope(scope);
            }
            assert(idents(scope@) =~= outer);
        },
        Term::Var { nam } => {
            if !contains_name(scope, nam) {
                report.note_unbound(nam);
            } else {
                proof {
                    lemma_followed_empty(start);
                }
            }
        },
        Term::Chn { tag: _, nam, bod } => {
            report.note_declared(nam);
            check_uses(bod, scope, report);
            proof {
                lemma_followed_assoc(
                    start,
                    ReportView { unbound: Seq::empty(), declared: seq![nam@], used: Seq::empty() },
                    scan(bod@, outer),
                );
            }
        },
        Term::Lnk { nam } => {
            report.note_used(nam);
        },
        Term::Let { nam, val, nxt } => {
            check_uses(val, scope, report);
            let pushed = push_bind(nam, scope);
            check_uses(nxt, scope, report);
            if pushed {
                pop_scope(scope);
            }
            proof {
                assert(idents(scope@) =~= outer);
                lemma_followed_assoc(
                    start,
                    scan(val@, outer),
                    scan(nxt@, bind(outer, opt_ident(*nam))),
                );
            }
        },
        Term::Use { nam, val, nxt } => {
            check_uses(val, scope, report);
            push_scope(nam, scope);
            check_uses(nxt, scope, report);
            pop_scope(scope);
            proof {
                assert(idents(scope@) =~= outer);
                lemma_followed_assoc(start, scan(val@, outer), scan(nxt@, outer.push(nam@)));
            }
        },
        Term::App { tag: _, fun, arg } => {
            check_uses(fun, scope, report);
            check_uses(arg, scope, report);
            proof {
                lemma_followed_assoc(start, scan(fun@, outer), scan(arg@, outer));
            }
        },
        Term::Ltp { bnd, val, nxt } => {
            check_uses(val, scope, report);
            let count = push_binds(bnd, scope);
            check_uses(nxt, scope, report);
            pop_scopes(scope, count);
            proof {
                lemma_followed_assoc(
                    start,
                    scan(val@, outer),
                    scan(nxt@, bind_all(outer, opt_idents(bnd@))),
                );
            }
        },
        Term::Tup { els } => {
            check_terms(els, scope, report);
        },
        Term::Dup { tag: _, bnd, val, nxt } => {
            check_uses(val, scope, report);
            let count = push_binds(bnd, scope);
            check_uses(nxt, scope, report);
            pop_scopes(scope, count);
            proof {
                lemma_followed_assoc(
                    start,
                    scan(val@, outer),
                    scan(nxt@, bind_all(outer, opt_idents(bnd@))),
                );
            }
        },
        Term::Sup { tag: _, els } => {
            check_terms(els, scope, report);
        },
        Term::Lst { els } => {
            check_terms(els, scope, report);
        },
        Term::Opx { opr: _, fst, snd } => {
            check_uses(fst, scope, report);
            check_uses(snd, scope, report);
            proof {
                lemma_followed_assoc(start, scan(fst@, outer), scan(snd@, outer));
            }
        },
        Term::Mat { arg, bnd: _, with: _, arms } => {
            check_uses(arg, scope, report);
            check_arms(arms, scope, report);
            proof {
                lemma_followed_assoc(
                    start,
                    scan(arg@, outer),
                    merge(scan_arms(arms_view(arms@), outer)),
                );
            }
        },
        Term::Swt { arg, bnd: _, with: _, pred, arms } => {
            check_uses(arg, scope, report);
            check_cases(arms, pred, scope, report);
            proof {
                lemma_followed_assoc(
                    start,
                    scan(arg@, outer),
                    merge(scan_cases(terms_view(arms@), opt_ident(*pred), outer)),
                );
            }
        },
        Term::Num { .. } | Term::Nat { .. } | Term::Str { .. } | Term::Ref { .. } | Term::Era
        | Term::Error => {
            proof {
                lemma_followed_empty(start);
            }
        },
    }
}

/// Scans the terms of a list, one after another, all in the same scope.
fn check_terms(ts: &Vec<Term>, scope: &mut Vec<Name>, report: &mut ScopeReport)
    ensures
        idents(final(scope)@) == idents(old(scope)@),
        final(scope).len() == old(scope).len(),
        final(report)@ == old(report)@.followed_by(
            merge(scan_terms(terms_view(ts@), idents(old(scope)@))),
        ),
    decreases ts, 1nat,
{
    let ghost outer = idents(scope@);
    let ghost start = report@;
    let ghost parts = scan_terms(terms_view(ts@), outer);
    let mut i: usize = 0;
    proof {
        lemma_followed_empty(start);
        assert(parts.take(0) =~= Seq::empty());
    }
    while i < ts.len()
        invariant
            i <= ts.len(),
            parts == scan_terms(terms_view(ts@), outer),
            idents(scope@) == outer,
            scope.len() == old(scope).len(),
            report@ == start.followed_by(merge(parts.take(i as int))),
        decreases ts.len() - i,
    {
        check_uses(&ts[i], scope, report);
        proof {
            lemma_merge_step(parts, i as int);
            lemma_followed_assoc(start, merge(parts.take(i as int)), parts[i as int]);
        }
        i += 1;
    }
    proof {
        assert(parts.take(ts.len() as int) =~= parts);
    }
}

/// Scans the bodies of the arms of a match, each inside the field binders
/// of its arm.
fn check_arms(arms: &Vec<MatchRule>, scope: &mut Vec<Name>, report: &mut ScopeReport)
    ensures
        idents(final(scope)@) == idents(old(scope)@),
        final(scope).len() == old(scope).len(),
        final(report)@ == old(report)@.followed_by(
            merge(scan_arms(arms_view(arms@), idents(old(scope)@))),
        ),
    decreases arms, 1nat,
{
    let ghost outer = idents(scope@);
    let ghost start = report@;
    let ghost parts = scan_arms(arms_view(arms@), outer);
    let mut i: usize = 0;
    proof {
        lemma_followed_empty(start);
        assert(parts.take(0) =~= Seq::empty());
    }
    while i < arms.len()
        invariant
            i <= arms.len(),
            parts == scan_arms(arms_view(arms@), outer),
            idents(scope@) == outer,
            scope.len() == old(scope).len(),
            report@ == start.followed_by(merge(parts.take(i as int))),
        decreases arms.len() - i,
    {
        let arm = &arms[i];
        let count = push_binds(&arm.1, scope);
        check_uses(&arm.2, scope, report);
        pop_scopes(scope, count);
        proof {
            lemma_merge_step(parts, i as int);
            lemma_followed_assoc(start, merge(parts.take(i as int)), parts[i as int]);
        }
        i += 1;
    }
    proof {
        assert(parts.take(arms.len() as int) =~= parts);
    }
}

/// Scans the arms of a switch, the last inside the binder of the
/// predecessor.
fn check_cases(
    arms: &Vec<Term>,
    pred: &Option<Name>,
    scope: &mut Vec<Name>,
    report: &mut ScopeReport,
)
    ensures
        idents(final(scope)@) == idents(old(scope)@),
        final(scope).len() == old(scope).len(),
        final(report)@ == old(report)@.followed_by(
            merge(scan_cases(terms_view(arms@), opt_ident(*pred), idents(old(scope)@))),
        ),
    decreases arms, 1nat,
{
    let ghost outer = idents(scope@);
    let ghost start = report@;
    let ghost parts = scan_cases(terms_view(arms@), opt_ident(*pred), outer);
    let mut i: usize = 0;
    proof {
        lemma_followed_empty(start);
        assert(parts.take(0) =~= Seq::empty());
    }
    while i < arms.len()
        invariant
            i <= arms.len(),
            parts == scan_cases(terms_view(arms@), opt_ident(*pred), outer),
            idents(scope@) == outer,
            scope.len() == old(scope).len(),
            report@ == start.followed_by(merge(parts.take(i as int))),
        decreases arms.len() - i,
    {
        if i == arms.len() - 1 {
            let pushed = push_bind(pred, scope);
            check_uses(&arms[i], scope, report);
            if pushed {
                pop_scope(scope);
            }
            assert(idents(scope@) =~= outer);
        } else {
            check_uses(&arms[i], scope, report);
        }
        proof {
            lemma_merge_step(parts, i as int);
            lemma_followed_assoc(start, merge(parts.take(i as int)), parts[i as int]);
        }
        i += 1;
    }
    proof {
        assert(parts.take(arms.len() as int) =~= parts);
    }
}

/// A failure of the scope analysis.
#[derive(Debug, PartialEq, Eq)]
pub enum ScopeError {
    /// A variable that no binder around it declares.
    UnboundVariable(Name),
    /// An unscoped channel that is used and nowhere declared.
    UnboundUnscopedVariable(Name),
}

pub enum ScopeErrorView {
    UnboundVariable(Ident),
    UnboundUnscopedVariable(Ident),
}

impl View for ScopeError {
    type V = ScopeErrorView;

    open spec fn view(&self) -> ScopeErrorView {
        match self {
            ScopeError::UnboundVariable(n) => ScopeErrorView::UnboundVariable(n@),
            ScopeError::UnboundUnscopedVariable(n) => ScopeErrorView::UnboundUnscopedVariable(n@),
        }
    }
}

pub open spec fn scope_errors_view(errs: Seq<ScopeError>) -> Seq<ScopeErrorView> {
    Seq::new(errs.len(), |i: int| errs[i]@)
}

/// The message of a failure.
pub open spec fn scope_error_text(e: ScopeErrorView) -> Seq<char> {
    match e {
        ScopeErrorView::UnboundVariable(n) => "Unbound variable '"@ + n + "'"@,
        ScopeErrorView::UnboundUnscopedVariable(n) => "Unbound unscoped variable '$"@ + n + "'"@,
    }
}

impl ScopeError {
    /// The message of the failure.
    pub fn message(&self) -> (r: String)
        ensures
            r@ == scope_error_text(self@),
    {
        match self {
            ScopeError::UnboundVariable(n) => {
                let mut out = String::from_str("Unbound variable '");
                out.append(n.as_str());
                out.append("'");
                out
            },
            ScopeError::UnboundUnscopedVariable(n) => {
                let mut out = String::from_str("Unbound unscoped variable '$");
                out.append(n.as_str());
                out.append("'");
                out
            },
        }
    }
}

/// Among the first `n` uses of channels, those of a channel that is nowhere
/// declared, each channel at its first use only.
pub open spec fn unbound_links_upto(used: Seq<Ident>, declared: Seq<Ident>, n: int) -> Seq<Ident>
    decreases n,
{
    if n <= 0 {
        Seq::empty()
    } else {
        let before = unbound_links_upto(used, declared, n - 1);
        let nam = used[n - 1];
        if declared.contains(nam) || used.take(n - 1).contains(nam) {
            before
        } else {
            before.push(nam)
        }
    }
}

/// The channels that are used and nowhere declared, each once, in the order
/// of their first use.
pub open spec fn unbound_links(r: ReportView) -> Seq<Ident> {
    unbound_links_upto(r.used, r.declared, r.used.len() as int)
}

/// The failures that a report amounts to: first the unbound variables, one
/// failure for each occurrence, in the order of the walk; after them the
/// channels that are used and not declared.
pub open spec fn scope_errors(r: ReportView) -> Seq<ScopeErrorView> {
    Seq::new(r.unbound.len(), |i: int| ScopeErrorView::UnboundVariable(r.unbound[i])) + Seq::new(
        unbound_links(r).len(),
        |i: int| ScopeErrorView::UnboundUnscopedVariable(unbound_links(r)[i]),
    )
}

/// Whether a name is among the first `limit` names of a list.
fn contains_name_before(names: &Vec<Name>, limit: usize, nam: &Name) -> (r: bool)
    requires
        limit <= names.len(),
    ensures
        r == idents(names@).take(limit as int).contains(nam@),
{
    let mut i: usize = 0;
    while i < limit
        invariant
            i <= limit,
            limit <= names.len(),
            forall|j: int| 0 <= j < i ==> idents(names@).take(limit as int)[j] != nam@,
        decreases limit - i,
    {
        if names[i].same(nam) {
            assert(idents(names@).take(limit as int)[i as int] == nam@);
            return true;
        }
        i += 1;
    }
    false
}

impl ScopeReport {
    /// The failures that the report amounts to.
    pub fn errors(&self) -> (errs: Vec<ScopeError>)
        ensures
            scope_errors_view(errs@) == scope_errors(self@),
    {
        let mut errs: Vec<ScopeError> = Vec::new();
        let mut i: usize = 0;
        while i < self.unbound.len()
            invariant
                i <= self.unbound.len(),
                errs.len() == i,
                forall|j: int|
                    0 <= j < i ==> (#[trigger] errs@[j])@ == ScopeErrorView::UnboundVariable(
                        self.unbound@[j]@,
                    ),
            decreases self.unbound.len() - i,
        {
            errs.push(ScopeError::UnboundVariable(self.unbound[i].clone()));
            i += 1;
        }
        let ghost used = self@.used;
        let ghost declared = self@.declared;
        let ghost first = scope_errors_view(errs@);
        let mut k: usize = 0;
        proof {
            assert(first =~= Seq::new(
                self@.unbound.len(),
                |i: int| ScopeErrorView::UnboundVariable(self@.unbound[i]),
            ));
            assert(scope_errors_view(errs@) =~= first + Seq::new(
                unbound_links_upto(used, declared, 0).len(),
                |i: int|
                    ScopeErrorView::UnboundUnscopedVariable(unbound_links_upto(used, declared, 0)[i]),
            ));
        }
        while k < self.used.len()
            invariant
                k <= self.used.len(),
                used == self@.used,
                declared == self@.declared,
                scope_errors_view(errs@) == first + Seq::new(
                    unbound_links_upto(used, declared, k as int).len(),
                    |i: int|
                        ScopeErrorView::UnboundUnscopedVariable(
                            unbound_links_upto(used, declared, k as int)[i],
                        ),
                ),
            decreases self.used.len() - k,
        {
            let nam = &self.used[k];
            let ghost before = scope_errors_view(errs@);
            if !contains_name(&self.declared, nam) && !contains_name_before(&self.used, k, nam) {
                errs.push(ScopeError::UnboundUnscopedVariable(nam.clone()));
                proof {
                    assert(scope_errors_view(errs@) =~= before.push(
                        ScopeErrorView::UnboundUnscopedVariable(nam@),
                    ));
                }
            }
            proof {
                assert(used[k as int] == nam@);
                assert(scope_errors_view(errs@) =~= first + Seq::new(
                    unbound_links_upto(used, declared, k + 1).len(),
                    |i: int|
                        ScopeErrorView::UnboundUnscopedVariable(
                            unbound_links_upto(used, declared, k + 1)[i],
                        ),
                ));
            }
            k += 1;
        }
        errs
    }
}

impl Term {
    /// Checks that all variables are bound: every variable by a binder
    /// around it, every unscoped channel that is used by a declaration
    /// somewhere in the term. All failures are gathered.
    pub fn check_unbound_vars(&self) -> (r: Result<(), Vec<ScopeError>>)
        ensures
            match r {
                Ok(_) => scope_errors(scan(self@, Seq::empty())).len() == 0,
                Err(errs) => errs.len() > 0 && scope_errors_view(errs@) == scope_errors(
                    scan(self@, Seq::empty()),
                ),
            },
    {
        let mut scope: Vec<Name> = Vec::new();
        let mut report = ScopeReport::new();
        proof {
            assert(idents(scope@) =~= Seq::empty());
            lemma_followed_empty(scan(self@, Seq::empty()));
        }
        check_uses(self, &mut scope, &mut report);
        let errs = report.errors();
        if errs.len() == 0 {
            Ok(())
        } else {
            Err(errs)
        }
    }
}

/// The names that a pattern binds, in the order in which it holds them.
pub open spec fn pattern_binds(p: PatternView) -> Seq<Ident>
    decreases p, 0nat,
{
    match p {
        PatternView::Var(nam) => bind(Seq::empty(), nam),
        PatternView::Ctr(nam, pats) => concat(patterns_binds(pats)),
        PatternView::Num(val) => Seq::empty(),
        PatternView::Tup(pats) => concat(patterns_binds(pats)),
        PatternView::Lst(pats) => concat(patterns_binds(pats)),
        PatternView::Str(val) => Seq::empty(),
    }
}

pub open spec fn patterns_binds(ps: Seq<PatternView>) -> Seq<Seq<Ident>>
    decreases ps, 1nat,
{
    Seq::new(
        ps.len(),
        |i: int|
            if 0 <= i < ps.len() {
                pattern_binds(ps[i])
            } else {
                Seq::empty()
            },
    )
}

/// The scope of the body of a rule: the names that its patterns bind.
pub open spec fn rule_scope(r: RuleView) -> Seq<Ident> {
    concat(patterns_binds(r.pats))
}

/// The failures of the scope analysis on the body of a rule.
pub open spec fn rule_scope_errors(r: RuleView) -> Seq<ScopeErrorView> {
    scope_errors(scan(r.body, rule_scope(r)))
}

/// The failures of the rules of a definition, each with the definition's
/// name.
pub open spec fn definition_scope_errors(d: DefinitionView) -> Seq<(Ident, ScopeErrorView)> {
    concat(
        Seq::new(
            d.rules.len(),
            |i: int|
                Seq::new(
                    rule_scope_errors(d.rules[i]).len(),
                    |k: int| (d.name, rule_scope_errors(d.rules[i])[k]),
                ),
        ),
    )
}

/// The failures of all the definitions, in their order.
pub open spec fn book_scope_errors(defs: Seq<DefinitionView>) -> Seq<(Ident, ScopeErrorView)> {
    concat(Seq::new(defs.len(), |i: int| definition_scope_errors(defs[i])))
}

pub open spec fn named_errors_view(errs: Seq<(Name, ScopeError)>) -> Seq<(Ident, ScopeErrorView)> {
    Seq::new(errs.len(), |i: int| (errs[i].0@, errs[i].1@))
}

fn push_patterns_binds(ps: &Vec<Pattern>, scope: &mut Vec<Name>)
    ensures
        idents(final(scope)@) == idents(old(scope)@) + concat(patterns_binds(patterns_view(ps@))),
    decreases ps, 1nat,
{
    let ghost parts = patterns_binds(patterns_view(ps@));
    let ghost start = idents(scope@);
    let mut i: usize = 0;
    proof {
        assert(parts.take(0) =~= Seq::empty());
        lemma_append_assoc(start, Seq::empty(), Seq::empty());
    }
    while i < ps.len()
        invariant
            i <= ps.len(),
            parts == patterns_binds(patterns_view(ps@)),
            idents(scope@) == start + concat(parts.take(i as int)),
        decreases ps.len() - i,
    {
        push_pattern_binds(&ps[i], scope);
        proof {
            lemma_concat_step(parts, i as int);
            lemma_append_assoc(start, concat(parts.take(i as int)), parts[i as int]);
        }
        i += 1;
    }
    proof {
        assert(parts.take(ps.len() as int) =~= parts);
    }
}

/// Declares the names that a pattern binds.
fn push_pattern_binds(p: &Pattern, scope: &mut Vec<Name>)
    ensures
        idents(final(scope)@) == idents(old(scope)@) + pattern_binds(p@),
    decreases p, 0nat,
{
    match p {
        Pattern::Var(nam) => {
            let _ = push_bind(nam, scope);
            assert(idents(scope@) =~= idents(old(scope)@) + pattern_binds(p@));
        },
        Pattern::Ctr(_, pats) => {
            push_patterns_binds(pats, scope);
        },
        Pattern::Tup(pats) => {
            push_patterns_binds(pats, scope);
        },
        Pattern::Lst(pats) => {
            push_patterns_binds(pats, scope);
        },
        Pattern::Num(_) | Pattern::Str(_) => {
            assert(idents(scope@) =~= idents(old(scope)@) + pattern_binds(p@));
        },
    }
}

impl Rule {
    /// Checks that all variables of the body are bound, by the patterns of
    /// the rule or by a binder in the body. All failures are gathered.
    pub fn check_unbound_vars(&self) -> (r: Result<(), Vec<ScopeError>>)
        ensures
            match r {
                Ok(_) => rule_scope_errors(self@).len() == 0,
                Err(errs) => errs.len() > 0 && scope_errors_view(errs@) == rule_scope_errors(self@),
            },
    {
        let mut scope: Vec<Name> = Vec::new();
        let mut report = ScopeReport::new();
        proof {
            assert(idents(scope@) =~= Seq::empty());
        }
        push_patterns_binds(&self.pats, &mut scope);
        proof {
            assert(idents(scope@) =~= rule_scope(self@));
            lemma_followed_empty(scan(self@.body, rule_scope(self@)));
        }
        check_uses(&self.body, &mut scope, &mut report);
        let errs = report.errors();
        if errs.len() == 0 {
            Ok(())
        } else {
            Err(errs)
        }
    }
}

impl Definition {
    /// Adds the failures of the rules of the definition, each with the
    /// definition's name.
    fn gather_scope_errors(&self, errs: &mut Vec<(Name, ScopeError)>)
        ensures
            named_errors_view(final(errs)@) == named_errors_view(old(errs)@)
                + definition_scope_errors(self@),
    {
        let ghost start = named_errors_view(errs@);
        let ghost parts = Seq::new(
            self@.rules.len(),
            |i: int|
                Seq::new(
                    rule_scope_errors(self@.rules[i]).len(),
                    |k: int| (self@.name, rule_scope_errors(self@.rules[i])[k]),
                ),
        );
        let mut i: usize = 0;
        proof {
            assert(parts.take(0) =~= Seq::empty());
            lemma_append_assoc(start, Seq::empty(), Seq::empty());
        }
        while i < self.rules.len()
            invariant
                i <= self.rules.len(),
                parts.len() == self.rules.len(),
                forall|j: int|
                    0 <= j < parts.len() ==> #[trigger] parts[j] == Seq::new(
                        rule_scope_errors(self@.rules[j]).len(),
                        |k: int| (self@.name, rule_scope_errors(self@.rules[j])[k]),
                    ),
                named_errors_view(errs@) == start + concat(parts.take(i as int)),
            decreases self.rules.len() - i,
        {
            let ghost before = named_errors_view(errs@);
            match self.rules[i].check_unbound_vars() {
                Ok(_) => {
                    proof {
                        assert(parts[i as int] =~= Seq::empty());
                    }
                },
                Err(found) => {
                    let mut found = found;
                    let ghost all = scope_errors_view(found@);
                    let ghost total = found.len();
                    let mut rest: Vec<ScopeError> = Vec::new();
                    // The failures come off the end: turn them round first.
                    while found.len() > 0
                        invariant
                            found.len() + rest.len() == total,
                            all.len() == total,
                            forall|j: int|
                                0 <= j < found.len() ==> (#[trigger] found@[j])@ == all[j],
                            forall|j: int|
                                0 <= j < rest.len() ==> (#[trigger] rest@[j])@ == all[total - 1
                                    - j],
                        decreases found.len(),
                    {
                        let e = found.pop().unwrap();
                        rest.push(e);
                    }
                    while rest.len() > 0
                        invariant
                            rest.len() <= total,
                            all.len() == total,
                            all == rule_scope_errors(self@.rules[i as int]),
                            forall|j: int|
                                0 <= j < rest.len() ==> (#[trigger] rest@[j])@ == all[total - 1
                                    - j],
                            named_errors_view(errs@) == before + Seq::new(
                                (total - rest.len()) as nat,
                                |k: int| (self@.name, all[k]),
                            ),
                        decreases rest.len(),
                    {
                        let ghost prior = named_errors_view(errs@);
                        let e = rest.pop().unwrap();
                        errs.push((self.name.clone(), e));
                        proof {
                            assert(named_errors_view(errs@) =~= prior.push(
                                (self@.name, all[total - 1 - rest.len()]),
                            ));
                            assert(named_errors_view(errs@) =~= before + Seq::new(
                                (total - rest.len()) as nat,
                                |k: int| (self@.name, all[k]),
                            ));
                        }
                    }
                    proof {
                        assert(Seq::new(total as nat, |k: int| (self@.name, all[k]))
                            =~= parts[i as int]);
                    }
                },
            }
            proof {
                lemma_concat_step(parts, i as int);
                lemma_append_assoc(start, concat(parts.take(i as int)), parts[i as int]);
            }
            i += 1;
        }
        proof {
            assert(parts.take(self.rules.len() as int) =~= parts);
            assert(parts =~= Seq::new(
                self@.rules.len(),
                |i: int|
                    Seq::new(
                        rule_scope_errors(self@.rules[i]).len(),
                        |k: int| (self@.name, rule_scope_errors(self@.rules[i])[k]),
                    ),
            ));
        }
    }
}

impl DefinitionBook {
    /// Checks that all variables are bound, in every rule of every
    /// definition. All failures are gathered, each with the name of its
    /// definition.
    pub fn check_unbound_vars(&self) -> (r: Result<(), Vec<(Name, ScopeError)>>)
        ensures
            match r {
                Ok(_) => book_scope_errors(self@).len() == 0,
                Err(errs) => errs.len() > 0 && named_errors_view(errs@) == book_scope_errors(self@),
            },
    {
        let mut errs: Vec<(Name, ScopeError)> = Vec::new();
        let ghost parts = Seq::new(self@.len(), |i: int| definition_scope_errors(self@[i]));
        let mut i: usize = 0;
        proof {
            assert(parts.take(0) =~= Seq::empty());
            assert(named_errors_view(errs@) =~= concat(parts.take(0)));
        }
        while i < self.defs.len()
            invariant
                i <= self.defs.len(),
                parts == Seq::new(self@.len(), |i: int| definition_scope_errors(self@[i])),
                parts.len() == self.defs.len(),
                named_errors_view(errs@) == concat(parts.take(i as int)),
            decreases self.defs.len() - i,
        {
            self.defs[i].gather_scope_errors(&mut errs);
            proof {
                lemma_concat_step(parts, i as int);
            }
            i += 1;
        }
        proof {
            assert(parts.take(self.defs.len() as int) =~= parts);
        }
        if errs.len() == 0 {
            Ok(())
        } else {
            Err(errs)
        }
    }
}

} // verus!
