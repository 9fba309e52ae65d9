//! What the scope analysis establishes: a term passes it exactly if each of
//! its variables stands inside a binder of its name, and each unscoped
//! channel that it uses is declared somewhere in it.
use vstd::prelude::*;
use crate::term::book::{DefinitionView, RuleView};
use crate::term::check::unbound_vars::{
    bind, bind_all, book_scope_errors, definition_scope_errors, merge, rule_scope,
    rule_scope_errors, scan, scan_arms, scan_cases, scan_terms, scope_errors, unbound_links,
    unbound_links_upto, ReportView,
};
use crate::term::subst::{subst, subst_arms, subst_cases, subst_terms};
use crate::term::text::concat;
use crate::term::{ArmView, Ident, TermView};

verus! {

/// Whether the variable `n` occurs free in a term: whether the term holds
/// an occurrence of the variable that no binder of the name `n` stands
/// around, on the way from the term down to the occurrence. The field
/// binders of the arm of a match stand around the body of the arm, the
/// predecessor of a switch around its last arm.
pub open spec fn occurs_free(t: TermView, n: Ident) -> bool
    decreases t, 0nat,
{
    match t {
        TermView::Lam { tag, nam, bod } => nam != Some(n) && occurs_free(*bod, n),
        TermView::Var { nam } => nam == n,
        TermView::Chn { tag, nam, bod } => occurs_free(*bod, n),
        TermView::Let { nam, val, nxt } => occurs_free(*val, n) || (nam != Some(n) && occurs_free(
            *nxt,
            n,
        )),
        TermView::Use { nam, val, nxt } => occurs_free(*val, n) || (nam != n && occurs_free(
            *nxt,
            n,
        )),
        TermView::App { tag, fun, arg } => occurs_free(*fun, n) || occurs_free(*arg, n),
        TermView::Ltp { bnd, val, nxt } => occurs_free(*val, n) || (!bnd.contains(Some(n))
            && occurs_free(*nxt, n)),
        TermView::Tup { els } => free_in_terms(els, n).contains(true),
        TermView::Dup { tag, bnd, val, nxt } => occurs_free(*val, n) || (!bnd.contains(Some(n))
            && occurs_free(*nxt, n)),
        TermView::Sup { tag, els } => free_in_terms(els, n).contains(true),
        TermView::Lst { els } => free_in_terms(els, n).contains(true),
        TermView::Opx { opr, fst, snd } => occurs_free(*fst, n) || occurs_free(*snd, n),
        TermView::Mat { arg, bnd, with, arms } => occurs_free(*arg, n) || free_in_arms(
            arms,
            n,
        ).contains(true),
        TermView::Swt { arg, bnd, with, pred, arms } => occurs_free(*arg, n) || free_in_cases(
            arms,
            pred,
            n,
        ).contains(true),
        _ => false,
    }
}

/// For each term of a list, whether the variable occurs free in it.
pub open spec fn free_in_terms(ts: Seq<TermView>, n: Ident) -> Seq<bool>
    decreases ts, 1nat,
{
    Seq::new(
        ts.len(),
        |i: int|
            if 0 <= i < ts.len() {
                occurs_free(ts[i], n)
            } else {
                false
            },
    )
}

/// For each arm of a match, whether the variable occurs free in its body
/// and is not one of its field binders.
pub open spec fn free_in_arms(arms: Seq<ArmView>, n: Ident) -> Seq<bool>
    decreases arms, 1nat,
{
    Seq::new(
        arms.len(),
        |i: int|
            if 0 <= i < arms.len() {
                !arms[i].fields.contains(Some(n)) && occurs_free(arms[i].body, n)
            } else {
                false
            },
    )
}

/// For each arm of a switch, whether the variable occurs free in it; for
/// the last arm, whether it does and is not the predecessor.
pub open spec fn free_in_cases(arms: Seq<TermView>, pred: Option<Ident>, n: Ident) -> Seq<bool>
    decreases arms, 1nat,
{
    Seq::new(
        arms.len(),
        |i: int|
            if 0 <= i < arms.len() {
                !(i == arms.len() - 1 && pred == Some(n)) && occurs_free(arms[i], n)
            } else {
                false
            },
    )
}

/// Whether no variable occurs free in a term.
pub open spec fn closed(t: TermView) -> bool {
    forall|n: Ident| !occurs_free(t, n)
}

/// Whether every variable that occurs free in a term is declared by the
/// scope around it.
pub open spec fn bound_by(t: TermView, scope: Seq<Ident>) -> bool {
    forall|n: Ident| occurs_free(t, n) ==> scope.contains(n)
}

/// Whether every unscoped channel that was used was declared.
pub open spec fn channels_declared(r: ReportView) -> bool {
    forall|n: Ident| r.used.contains(n) ==> r.declared.contains(n)
}

proof fn lemma_add_contains<A>(a: Seq<A>, b: Seq<A>, x: A)
    ensures
        (a + b).contains(x) <==> a.contains(x) || b.contains(x),
{
    if a.contains(x) {
        let i = choose|i: int| 0 <= i < a.len() && a[i] == x;
        assert((a + b)[i] == x);
    }
    if b.contains(x) {
        let i = choose|i: int| 0 <= i < b.len() && b[i] == x;
        assert((a + b)[a.len() + i] == x);
    }
    if (a + b).contains(x) {
        let i = choose|i: int| 0 <= i < (a + b).len() && (a + b)[i] == x;
        if i < a.len() {
            assert(a[i] == x);
        } else {
            assert(b[i - a.len()] == x);
        }
    }
}

proof fn lemma_push_contains<A>(s: Seq<A>, y: A, x: A)
    ensures
        s.push(y).contains(x) <==> s.contains(x) || y == x,
{
    assert(s.push(y) =~= s + seq![y]);
    lemma_add_contains(s, seq![y], x);
    if y == x {
        assert(seq![y][0] == x);
    }
}

proof fn lemma_bind_contains(scope: Seq<Ident>, nam: Option<Ident>, n: Ident)
    ensures
        bind(scope, nam).contains(n) <==> scope.contains(n) || nam == Some(n),
{
    match nam {
        Some(x) => {
            lemma_push_contains(scope, x, n);
        },
        None => {},
    }
}

proof fn lemma_bind_all_contains(scope: Seq<Ident>, bnd: Seq<Option<Ident>>, n: Ident)
    ensures
        bind_all(scope, bnd).contains(n) <==> scope.contains(n) || bnd.contains(Some(n)),
    decreases bnd.len(),
{
    if bnd.len() > 0 {
        let front = bnd.drop_last();
        lemma_bind_all_contains(scope, front, n);
        lemma_bind_contains(bind_all(scope, front), bnd.last(), n);
        assert(bnd =~= front.push(bnd.last()));
        lemma_push_contains(front, bnd.last(), Some(n));
    }
}

proof fn lemma_merge_unbound(parts: Seq<ReportView>, n: Ident)
    ensures
        merge(parts).unbound.contains(n) <==> exists|i: int|
            0 <= i < parts.len() && (#[trigger] parts[i]).unbound.contains(n),
    decreases parts.len(),
{
    if parts.len() > 0 {
        let front = parts.drop_last();
        lemma_merge_unbound(front, n);
        lemma_add_contains(merge(front).unbound, parts.last().unbound, n);
        if merge(parts).unbound.contains(n) {
            if merge(front).unbound.contains(n) {
                let i = choose|i: int| 0 <= i < front.len()
                    && (#[trigger] front[i]).unbound.contains(n);
                assert(parts[i] == front[i]);
            } else {
                assert(parts[parts.len() - 1].unbound.contains(n));
            }
        }
        if exists|i: int| 0 <= i < parts.len() && (#[trigger] parts[i]).unbound.contains(n) {
            let i = choose|i: int| 0 <= i < parts.len()
                && (#[trigger] parts[i]).unbound.contains(n);
            if i < front.len() {
                assert(front[i] == parts[i]);
            }
        }
    }
}

/// The variables that a scan reports as unbound are the variables that
/// occur free in the term and that the scope around the term does not
/// declare.
pub proof fn lemma_unbound_is_free(t: TermView, scope: Seq<Ident>, n: Ident)
    ensures
        scan(t, scope).unbound.contains(n) <==> occurs_free(t, n) && !scope.contains(n),
    decreases t, 0nat,
{
    let empty = Seq::<Ident>::empty();
    match t {
        TermView::Lam { tag, nam, bod } => {
            lemma_unbound_is_free(*bod, bind(scope, nam), n);
            lemma_bind_contains(scope, nam, n);
        },
        TermView::Var { nam } => {
            if !scope.contains(nam) {
                assert(seq![nam][0] == nam);
            }
        },
        TermView::Chn { tag, nam, bod } => {
            lemma_unbound_is_free(*bod, scope, n);
            lemma_add_contains(empty, scan(*bod, scope).unbound, n);
        },
        TermView::Let { nam, val, nxt } => {
            lemma_unbound_is_free(*val, scope, n);
            lemma_unbound_is_free(*nxt, bind(scope, nam), n);
            lemma_bind_contains(scope, nam, n);
            lemma_add_contains(scan(*val, scope).unbound, scan(*nxt, bind(scope, nam)).unbound, n);
        },
        TermView::Use { nam, val, nxt } => {
            lemma_unbound_is_free(*val, scope, n);
            lemma_unbound_is_free(*nxt, scope.push(nam), n);
            lemma_push_contains(scope, nam, n);
            lemma_add_contains(scan(*val, scope).unbound, scan(*nxt, scope.push(nam)).unbound, n);
        },
        TermView::App { tag, fun, arg } => {
            lemma_unbound_is_free(*fun, scope, n);
            lemma_unbound_is_free(*arg, scope, n);
            lemma_add_contains(scan(*fun, scope).unbound, scan(*arg, scope).unbound, n);
        },
        TermView::Ltp { bnd, val, nxt } => {
            lemma_unbound_is_free(*val, scope, n);
            lemma_unbound_is_free(*nxt, bind_all(scope, bnd), n);
            lemma_bind_all_contains(scope, bnd, n);
            lemma_add_contains(
                scan(*val, scope).unbound,
                scan(*nxt, bind_all(scope, bnd)).unbound,
                n,
            );
        },
        TermView::Tup { els } => {
            lemma_unbound_in_terms(els, scope, n);
        },
        TermView::Dup { tag, bnd, val, nxt } => {
            lemma_unbound_is_free(*val, scope, n);
            lemma_unbound_is_free(*nxt, bind_all(scope, bnd), n);
            lemma_bind_all_contains(scope, bnd, n);
            lemma_add_contains(
                scan(*val, scope).unbound,
                scan(*nxt, bind_all(scope, bnd)).unbound,
                n,
            );
        },
        TermView::Sup { tag, els } => {
            lemma_unbound_in_terms(els, scope, n);
        },
        TermView::Lst { els } => {
            lemma_unbound_in_terms(els, scope, n);
        },
        TermView::Opx { opr, fst, snd } => {
            lemma_unbound_is_free(*fst, scope, n);
            lemma_unbound_is_free(*snd, scope, n);
            lemma_add_contains(scan(*fst, scope).unbound, scan(*snd, scope).unbound, n);
        },
        TermView::Mat { arg, bnd, with, arms } => {
            lemma_unbound_is_free(*arg, scope, n);
            lemma_unbound_in_arms(arms, scope, n);
            lemma_add_contains(
                scan(*arg, scope).unbound,
                merge(scan_arms(arms, scope)).unbound,
                n,
            );
        },
        TermView::Swt { arg, bnd, with, pred, arms } => {
            lemma_unbound_is_free(*arg, scope, n);
            lemma_unbound_in_cases(arms, pred, scope, n);
            lemma_add_contains(
                scan(*arg, scope).unbound,
                merge(scan_cases(arms, pred, scope)).unbound,
                n,
            );
        },
        _ => {},
    }
}

proof fn lemma_unbound_in_terms(ts: Seq<TermView>, scope: Seq<Ident>, n: Ident)
    ensures
        merge(scan_terms(ts, scope)).unbound.contains(n) <==> free_in_terms(ts, n).contains(true)
            && !scope.contains(n),
    decreases ts, 1nat,
{
    let parts = scan_terms(ts, scope);
    let flags = free_in_terms(ts, n);
    lemma_merge_unbound(parts, n);
    assert forall|i: int| 0 <= i < ts.len() implies ((#[trigger] parts[i]).unbound.contains(n)
        <==> flags[i] && !scope.contains(n)) by {
        lemma_unbound_is_free(ts[i], scope, n);
    }
    if flags.contains(true) && !scope.contains(n) {
        let i = choose|i: int| 0 <= i < flags.len() && flags[i] == true;
        assert(parts[i].unbound.contains(n));
    }
    if merge(parts).unbound.contains(n) {
        let i = choose|i: int| 0 <= i < parts.len() && (#[trigger] parts[i]).unbound.contains(n);
        assert(flags[i] == true);
    }
}

proof fn lemma_unbound_in_arms(arms: Seq<ArmView>, scope: Seq<Ident>, n: Ident)
    ensures
        merge(scan_arms(arms, scope)).unbound.contains(n) <==> free_in_arms(arms, n).contains(true)
            && !scope.contains(n),
    decreases arms, 1nat,
{
    let parts = scan_arms(arms, scope);
    let flags = free_in_arms(arms, n);
    lemma_merge_unbound(parts, n);
    assert forall|i: int| 0 <= i < arms.len() implies ((#[trigger] parts[i]).unbound.contains(n)
        <==> flags[i] && !scope.contains(n)) by {
        lemma_unbound_is_free(arms[i].body, bind_all(scope, arms[i].fields), n);
        lemma_bind_all_contains(scope, arms[i].fields, n);
    }
    if flags.contains(true) && !scope.contains(n) {
        let i = choose|i: int| 0 <= i < flags.len() && flags[i] == true;
        assert(parts[i].unbound.contains(n));
    }
    if merge(parts).unbound.contains(n) {
        let i = choose|i: int| 0 <= i < parts.len() && (#[trigger] parts[i]).unbound.contains(n);
        assert(flags[i] == true);
    }
}

proof fn lemma_unbound_in_cases(
    arms: Seq<TermView>,
    pred: Option<Ident>,
    scope: Seq<Ident>,
    n: Ident,
)
    ensures
        merge(scan_cases(arms, pred, scope)).unbound.contains(n) <==> free_in_cases(
            arms,
            pred,
            n,
        ).contains(true) && !scope.contains(n),
    decreases arms, 1nat,
{
    let parts = scan_cases(arms, pred, scope);
    let flags = free_in_cases(arms, pred, n);
    lemma_merge_unbound(parts, n);
    assert forall|i: int| 0 <= i < arms.len() implies ((#[trigger] parts[i]).unbound.contains(n)
        <==> flags[i] && !scope.contains(n)) by {
        if i == arms.len() - 1 {
            lemma_unbound_is_free(arms[i], bind(scope, pred), n);
            lemma_bind_contains(scope, pred, n);
        } else {
            lemma_unbound_is_free(arms[i], scope, n);
        }
    }
    if flags.contains(true) && !scope.contains(n) {
        let i = choose|i: int| 0 <= i < flags.len() && flags[i] == true;
        assert(parts[i].unbound.contains(n));
    }
    if merge(parts).unbound.contains(n) {
        let i = choose|i: int| 0 <= i < parts.len() && (#[trigger] parts[i]).unbound.contains(n);
        assert(flags[i] == true);
    }
}

/// The channels that are reported as unbound are the channels that are
/// used and not declared.
pub proof fn lemma_unbound_links(used: Seq<Ident>, declared: Seq<Ident>, k: int, n: Ident)
    requires
        0 <= k <= used.len(),
    ensures
        unbound_links_upto(used, declared, k).contains(n) <==> used.take(k).contains(n)
            && !declared.contains(n),
    decreases k,
{
    if k > 0 {
        lemma_unbound_links(used, declared, k - 1, n);
        let nam = used[k - 1];
        assert(used.take(k) =~= used.take(k - 1).push(nam));
        lemma_push_contains(used.take(k - 1), nam, n);
        lemma_push_contains(unbound_links_upto(used, declared, k - 1), nam, n);
    }
}

/// A scan in the empty scope reports no unbound variable exactly if the
/// term is closed.
pub proof fn lemma_closed(t: TermView)
    ensures
        scan(t, Seq::empty()).unbound.len() == 0 <==> closed(t),
{
    let r = scan(t, Seq::empty());
    assert forall|n: Ident| #[trigger] r.unbound.contains(n) <==> occurs_free(t, n) by {
        lemma_unbound_is_free(t, Seq::empty(), n);
    }
    if r.unbound.len() == 0 {
        assert forall|n: Ident| !occurs_free(t, n) by {
            if occurs_free(t, n) {
                assert(r.unbound.contains(n));
            }
        }
    }
    if r.unbound.len() > 0 {
        let n = r.unbound[0];
        assert(r.unbound.contains(n));
        assert(occurs_free(t, n));
        assert(!closed(t));
    }
}

/// Scoping. A term passes the scope analysis exactly if it is closed and
/// every unscoped channel that it uses is one that it declares.
pub proof fn lemma_scoping(t: TermView)
    ensures
        scope_errors(scan(t, Seq::empty())).len() == 0 <==> closed(t) && channels_declared(
            scan(t, Seq::empty()),
        ),
{
    lemma_report_passes(scan(t, Seq::empty()));
    lemma_closed(t);
}

/// Scoping, for a rule. The body of a rule passes the scope analysis
/// exactly if every variable that occurs free in it is bound by the
/// patterns of the rule, and every unscoped channel that it uses is one
/// that it declares.
pub proof fn lemma_rule_scoping(r: RuleView)
    ensures
        rule_scope_errors(r).len() == 0 <==> bound_by(r.body, rule_scope(r)) && channels_declared(
            scan(r.body, rule_scope(r)),
        ),
{
    let report = scan(r.body, rule_scope(r));
    lemma_report_passes(report);
    assert forall|n: Ident| #[trigger]
        report.unbound.contains(n) <==> occurs_free(r.body, n) && !rule_scope(r).contains(n) by {
        lemma_unbound_is_free(r.body, rule_scope(r), n);
    }
    if report.unbound.len() == 0 {
        assert forall|n: Ident| occurs_free(r.body, n) implies rule_scope(r).contains(n) by {
            if !rule_scope(r).contains(n) {
                assert(report.unbound.contains(n));
            }
        }
    }
    if report.unbound.len() > 0 {
        let n = report.unbound[0];
        assert(report.unbound.contains(n));
        assert(occurs_free(r.body, n) && !rule_scope(r).contains(n));
        assert(!bound_by(r.body, rule_scope(r)));
    }
}

/// A report amounts to no failure exactly if it holds no unbound variable
/// and every channel that was used was declared.
pub proof fn lemma_report_passes(r: ReportView)
    ensures
        scope_errors(r).len() == 0 <==> r.unbound.len() == 0 && channels_declared(r),
{
    let links = unbound_links(r);
    assert(r.used.take(r.used.len() as int) =~= r.used);
    assert forall|n: Ident| #[trigger]
        links.contains(n) <==> r.used.contains(n) && !r.declared.contains(n) by {
        lemma_unbound_links(r.used, r.declared, r.used.len() as int, n);
    }
    if links.len() > 0 {
        let n = links[0];
        assert(links.contains(n));
        assert(r.used.contains(n) && !r.declared.contains(n));
        assert(!channels_declared(r));
    }
    if links.len() == 0 {
        assert forall|n: Ident| r.used.contains(n) implies r.declared.contains(n) by {
            if !r.declared.contains(n) {
                assert(links.contains(n));
            }
        }
    }
}

/// A substitution for a variable that does not occur free in a term
/// leaves the term as it is.
pub proof fn lemma_subst_not_free(t: TermView, from: Ident, to: TermView)
    requires
        !occurs_free(t, from),
    ensures
        subst(t, from, to) == t,
    decreases t, 0nat,
{
    match t {
        TermView::Lam { tag, nam, bod } => {
            if nam != Some(from) {
                lemma_subst_not_free(*bod, from, to);
            }
        },
        TermView::Chn { tag, nam, bod } => {
            lemma_subst_not_free(*bod, from, to);
        },
        TermView::Let { nam, val, nxt } => {
            lemma_subst_not_free(*val, from, to);
            if nam != Some(from) {
                lemma_subst_not_free(*nxt, from, to);
            }
        },
        TermView::Use { nam, val, nxt } => {
            lemma_subst_not_free(*val, from, to);
            if nam != from {
                lemma_subst_not_free(*nxt, from, to);
            }
        },
        TermView::App { tag, fun, arg } => {
            lemma_subst_not_free(*fun, from, to);
            lemma_subst_not_free(*arg, from, to);
        },
        TermView::Ltp { bnd, val, nxt } => {
            lemma_subst_not_free(*val, from, to);
            if !bnd.contains(Some(from)) {
                lemma_subst_not_free(*nxt, from, to);
            }
        },
        TermView::Dup { tag, bnd, val, nxt } => {
            lemma_subst_not_free(*val, from, to);
            if !bnd.contains(Some(from)) {
                lemma_subst_not_free(*nxt, from, to);
            }
        },
        TermView::Opx { opr, fst, snd } => {
            lemma_subst_not_free(*fst, from, to);
            lemma_subst_not_free(*snd, from, to);
        },
        TermView::Tup { els } => {
            lemma_subst_terms_not_free(els, from, to);
        },
        TermView::Sup { tag, els } => {
            lemma_subst_terms_not_free(els, from, to);
        },
        TermView::Lst { els } => {
            lemma_subst_terms_not_free(els, from, to);
        },
        TermView::Mat { arg, bnd, with, arms } => {
            lemma_subst_not_free(*arg, from, to);
            let flags = free_in_arms(arms, from);
            assert forall|i: int| 0 <= i < arms.len() implies #[trigger] subst_arms(
                arms,
                from,
                to,
            )[i] == arms[i] by {
                if !arms[i].fields.contains(Some(from)) {
                    if occurs_free(arms[i].body, from) {
                        assert(flags[i] == true);
                        assert(flags.contains(true));
                    }
                    lemma_subst_not_free(arms[i].body, from, to);
                }
            }
            assert(subst_arms(arms, from, to) =~= arms);
        },
        TermView::Swt { arg, bnd, with, pred, arms } => {
            lemma_subst_not_free(*arg, from, to);
            let flags = free_in_cases(arms, pred, from);
            assert forall|i: int| 0 <= i < arms.len() implies #[trigger] subst_cases(
                arms,
                pred,
                from,
                to,
            )[i] == arms[i] by {
                if !(i == arms.len() - 1 && pred == Some(from)) {
                    if occurs_free(arms[i], from) {
                        assert(flags[i] == true);
                        assert(flags.contains(true));
                    }
                    lemma_subst_not_free(arms[i], from, to);
                }
            }
            assert(subst_cases(arms, pred, from, to) =~= arms);
        },
        _ => {},
    }
}

proof fn lemma_subst_terms_not_free(ts: Seq<TermView>, from: Ident, to: TermView)
    requires
        !free_in_terms(ts, from).contains(true),
    ensures
        subst_terms(ts, from, to) == ts,
    decreases ts, 1nat,
{
    let flags = free_in_terms(ts, from);
    assert forall|i: int| 0 <= i < ts.len() implies #[trigger] subst_terms(ts, from, to)[i]
        == ts[i] by {
        if occurs_free(ts[i], from) {
            assert(flags[i] == true);
            assert(flags.contains(true));
        }
        lemma_subst_not_free(ts[i], from, to);
    }
    assert(subst_terms(ts, from, to) =~= ts);
}

/// A closed term is left as it is by every substitution.
pub proof fn lemma_subst_closed(t: TermView, from: Ident, to: TermView)
    requires
        closed(t),
    ensures
        subst(t, from, to) == t,
{
    lemma_subst_not_free(t, from, to);
}

/// Scoping, for a book. The definitions of a book pass the scope analysis
/// exactly if every one of their rules does.
pub proof fn lemma_book_scoping(defs: Seq<DefinitionView>)
    ensures
        book_scope_errors(defs).len() == 0 <==> forall|i: int, j: int|
            0 <= i < defs.len() && 0 <= j < defs[i].rules.len() ==> #[trigger] rule_scope_errors(
                defs[i].rules[j],
            ).len() == 0,
{
    let parts = Seq::new(defs.len(), |i: int| definition_scope_errors(defs[i]));
    lemma_concat_empty(parts);
    assert forall|i: int| 0 <= i < defs.len() implies ((#[trigger] parts[i]).len() == 0
        <==> forall|j: int|
        0 <= j < defs[i].rules.len() ==> #[trigger] rule_scope_errors(defs[i].rules[j]).len()
            == 0) by {
        let d = defs[i];
        let inner = Seq::new(
            d.rules.len(),
            |j: int|
                Seq::new(
                    rule_scope_errors(d.rules[j]).len(),
                    |k: int| (d.name, rule_scope_errors(d.rules[j])[k]),
                ),
        );
        lemma_concat_empty(inner);
        if parts[i].len() == 0 {
            assert forall|j: int| 0 <= j < d.rules.len() implies #[trigger] rule_scope_errors(
                d.rules[j],
            ).len() == 0 by {
                assert(inner[j].len() == 0);
            }
        } else {
            let j = choose|j: int| 0 <= j < inner.len() && (#[trigger] inner[j]).len() != 0;
            assert(rule_scope_errors(d.rules[j]).len() != 0);
        }
    }
    if book_scope_errors(defs).len() != 0 {
        let i = choose|i: int| 0 <= i < parts.len() && (#[trigger] parts[i]).len() != 0;
        let j = choose|j: int|
            0 <= j < defs[i].rules.len() && #[trigger] rule_scope_errors(defs[i].rules[j]).len()
                != 0;
        assert(rule_scope_errors(defs[i].rules[j]).len() != 0);
    } else {
        assert forall|i: int, j: int|
            0 <= i < defs.len() && 0 <= j < defs[i].rules.len() implies #[trigger] rule_scope_errors(
            defs[i].rules[j],
        ).len() == 0 by {
            assert(parts[i].len() == 0);
        }
    }
}

/// A concatenation is empty exactly if every part is.
proof fn lemma_concat_empty<A>(parts: Seq<Seq<A>>)
    ensures
        concat(parts).len() == 0 <==> forall|i: int|
            0 <= i < parts.len() ==> (#[trigger] parts[i]).len() == 0,
    decreases parts.len(),
{
    if parts.len() > 0 {
        let front = parts.drop_last();
        lemma_concat_empty(front);
        if concat(parts).len() == 0 {
            assert forall|i: int| 0 <= i < parts.len() implies (#[trigger] parts[i]).len() == 0 by {
                if i < front.len() {
                    assert(front[i] == parts[i]);
                }
            }
        } else {
            if concat(front).len() != 0 {
                let i = choose|i: int| 0 <= i < front.len() && (#[trigger] front[i]).len() != 0;
                assert(parts[i] == front[i]);
            } else {
                assert(parts[parts.len() - 1].len() != 0);
            }
        }
    }
}

} // verus!
