//! Substitution of a term for a variable.
use vstd::prelude::*;
use crate::term::{
    arm_view, arms_view, opt_ident, opt_idents, term_view, terms_view, ArmView, Ident, MatchRule,
    Name, Term, TermView,
};

verus! {

/// The arm with its body replaced.
pub open spec fn arm_with_body(arm: ArmView, body: TermView) -> ArmView {
    ArmView { ctr: arm.ctr, fields: arm.fields, body }
}

/// The term with `to` in place of every occurrence of the variable `from`
/// that is not inside a binder of the same name. Uses of unscoped channels
/// are never touched.
pub open spec fn subst(t: TermView, from: Ident, to: TermView) -> TermView
    decreases t, 0nat,
{
    match t {
        TermView::Lam { tag, nam, bod } => if nam == Some(from) {
            t
        } else {
            TermView::Lam { tag, nam, bod: Box::new(subst(*bod, from, to)) }
        },
        TermView::Var { nam } => if nam == from {
            to
        } else {
            t
        },
        TermView::Chn { tag, nam, bod } => TermView::Chn {
            tag,
            nam,
            bod: Box::new(subst(*bod, from, to)),
        },
        TermView::Lnk { nam } => t,
        TermView::Let { nam, val, nxt } => TermView::Let {
            nam,
            val: Box::new(subst(*val, from, to)),
            nxt: if nam == Some(from) {
                nxt
            } else {
                Box::new(subst(*nxt, from, to))
            },
        },
        TermView::Use { nam, val, nxt } => TermView::Use {
            nam,
            val: Box::new(subst(*val, from, to)),
            nxt: if nam == from {
                nxt
            } else {
                Box::new(subst(*nxt, from, to))
            },
        },
        TermView::App { tag, fun, arg } => TermView::App {
            tag,
            fun: Box::new(subst(*fun, from, to)),
            arg: Box::new(subst(*arg, from, to)),
        },
        TermView::Ltp { bnd, val, nxt } => TermView::Ltp {
            bnd,
            val: Box::new(subst(*val, from, to)),
            nxt: if bnd.contains(Some(from)) {
                nxt
            } else {
                Box::new(subst(*nxt, from, to))
            },
        },
        TermView::Tup { els } => TermView::Tup { els: subst_terms(els, from, to) },
        TermView::Dup { tag, bnd, val, nxt } => TermView::Dup {
            tag,
            bnd,
            val: Box::new(subst(*val, from, to)),
            nxt: if bnd.contains(Some(from)) {
                nxt
            } else {
                Box::new(subst(*nxt, from, to))
            },
        },
        TermView::Sup { tag, els } => TermView::Sup { tag, els: subst_terms(els, from, to) },
        TermView::Num { val } => t,
        TermView::Nat { val } => t,
        TermView::Str { val } => t,
        TermView::Lst { els } => TermView::Lst { els: subst_terms(els, from, to) },
        TermView::Opx { opr, fst, snd } => TermView::Opx {
            opr,
            fst: Box::new(subst(*fst, from, to)),
            snd: Box::new(subst(*snd, from, to)),
        },
        TermView::Mat { arg, bnd, with, arms } => TermView::Mat {
            arg: Box::new(subst(*arg, from, to)),
            bnd,
            with,
            arms: subst_arms(arms, from, to),
        },
        TermView::Swt { arg, bnd, with, pred, arms } => TermView::Swt {
            arg: Box::new(subst(*arg, from, to)),
            bnd,
            with,
            pred,
            arms: subst_cases(arms, pred, from, to),
        },
        TermView::Ref { nam } => t,
        TermView::Era => t,
        TermView::Error => t,
    }
}

/// The substitution in each term of a list.
pub open spec fn subst_terms(ts: Seq<TermView>, from: Ident, to: TermView) -> Seq<TermView>
    decreases ts, 1nat,
{
    Seq::new(
        ts.len(),
        |i: int|
            if 0 <= i < ts.len() {
                subst(ts[i], from, to)
            } else {
                TermView::Error
            },
    )
}

/// The substitution in the arms of a match: an arm whose field binders hold
/// the name keeps its body.
pub open spec fn subst_arms(arms: Seq<ArmView>, from: Ident, to: TermView) -> Seq<ArmView>
    decreases arms, 1nat,
{
    Seq::new(
        arms.len(),
        |i: int|
            if 0 <= i < arms.len() {
                if arms[i].fields.contains(Some(from)) {
                    arms[i]
                } else {
                    arm_with_body(arms[i], subst(arms[i].body, from, to))
                }
            } else {
                ArmView { ctr: None, fields: Seq::empty(), body: TermView::Error }
            },
    )
}

/// The substitution in the arms of a switch: the last arm keeps its body
/// where the predecessor has the name.
pub open spec fn subst_cases(
    arms: Seq<TermView>,
    pred: Option<Ident>,
    from: Ident,
    to: TermView,
) -> Seq<
    TermView,
>
    decreases arms, 1nat,
{
    Seq::new(
        arms.len(),
        |i: int|
            if 0 <= i < arms.len() {
                if i == arms.len() - 1 && pred == Some(from) {
                    arms[i]
                } else {
                    subst(arms[i], from, to)
                }
            } else {
                TermView::Error
            },
    )
}

/// Whether one of the binders has the name.
pub fn binds_contain(bnd: &Vec<Option<Name>>, nam: &Name) -> (r: bool)
    ensures
        r == opt_idents(bnd@).contains(Some(nam@)),
{
    let mut i: usize = 0;
    while i < bnd.len()
        invariant
            i <= bnd.len(),
            forall|j: int| 0 <= j < i ==> opt_idents(bnd@)[j] != Some(nam@),
        decreases bnd.len() - i,
    {
        match &bnd[i] {
            Some(n) => {
                if n.same(nam) {
                    assert(opt_idents(bnd@)[i as int] == Some(nam@));
                    return true;
                }
            },
            None => {},
        }
        i += 1;
    }
    false
}

/// Whether a binder has the name.
pub fn bind_is(bnd: &Option<Name>, nam: &Name) -> (r: bool)
    ensures
        r == (opt_ident(*bnd) == Some(nam@)),
{
    match bnd {
        Some(n) => n.same(nam),
        None => false,
    }
}

fn subst_in_terms(ts: &mut Vec<Term>, from: &Name, to: &Term)
    ensures
        terms_view(final(ts)@) == subst_terms(terms_view(old(ts)@), from@, to@),
    decreases *old(ts), 1nat,
{
    let ghost before = ts@;
    let mut i: usize = 0;
    while i < ts.len()
        invariant
            i <= ts.len(),
            ts.len() == before.len(),
            before == old(ts)@,
            forall|j: int|
                0 <= j < i ==> term_view(#[trigger] ts@[j]) == subst(
                    term_view(before[j]),
                    from@,
                    to@,
                ),
            forall|j: int| i <= j < ts.len() ==> ts@[j] == before[j],
        decreases ts.len() - i,
    {
        ts[i].subst(from, to);
        i += 1;
    }
    assert(terms_view(ts@) =~= subst_terms(terms_view(before), from@, to@));
}

fn subst_in_arms(arms: &mut Vec<MatchRule>, from: &Name, to: &Term)
    ensures
        arms_view(final(arms)@) == subst_arms(arms_view(old(arms)@), from@, to@),
    decreases *old(arms), 1nat,
{
    let ghost before = arms@;
    let mut i: usize = 0;
    while i < arms.len()
        invariant
            i <= arms.len(),
            arms.len() == before.len(),
            before == old(arms)@,
            forall|j: int|
                0 <= j < i ==> arm_view(#[trigger] arms@[j]) == subst_arms(
                    arms_view(before),
                    from@,
                    to@,
                )[j],
            forall|j: int| i <= j < arms.len() ==> arms@[j] == before[j],
        decreases arms.len() - i,
    {
        if !binds_contain(&arms[i].1, from) {
            arms[i].2.subst(from, to);
        }
        i += 1;
    }
    assert(arms_view(arms@) =~= subst_arms(arms_view(before), from@, to@));
}

fn subst_in_cases(arms: &mut Vec<Term>, pred: &Option<Name>, from: &Name, to: &Term)
    ensures
        terms_view(final(arms)@) == subst_cases(
            terms_view(old(arms)@),
            opt_ident(*pred),
            from@,
            to@,
        ),
    decreases *old(arms), 1nat,
{
    let ghost before = arms@;
    let mut i: usize = 0;
    while i < arms.len()
        invariant
            i <= arms.len(),
            arms.len() == before.len(),
            before == old(arms)@,
            forall|j: int|
                0 <= j < i ==> term_view(#[trigger] arms@[j]) == subst_cases(
                    terms_view(before),
                    opt_ident(*pred),
                    from@,
                    to@,
                )[j],
            forall|j: int| i <= j < arms.len() ==> arms@[j] == before[j],
        decreases arms.len() - i,
    {
        if !(i == arms.len() - 1 && bind_is(pred, from)) {
            arms[i].subst(from, to);
        }
        i += 1;
    }
    assert(terms_view(arms@) =~= subst_cases(
        terms_view(before),
        opt_ident(*pred),
        from@,
        to@,
    ));
}

impl Term {
    /// Puts a copy of `to` in place of every occurrence of the variable
    /// `from` that is not inside a binder of the same name.
    pub fn subst(&mut self, from: &Name, to: &Term)
        ensures
            final(self)@ == subst(old(self)@, from@, to@),
        decreases *old(self), 0nat,
    {
        match self {
            Term::Lam { tag: _, nam, bod } => {
                if !bind_is(nam, from) {
                    bod.subst(from, to);
                }
            },
            Term::Var { nam } => {
                if nam.same(from) {
                    *self = to.clone();
                }
            },
            Term::Chn { tag: _, nam: _, bod } => {
                bod.subst(from, to);
            },
            Term::Let { nam, val, nxt } => {
                val.subst(from, to);
                if !bind_is(nam, from) {
                    nxt.subst(from, to);
                }
            },
            Term::Use { nam, val, nxt } => {
                val.subst(from, to);
                if !nam.same(from) {
                    nxt.subst(from, to);
                }
            },
            Term::App { tag: _, fun, arg } => {
                fun.subst(from, to);
                arg.subst(from, to);
            },
            Term::Ltp { bnd, val, nxt } => {
                val.subst(from, to);
                if !binds_contain(bnd, from) {
                    nxt.subst(from, to);
                }
            },
            Term::Tup { els } => {
                subst_in_terms(els, from, to);
            },
            Term::Dup { tag: _, bnd, val, nxt } => {
                val.subst(from, to);
                if !binds_contain(bnd, from) {
                    nxt.subst(from, to);
                }
            },
            Term::Sup { tag: _, els } => {
                subst_in_terms(els, from, to);
            },
            Term::Lst { els } => {
                subst_in_terms(els, from, to);
            },
            Term::Opx { opr: _, fst, snd } => {
                fst.subst(from, to);
                snd.subst(from, to);
            },
            Term::Mat { arg, bnd: _, with: _, arms } => {
                arg.subst(from, to);
                subst_in_arms(arms, from, to);
            },
            Term::Swt { arg, bnd: _, with: _, pred, arms } => {
                arg.subst(from, to);
                subst_in_cases(arms, pred, from, to);
            },
            Term::Lnk { .. } => {},
            Term::Num { .. } => {},
            Term::Nat { .. } => {},
            Term::Str { .. } => {},
            Term::Ref { .. } => {},
            Term::Era => {},
            Term::Error => {},
        }
    }
}

} // verus!
