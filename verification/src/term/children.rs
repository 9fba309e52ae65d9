//! The subterms of a term, in a fixed order, for reading and for rewriting
//! in place.
use vstd::prelude::*;
use crate::term::subst::arm_with_body;
use crate::term::{
    arms_view, terms_view, ArmView, MatchRule, Term, TermView,
};

verus! {

/// The bodies of the arms of a match, in order.
pub open spec fn arm_bodies(arms: Seq<ArmView>) -> Seq<TermView> {
    Seq::new(arms.len(), |i: int| arms[i].body)
}

/// The float children of a term, in the order in which the floating visits
/// them.
///
/// The float children of an application are its argument and then those of
/// the spine of its function: so an application of a head to the arguments
/// `a1` ... `an` has the float children `an`, ..., `a1` and the head. Those
/// of a lambda and of a channel declaration are those of the body. Those of
/// the other terms are their direct subterms, in the order in which the
/// term holds them.
pub open spec fn float_children(t: TermView) -> Seq<TermView>
    decreases t, 0nat,
{
    match t {
        TermView::App { tag, fun, arg } => seq![*arg] + spine_children(*fun),
        TermView::Lam { tag, nam, bod } => float_children(*bod),
        TermView::Chn { tag, nam, bod } => float_children(*bod),
        TermView::Mat { arg, bnd, with, arms } => seq![*arg] + arm_bodies(arms),
        TermView::Swt { arg, bnd, with, pred, arms } => seq![*arg] + arms,
        TermView::Tup { els } => els,
        TermView::Sup { tag, els } => els,
        TermView::Lst { els } => els,
        TermView::Ltp { bnd, val, nxt } => seq![*val, *nxt],
        TermView::Let { nam, val, nxt } => seq![*val, *nxt],
        TermView::Use { nam, val, nxt } => seq![*val, *nxt],
        TermView::Dup { tag, bnd, val, nxt } => seq![*val, *nxt],
        TermView::Opx { opr, fst, snd } => seq![*fst, *snd],
        _ => Seq::empty(),
    }
}

/// The float children along the spine of an application, from the term that
/// stands as its function: the arguments from the outside in, and the head
/// last.
pub open spec fn spine_children(t: TermView) -> Seq<TermView>
    decreases t, 0nat,
{
    match t {
        TermView::App { tag, fun, arg } => seq![*arg] + spine_children(*fun),
        _ => seq![t],
    }
}

/// The term with `c` in place of its float child at the position `i`.
pub open spec fn with_float_child(t: TermView, i: int, c: TermView) -> TermView
    decreases t, 0nat,
{
    match t {
        TermView::App { tag, fun, arg } => if i == 0 {
            TermView::App { tag, fun, arg: Box::new(c) }
        } else {
            TermView::App { tag, fun: Box::new(with_spine_child(*fun, i - 1, c)), arg }
        },
        TermView::Lam { tag, nam, bod } => TermView::Lam {
            tag,
            nam,
            bod: Box::new(with_float_child(*bod, i, c)),
        },
        TermView::Chn { tag, nam, bod } => TermView::Chn {
            tag,
            nam,
            bod: Box::new(with_float_child(*bod, i, c)),
        },
        TermView::Mat { arg, bnd, with, arms } => if i == 0 {
            TermView::Mat { arg: Box::new(c), bnd, with, arms }
        } else {
            TermView::Mat { arg, bnd, with, arms: arms.update(i - 1, arm_with_body(arms[i - 1], c)) }
        },
        TermView::Swt { arg, bnd, with, pred, arms } => if i == 0 {
            TermView::Swt { arg: Box::new(c), bnd, with, pred, arms }
        } else {
            TermView::Swt { arg, bnd, with, pred, arms: arms.update(i - 1, c) }
        },
        TermView::Tup { els } => TermView::Tup { els: els.update(i, c) },
        TermView::Sup { tag, els } => TermView::Sup { tag, els: els.update(i, c) },
        TermView::Lst { els } => TermView::Lst { els: els.update(i, c) },
        TermView::Ltp { bnd, val, nxt } => if i == 0 {
            TermView::Ltp { bnd, val: Box::new(c), nxt }
        } else {
            TermView::Ltp { bnd, val, nxt: Box::new(c) }
        },
        TermView::Let { nam, val, nxt } => if i == 0 {
            TermView::Let { nam, val: Box::new(c), nxt }
        } else {
            TermView::Let { nam, val, nxt: Box::new(c) }
        },
        TermView::Use { nam, val, nxt } => if i == 0 {
            TermView::Use { nam, val: Box::new(c), nxt }
        } else {
            TermView::Use { nam, val, nxt: Box::new(c) }
        },
        TermView::Dup { tag, bnd, val, nxt } => if i == 0 {
            TermView::Dup { tag, bnd, val: Box::new(c), nxt }
        } else {
            TermView::Dup { tag, bnd, val, nxt: Box::new(c) }
        },
        TermView::Opx { opr, fst, snd } => if i == 0 {
            TermView::Opx { opr, fst: Box::new(c), snd }
        } else {
            TermView::Opx { opr, fst, snd: Box::new(c) }
        },
        _ => t,
    }
}

/// The term that stands as the function of an application, with `c` in
/// place of the float child of its spine at the position `i`.
pub open spec fn with_spine_child(t: TermView, i: int, c: TermView) -> TermView
    decreases t, 0nat,
{
    match t {
        TermView::App { tag, fun, arg } => if i == 0 {
            TermView::App { tag, fun, arg: Box::new(c) }
        } else {
            TermView::App { tag, fun: Box::new(with_spine_child(*fun, i - 1, c)), arg }
        },
        _ => c,
    }
}

fn spine_child_mut(term: &mut Term, i: usize) -> (r: &mut Term)
    requires
        i < spine_children(old(term)@).len(),
    ensures
        r@ == spine_children(old(term)@)[i as int],
        final(term)@ == with_spine_child(old(term)@, i as int, final(r)@),
    decreases *old(term),
{
    let is_app = match term {
        Term::App { .. } => true,
        _ => false,
    };
    if is_app {
        match term {
            Term::App { tag: _, fun, arg } => {
                if i == 0 {
                    &mut **arg
                } else {
                    spine_child_mut(fun, i - 1)
                }
            },
            _ => term,
        }
    } else {
        term
    }
}

impl Term {
    /// The float child of the term at the position `i`, for rewriting in
    /// place.
    pub fn float_children_mut(&mut self, i: usize) -> (r: &mut Term)
        requires
            i < float_children(old(self)@).len(),
        ensures
            r@ == float_children(old(self)@)[i as int],
            final(self)@ == with_float_child(old(self)@, i as int, final(r)@),
        decreases *old(self),
    {
        match self {
            Term::App { tag: _, fun, arg } => {
                if i == 0 {
                    &mut **arg
                } else {
                    spine_child_mut(fun, i - 1)
                }
            },
            Term::Lam { tag: _, nam: _, bod } => bod.float_children_mut(i),
            Term::Chn { tag: _, nam: _, bod } => bod.float_children_mut(i),
            Term::Mat { arg, bnd: _, with: _, arms } => {
                if i == 0 {
                    &mut **arg
                } else {
                    arm_body_mut(arms, i - 1)
                }
            },
            Term::Swt { arg, bnd: _, with: _, pred: _, arms } => {
                if i == 0 {
                    &mut **arg
                } else {
                    element_mut(arms, i - 1)
                }
            },
            Term::Tup { els } => element_mut(els, i),
            Term::Sup { tag: _, els } => element_mut(els, i),
            Term::Lst { els } => element_mut(els, i),
            Term::Ltp { bnd: _, val, nxt } => {
                if i == 0 {
                    &mut **val
                } else {
                    &mut **nxt
                }
            },
            Term::Let { nam: _, val, nxt } => {
                if i == 0 {
                    &mut **val
                } else {
                    &mut **nxt
                }
            },
            Term::Use { nam: _, val, nxt } => {
                if i == 0 {
                    &mut **val
                } else {
                    &mut **nxt
                }
            },
            Term::Dup { tag: _, bnd: _, val, nxt } => {
                if i == 0 {
                    &mut **val
                } else {
                    &mut **nxt
                }
            },
            Term::Opx { opr: _, fst, snd } => {
                if i == 0 {
                    &mut **fst
                } else {
                    &mut **snd
                }
            },
            other => other,
        }
    }
}

/// The term of a list at the position `i`, for rewriting in place.
fn element_mut(ts: &mut Vec<Term>, i: usize) -> (r: &mut Term)
    requires
        i < terms_view(old(ts)@).len(),
    ensures
        r@ == terms_view(old(ts)@)[i as int],
        terms_view(final(ts)@) == terms_view(old(ts)@).update(i as int, final(r)@),
{
    &mut ts[i]
}

/// The body of the arm at the position `i`, for rewriting in place.
fn arm_body_mut(arms: &mut Vec<MatchRule>, i: usize) -> (r: &mut Term)
    requires
        i < arms_view(old(arms)@).len(),
    ensures
        r@ == arm_bodies(arms_view(old(arms)@))[i as int],
        arms_view(final(arms)@) == arms_view(old(arms)@).update(
            i as int,
            arm_with_body(arms_view(old(arms)@)[i as int], final(r)@),
        ),
{
    &mut arms[i].2
}

/// The direct subterms of a term, in the order in which the term holds
/// them: the function of an application before its argument, the value of
/// a `let` before what follows, the argument of a match before the bodies
/// of its arms.
pub open spec fn children(t: TermView) -> Seq<TermView> {
    match t {
        TermView::Lam { tag, nam, bod } => seq![*bod],
        TermView::Chn { tag, nam, bod } => seq![*bod],
        TermView::App { tag, fun, arg } => seq![*fun, *arg],
        TermView::Mat { arg, bnd, with, arms } => seq![*arg] + arm_bodies(arms),
        TermView::Swt { arg, bnd, with, pred, arms } => seq![*arg] + arms,
        TermView::Tup { els } => els,
        TermView::Sup { tag, els } => els,
        TermView::Lst { els } => els,
        TermView::Ltp { bnd, val, nxt } => seq![*val, *nxt],
        TermView::Let { nam, val, nxt } => seq![*val, *nxt],
        TermView::Use { nam, val, nxt } => seq![*val, *nxt],
        TermView::Dup { tag, bnd, val, nxt } => seq![*val, *nxt],
        TermView::Opx { opr, fst, snd } => seq![*fst, *snd],
        _ => Seq::empty(),
    }
}

/// The term with `c` in place of its direct subterm at the position `i`.
pub open spec fn with_child(t: TermView, i: int, c: TermView) -> TermView {
    match t {
        TermView::Lam { tag, nam, bod } => TermView::Lam { tag, nam, bod: Box::new(c) },
        TermView::Chn { tag, nam, bod } => TermView::Chn { tag, nam, bod: Box::new(c) },
        TermView::App { tag, fun, arg } => if i == 0 {
            TermView::App { tag, fun: Box::new(c), arg }
        } else {
            TermView::App { tag, fun, arg: Box::new(c) }
        },
        _ => with_float_child(t, i, c),
    }
}

/// The views of the terms that a list of references leads to.
pub open spec fn refs_view(refs: Seq<&Term>) -> Seq<TermView> {
    Seq::new(refs.len(), |i: int| refs[i]@)
}

fn push_terms<'a>(ts: &'a Vec<Term>, out: &mut Vec<&'a Term>)
    ensures
        refs_view(final(out)@) == refs_view(old(out)@) + terms_view(ts@),
{
    let mut i: usize = 0;
    proof {
        assert(refs_view(out@) =~= refs_view(old(out)@) + terms_view(ts@).take(0));
    }
    while i < ts.len()
        invariant
            i <= ts.len(),
            refs_view(out@) == refs_view(old(out)@) + terms_view(ts@).take(i as int),
        decreases ts.len() - i,
    {
        let ghost before = refs_view(out@);
        out.push(&ts[i]);
        proof {
            assert(refs_view(out@) =~= before.push(ts@[i as int]@));
            assert(refs_view(out@) =~= refs_view(old(out)@) + terms_view(ts@).take(i + 1));
        }
        i += 1;
    }
    proof {
        assert(terms_view(ts@).take(ts.len() as int) =~= terms_view(ts@));
    }
}

fn push_arm_bodies<'a>(arms: &'a Vec<MatchRule>, out: &mut Vec<&'a Term>)
    ensures
        refs_view(final(out)@) == refs_view(old(out)@) + arm_bodies(arms_view(arms@)),
{
    let ghost bodies = arm_bodies(arms_view(arms@));
    let mut i: usize = 0;
    proof {
        assert(refs_view(out@) =~= refs_view(old(out)@) + bodies.take(0));
    }
    while i < arms.len()
        invariant
            i <= arms.len(),
            bodies == arm_bodies(arms_view(arms@)),
            refs_view(out@) == refs_view(old(out)@) + bodies.take(i as int),
        decreases arms.len() - i,
    {
        let ghost before = refs_view(out@);
        out.push(&arms[i].2);
        proof {
            assert(refs_view(out@) =~= before.push(arms@[i as int].2@));
            assert(refs_view(out@) =~= refs_view(old(out)@) + bodies.take(i + 1));
        }
        i += 1;
    }
    proof {
        assert(bodies.take(arms.len() as int) =~= bodies);
    }
}

fn push_spine_children<'a>(term: &'a Term, out: &mut Vec<&'a Term>)
    ensures
        refs_view(final(out)@) == refs_view(old(out)@) + spine_children(term@),
    decreases term,
{
    let ghost before = refs_view(out@);
    match term {
        Term::App { tag: _, fun, arg } => {
            out.push(&**arg);
            proof {
                assert(refs_view(out@) =~= before + seq![arg@]);
            }
            push_spine_children(fun, out);
            proof {
                assert(refs_view(out@) =~= before + (seq![arg@] + spine_children(fun@)));
            }
        },
        _ => {
            out.push(term);
            proof {
                assert(refs_view(out@) =~= before + seq![term@]);
            }
        },
    }
}

impl Term {
    /// The direct subterms of the term, in order.
    pub fn children(&self) -> (r: Vec<&Term>)
        ensures
            refs_view(r@) == children(self@),
    {
        let mut out: Vec<&Term> = Vec::new();
        proof {
            assert(refs_view(out@) =~= Seq::empty());
        }
        match self {
            Term::Lam { tag: _, nam: _, bod } => {
                out.push(&**bod);
            },
            Term::Chn { tag: _, nam: _, bod } => {
                out.push(&**bod);
            },
            Term::App { tag: _, fun, arg } => {
                out.push(&**fun);
                out.push(&**arg);
            },
            Term::Mat { arg, bnd: _, with: _, arms } => {
                out.push(&**arg);
                push_arm_bodies(arms, &mut out);
            },
            Term::Swt { arg, bnd: _, with: _, pred: _, arms } => {
                out.push(&**arg);
                push_terms(arms, &mut out);
            },
            Term::Tup { els } => {
                push_terms(els, &mut out);
            },
            Term::Sup { tag: _, els } => {
                push_terms(els, &mut out);
            },
            Term::Lst { els } => {
                push_terms(els, &mut out);
            },
            Term::Ltp { bnd: _, val, nxt } => {
                out.push(&**val);
                out.push(&**nxt);
            },
            Term::Let { nam: _, val, nxt } => {
                out.push(&**val);
                out.push(&**nxt);
            },
            Term::Use { nam: _, val, nxt } => {
                out.push(&**val);
                out.push(&**nxt);
            },
            Term::Dup { tag: _, bnd: _, val, nxt } => {
                out.push(&**val);
                out.push(&**nxt);
            },
            Term::Opx { opr: _, fst, snd } => {
                out.push(&**fst);
                out.push(&**snd);
            },
            _ => {},
        }
        proof {
            assert(refs_view(out@) =~= children(self@));
        }
        out
    }

    /// The float children of the term, in the order in which the floating
    /// visits them.
    pub fn float_children(&self) -> (r: Vec<&Term>)
        ensures
            refs_view(r@) == float_children(self@),
        decreases self,
    {
        match self {
            Term::App { tag: _, fun, arg } => {
                let mut out: Vec<&Term> = Vec::new();
                out.push(&**arg);
                proof {
                    assert(refs_view(out@) =~= seq![arg@]);
                }
                push_spine_children(fun, &mut out);
                out
            },
            Term::Lam { tag: _, nam: _, bod } => bod.float_children(),
            Term::Chn { tag: _, nam: _, bod } => bod.float_children(),
            _ => self.children(),
        }
    }

    /// The direct subterm of the term at the position `i`, for rewriting in
    /// place.
    pub fn children_mut(&mut self, i: usize) -> (r: &mut Term)
        requires
            i < children(old(self)@).len(),
        ensures
            r@ == children(old(self)@)[i as int],
            final(self)@ == with_child(old(self)@, i as int, final(r)@),
    {
        match self {
            Term::Lam { tag: _, nam: _, bod } => &mut **bod,
            Term::Chn { tag: _, nam: _, bod } => &mut **bod,
            Term::App { tag: _, fun, arg } => {
                if i == 0 {
                    &mut **fun
                } else {
                    &mut **arg
                }
            },
            other => other.float_children_mut(i),
        }
    }
}

/// Putting a float child back where it stands leaves the term as it is.
/// Putting in its place another term that is no application changes that
/// float child and no other. (An application in the place of the head of a
/// spine would become part of the spine.)
pub proof fn lemma_float_child_replaced(t: TermView, i: int, c: TermView)
    requires
        0 <= i < float_children(t).len(),
    ensures
        with_float_child(t, i, float_children(t)[i]) == t,
        !(c is App) ==> float_children(with_float_child(t, i, c)) == float_children(t).update(
            i,
            c,
        ),
    decreases t,
{
    match t {
        TermView::App { tag, fun, arg } => {
            if i > 0 {
                lemma_spine_child_replaced(*fun, i - 1, c);
            }
            if !(c is App) {
                assert(float_children(with_float_child(t, i, c)) =~= float_children(t).update(
                    i,
                    c,
                ));
            }
        },
        TermView::Lam { tag, nam, bod } => {
            lemma_float_child_replaced(*bod, i, c);
        },
        TermView::Chn { tag, nam, bod } => {
            lemma_float_child_replaced(*bod, i, c);
        },
        TermView::Mat { arg, bnd, with, arms } => {
            if i > 0 {
                let same = arms.update(i - 1, arm_with_body(arms[i - 1], arms[i - 1].body));
                assert(same =~= arms);
                let other = arms.update(i - 1, arm_with_body(arms[i - 1], c));
                assert(arm_bodies(other) =~= arm_bodies(arms).update(i - 1, c));
            }
            if !(c is App) {
                assert(float_children(with_float_child(t, i, c)) =~= float_children(t).update(
                    i,
                    c,
                ));
            }
        },
        TermView::Swt { arg, bnd, with, pred, arms } => {
            if i > 0 {
                assert(arms.update(i - 1, arms[i - 1]) =~= arms);
            }
            if !(c is App) {
                assert(float_children(with_float_child(t, i, c)) =~= float_children(t).update(
                    i,
                    c,
                ));
            }
        },
        TermView::Tup { els } => {
            assert(els.update(i, els[i]) =~= els);
        },
        TermView::Sup { tag, els } => {
            assert(els.update(i, els[i]) =~= els);
        },
        TermView::Lst { els } => {
            assert(els.update(i, els[i]) =~= els);
        },
        _ => {
            if !(c is App) {
                assert(float_children(with_float_child(t, i, c)) =~= float_children(t).update(
                    i,
                    c,
                ));
            }
        },
    }
}

proof fn lemma_spine_child_replaced(t: TermView, i: int, c: TermView)
    requires
        0 <= i < spine_children(t).len(),
    ensures
        with_spine_child(t, i, spine_children(t)[i]) == t,
        !(c is App) ==> spine_children(with_spine_child(t, i, c)) == spine_children(t).update(
            i,
            c,
        ),
    decreases t,
{
    match t {
        TermView::App { tag, fun, arg } => {
            if i > 0 {
                lemma_spine_child_replaced(*fun, i - 1, c);
            }
            if !(c is App) {
                assert(spine_children(with_spine_child(t, i, c)) =~= spine_children(t).update(
                    i,
                    c,
                ));
            }
        },
        _ => {
            if !(c is App) {
                assert(spine_children(with_spine_child(t, i, c)) =~= spine_children(t).update(
                    i,
                    c,
                ));
            }
        },
    }
}

} // verus!
