//! What the elaboration of matches establishes: every match of the result
//! is in canonical form.
use vstd::prelude::*;
use crate::term::book::{
    lemma_position, lookup_adt, AdtsView, ConstructorsView, CtrsView, DefinitionView,
};
use crate::term::subst::{subst, subst_arms, subst_cases, subst_terms};
use crate::term::transform::fix_match_terms::{
    arm_ctrs, arms_with_bodies, call, canonical_arms, canonical_fields, covering_arm,
    elaborate_arms, elaborate_match, elaborate_switch, field_vars, first_var_arm, fix,
    fix_arms_bodies, fix_terms, fixed_bodies, fixed_terms, lemma_first_var_arm, match_adt,
    fixed_definitions, pred_name, rebuilt_ctr,
};
use crate::term::{ArmView, Ident, TermView};

verus! {

/// Whether the arms of a match that binds `bnd` are those of the
/// constructors `cs`: as many, in the same order, each naming its
/// constructor and binding each field as `<bnd>.<field>`.
pub open spec fn arms_follow(bnd: Ident, arms: Seq<ArmView>, cs: CtrsView) -> bool {
    &&& arms.len() == cs.len()
    &&& forall|j: int|
        0 <= j < cs.len() ==> (#[trigger] arms[j]).ctr == Some(cs[j].0) && arms[j].fields
            == canonical_fields(bnd, cs[j].1)
}

/// Whether the arms of a match are in canonical form: they are those of the
/// constructors of one of the data types.
pub open spec fn canonical_shape(bnd: Ident, arms: Seq<ArmView>, adts: AdtsView) -> bool {
    exists|a: Ident|
        match #[trigger] lookup_adt(adts, a) {
            Some(cs) => arms_follow(bnd, arms, cs),
            None => false,
        }
}

/// Whether every flag of a list is set.
pub open spec fn all_of(flags: Seq<bool>) -> bool {
    forall|i: int| 0 <= i < flags.len() ==> flags[i]
}

/// Whether every match in a term is in canonical form.
pub open spec fn all_canonical(t: TermView, adts: AdtsView) -> bool
    decreases t, 0nat,
{
    match t {
        TermView::Lam { tag, nam, bod } => all_canonical(*bod, adts),
        TermView::Chn { tag, nam, bod } => all_canonical(*bod, adts),
        TermView::Let { nam, val, nxt } => all_canonical(*val, adts) && all_canonical(*nxt, adts),
        TermView::Use { nam, val, nxt } => all_canonical(*val, adts) && all_canonical(*nxt, adts),
        TermView::App { tag, fun, arg } => all_canonical(*fun, adts) && all_canonical(*arg, adts),
        TermView::Ltp { bnd, val, nxt } => all_canonical(*val, adts) && all_canonical(*nxt, adts),
        TermView::Tup { els } => all_of(canonical_terms(els, adts)),
        TermView::Dup { tag, bnd, val, nxt } => all_canonical(*val, adts) && all_canonical(
            *nxt,
            adts,
        ),
        TermView::Sup { tag, els } => all_of(canonical_terms(els, adts)),
        TermView::Lst { els } => all_of(canonical_terms(els, adts)),
        TermView::Opx { opr, fst, snd } => all_canonical(*fst, adts) && all_canonical(*snd, adts),
        TermView::Mat { arg, bnd, with, arms } => canonical_shape(bnd, arms, adts) && all_canonical(
            *arg,
            adts,
        ) && all_of(canonical_bodies(arms, adts)),
        TermView::Swt { arg, bnd, with, pred, arms } => all_canonical(*arg, adts) && all_of(
            canonical_terms(arms, adts),
        ),
        _ => true,
    }
}

/// For each term of a list, whether every match in it is in canonical
/// form.
pub open spec fn canonical_terms(ts: Seq<TermView>, adts: AdtsView) -> Seq<bool>
    decreases ts, 1nat,
{
    Seq::new(
        ts.len(),
        |i: int|
            if 0 <= i < ts.len() {
                all_canonical(ts[i], adts)
            } else {
                true
            },
    )
}

/// For the body of each arm, whether every match in it is in canonical
/// form.
pub open spec fn canonical_bodies(arms: Seq<ArmView>, adts: AdtsView) -> Seq<bool>
    decreases arms, 1nat,
{
    Seq::new(
        arms.len(),
        |i: int|
            if 0 <= i < arms.len() {
                all_canonical(arms[i].body, adts)
            } else {
                true
            },
    )
}

/// Whether every match in a term has an arm.
pub open spec fn matches_have_arms(t: TermView) -> bool
    decreases t, 0nat,
{
    match t {
        TermView::Lam { tag, nam, bod } => matches_have_arms(*bod),
        TermView::Chn { tag, nam, bod } => matches_have_arms(*bod),
        TermView::Let { nam, val, nxt } => matches_have_arms(*val) && matches_have_arms(*nxt),
        TermView::Use { nam, val, nxt } => matches_have_arms(*val) && matches_have_arms(*nxt),
        TermView::App { tag, fun, arg } => matches_have_arms(*fun) && matches_have_arms(*arg),
        TermView::Ltp { bnd, val, nxt } => matches_have_arms(*val) && matches_have_arms(*nxt),
        TermView::Tup { els } => all_of(terms_have_arms(els)),
        TermView::Dup { tag, bnd, val, nxt } => matches_have_arms(*val) && matches_have_arms(*nxt),
        TermView::Sup { tag, els } => all_of(terms_have_arms(els)),
        TermView::Lst { els } => all_of(terms_have_arms(els)),
        TermView::Opx { opr, fst, snd } => matches_have_arms(*fst) && matches_have_arms(*snd),
        TermView::Mat { arg, bnd, with, arms } => arms.len() > 0 && matches_have_arms(*arg)
            && all_of(bodies_have_arms(arms)),
        TermView::Swt { arg, bnd, with, pred, arms } => matches_have_arms(*arg) && all_of(
            terms_have_arms(arms),
        ),
        _ => true,
    }
}

pub open spec fn terms_have_arms(ts: Seq<TermView>) -> Seq<bool>
    decreases ts, 1nat,
{
    Seq::new(
        ts.len(),
        |i: int|
            if 0 <= i < ts.len() {
                matches_have_arms(ts[i])
            } else {
                true
            },
    )
}

pub open spec fn bodies_have_arms(arms: Seq<ArmView>) -> Seq<bool>
    decreases arms, 1nat,
{
    Seq::new(
        arms.len(),
        |i: int|
            if 0 <= i < arms.len() {
                matches_have_arms(arms[i].body)
            } else {
                true
            },
    )
}

/// A substitution keeps every match in canonical form, where the term that
/// is put in holds only such matches.
pub proof fn lemma_subst_canonical(t: TermView, from: Ident, to: TermView, adts: AdtsView)
    requires
        all_canonical(t, adts),
        all_canonical(to, adts),
    ensures
        all_canonical(subst(t, from, to), adts),
    decreases t, 0nat,
{
    match t {
        TermView::Lam { tag, nam, bod } => {
            lemma_subst_canonical(*bod, from, to, adts);
        },
        TermView::Chn { tag, nam, bod } => {
            lemma_subst_canonical(*bod, from, to, adts);
        },
        TermView::Let { nam, val, nxt } => {
            lemma_subst_canonical(*val, from, to, adts);
            lemma_subst_canonical(*nxt, from, to, adts);
        },
        TermView::Use { nam, val, nxt } => {
            lemma_subst_canonical(*val, from, to, adts);
            lemma_subst_canonical(*nxt, from, to, adts);
        },
        TermView::App { tag, fun, arg } => {
            lemma_subst_canonical(*fun, from, to, adts);
            lemma_subst_canonical(*arg, from, to, adts);
        },
        TermView::Ltp { bnd, val, nxt } => {
            lemma_subst_canonical(*val, from, to, adts);
            lemma_subst_canonical(*nxt, from, to, adts);
        },
        TermView::Tup { els } => {
            lemma_subst_terms_canonical(els, from, to, adts);
        },
        TermView::Dup { tag, bnd, val, nxt } => {
            lemma_subst_canonical(*val, from, to, adts);
            lemma_subst_canonical(*nxt, from, to, adts);
        },
        TermView::Sup { tag, els } => {
            lemma_subst_terms_canonical(els, from, to, adts);
        },
        TermView::Lst { els } => {
            lemma_subst_terms_canonical(els, from, to, adts);
        },
        TermView::Opx { opr, fst, snd } => {
            lemma_subst_canonical(*fst, from, to, adts);
            lemma_subst_canonical(*snd, from, to, adts);
        },
        TermView::Mat { arg, bnd, with, arms } => {
            lemma_subst_canonical(*arg, from, to, adts);
            let after = subst_arms(arms, from, to);
            assert forall|i: int| 0 <= i < after.len() implies canonical_bodies(after, adts)[i] by {
                assert(canonical_bodies(arms, adts)[i]);
                if !arms[i].fields.contains(Some(from)) {
                    lemma_subst_canonical(arms[i].body, from, to, adts);
                }
            }
            let a = choose|a: Ident|
                match #[trigger] lookup_adt(adts, a) {
                    Some(cs) => arms_follow(bnd, arms, cs),
                    None => false,
                };
            let cs = lookup_adt(adts, a)->0;
            assert forall|j: int| 0 <= j < cs.len() implies (#[trigger] after[j]).ctr == Some(
                cs[j].0,
            ) && after[j].fields == canonical_fields(bnd, cs[j].1) by {
                assert(arms[j].ctr == Some(cs[j].0));
            }
            assert(arms_follow(bnd, after, cs));
            assert(canonical_shape(bnd, after, adts));
            assert(all_of(canonical_bodies(after, adts)));
            assert(all_canonical(subst(*arg, from, to), adts));
            assert(subst(t, from, to) == TermView::Mat {
                arg: Box::new(subst(*arg, from, to)),
                bnd,
                with,
                arms: after,
            });
        },
        TermView::Swt { arg, bnd, with, pred, arms } => {
            lemma_subst_canonical(*arg, from, to, adts);
            let after = subst_cases(arms, pred, from, to);
            assert forall|i: int| 0 <= i < after.len() implies canonical_terms(after, adts)[i] by {
                assert(canonical_terms(arms, adts)[i]);
                if !(i == arms.len() - 1 && pred == Some(from)) {
                    lemma_subst_canonical(arms[i], from, to, adts);
                }
            }
            assert(all_of(canonical_terms(after, adts)));
            assert(subst(t, from, to) == TermView::Swt {
                arg: Box::new(subst(*arg, from, to)),
                bnd,
                with,
                pred,
                arms: after,
            });
        },
        _ => {},
    }
}

proof fn lemma_subst_terms_canonical(ts: Seq<TermView>, from: Ident, to: TermView, adts: AdtsView)
    requires
        all_of(canonical_terms(ts, adts)),
        all_canonical(to, adts),
    ensures
        all_of(canonical_terms(subst_terms(ts, from, to), adts)),
    decreases ts, 1nat,
{
    let after = subst_terms(ts, from, to);
    assert forall|i: int| 0 <= i < after.len() implies canonical_terms(after, adts)[i] by {
        assert(canonical_terms(ts, adts)[i]);
        lemma_subst_canonical(ts[i], from, to, adts);
    }
}

/// An application of a term without matches to variables holds no match.
proof fn lemma_call_canonical(fun: TermView, args: Seq<TermView>, adts: AdtsView)
    requires
        all_canonical(fun, adts),
        forall|i: int| 0 <= i < args.len() ==> #[trigger] args[i] is Var,
    ensures
        all_canonical(call(fun, args), adts),
    decreases args.len(),
{
    if args.len() > 0 {
        lemma_call_canonical(fun, args.drop_last(), adts);
        assert(args[args.len() - 1] is Var);
        assert(all_canonical(args.last(), adts));
    }
}

/// The elaboration of the arms of a match gives a term whose matches are
/// all in canonical form, where those of the argument and of the bodies
/// are.
proof fn lemma_elaborate_arms_canonical(
    arg: TermView,
    bnd: Ident,
    with: Seq<Ident>,
    arms: Seq<ArmView>,
    ctrs: ConstructorsView,
    adts: AdtsView,
)
    requires
        arms.len() > 0,
        all_canonical(arg, adts),
        all_of(canonical_bodies(arms, adts)),
    ensures
        all_canonical(elaborate_arms(arg, bnd, with, arms, ctrs, adts).term, adts),
{
    match match_adt(arms, ctrs, adts) {
        Some((a, cs)) => {
            let bodies = fixed_bodies(bnd, arms, ctrs, a, cs);
            let fixed = canonical_arms(bnd, cs, bodies);
            lemma_first_var_arm(arms, ctrs);
            let w = first_var_arm(arms, ctrs);
            assert forall|j: int| 0 <= j < fixed.len() implies canonical_bodies(fixed, adts)[j] by {
                match covering_arm(arms, ctrs, a, cs[j].0) {
                    Some(i) => {
                        lemma_position(
                            arm_ctrs(arms).take(w),
                            Some(cs[j].0),
                        );
                        assert(canonical_bodies(arms, adts)[i]);
                    },
                    None => {
                        if w < arms.len() {
                            assert(canonical_bodies(arms, adts)[w]);
                            match arms[w].ctr {
                                Some(v) => {
                                    lemma_call_canonical(
                                        TermView::Ref { nam: cs[j].0 },
                                        field_vars(bnd, cs[j].1),
                                        adts,
                                    );
                                    lemma_subst_canonical(
                                        arms[w].body,
                                        v,
                                        rebuilt_ctr(bnd, cs[j].0, cs[j].1),
                                        adts,
                                    );
                                },
                                None => {},
                            }
                        }
                    },
                }
            }
            assert(arms_follow(bnd, fixed, cs));
            assert(lookup_adt(adts, a) == Some(cs));
            assert(canonical_shape(bnd, fixed, adts));
            assert(all_of(canonical_bodies(fixed, adts)));
            assert(all_canonical(
                TermView::Mat { arg: Box::new(arg), bnd, with, arms: fixed },
                adts,
            ));
        },
        None => {
            assert(canonical_bodies(arms, adts)[0]);
            assert(all_canonical(arms[0].body, adts));
            match arms[0].ctr {
                Some(v) => {
                    assert(all_canonical(TermView::Var { nam: bnd }, adts));
                    lemma_subst_canonical(arms[0].body, v, TermView::Var { nam: bnd }, adts);
                },
                None => {},
            }
        },
    }
}

/// The elaboration of one match gives a term whose matches are all in
/// canonical form, where those of the argument and of the bodies are.
proof fn lemma_elaborate_match_canonical(
    arg: TermView,
    bnd: Ident,
    with: Seq<Ident>,
    arms: Seq<ArmView>,
    ctrs: ConstructorsView,
    adts: AdtsView,
)
    requires
        arms.len() > 0,
        all_canonical(arg, adts),
        all_of(canonical_bodies(arms, adts)),
    ensures
        all_canonical(
            elaborate_match(TermView::Mat { arg: Box::new(arg), bnd, with, arms }, ctrs, adts).term,
            adts,
        ),
{
    if arg is Var {
        lemma_elaborate_arms_canonical(arg, bnd, with, arms, ctrs, adts);
    } else {
        let var = TermView::Var { nam: bnd };
        lemma_elaborate_arms_canonical(var, bnd, with, arms, ctrs, adts);
        let inner = elaborate_arms(var, bnd, with, arms, ctrs, adts).term;
        assert(all_canonical(
            TermView::Let { nam: Some(bnd), val: Box::new(arg), nxt: Box::new(inner) },
            adts,
        ));
    }
}

/// The elaboration of one switch gives a term whose matches are all in
/// canonical form, where those of the argument and of the arms are.
proof fn lemma_elaborate_switch_canonical(
    arg: TermView,
    bnd: Ident,
    with: Seq<Ident>,
    pred: Option<Ident>,
    arms: Seq<TermView>,
    adts: AdtsView,
)
    requires
        all_canonical(arg, adts),
        all_of(canonical_terms(arms, adts)),
    ensures
        all_canonical(
            elaborate_switch(TermView::Swt { arg: Box::new(arg), bnd, with, pred, arms }),
            adts,
        ),
{
    if arms.len() > 0 {
        let named = Some(pred_name(
            bnd,
            (arms.len() - 1) as nat,
        ));
        if arg is Var {
            assert(all_canonical(
                TermView::Swt { arg: Box::new(arg), bnd, with, pred: named, arms },
                adts,
            ));
        } else {
            let var = TermView::Var { nam: bnd };
            let inner = TermView::Swt { arg: Box::new(var), bnd, with, pred: named, arms };
            assert(all_canonical(var, adts));
            assert(all_canonical(inner, adts));
            assert(all_canonical(
                TermView::Let { nam: Some(bnd), val: Box::new(arg), nxt: Box::new(inner) },
                adts,
            ));
        }
    }
}

/// Match canonical form. After the elaboration of a term in which every
/// match has an arm, every match has the arms of the constructors of a
/// data type: as many arms as the type has constructors, in the order of
/// the type's declaration, each naming its constructor and binding each
/// field as `<bind>.<field>`.
pub proof fn lemma_fix_canonical(t: TermView, ctrs: ConstructorsView, adts: AdtsView)
    requires
        matches_have_arms(t),
    ensures
        all_canonical(fix(t, ctrs, adts).term, adts),
    decreases t, 0nat,
{
    match t {
        TermView::Lam { tag, nam, bod } => {
            lemma_fix_canonical(*bod, ctrs, adts);
        },
        TermView::Chn { tag, nam, bod } => {
            lemma_fix_canonical(*bod, ctrs, adts);
        },
        TermView::Let { nam, val, nxt } => {
            lemma_fix_canonical(*val, ctrs, adts);
            lemma_fix_canonical(*nxt, ctrs, adts);
        },
        TermView::Use { nam, val, nxt } => {
            lemma_fix_canonical(*val, ctrs, adts);
            lemma_fix_canonical(*nxt, ctrs, adts);
        },
        TermView::App { tag, fun, arg } => {
            lemma_fix_canonical(*fun, ctrs, adts);
            lemma_fix_canonical(*arg, ctrs, adts);
        },
        TermView::Ltp { bnd, val, nxt } => {
            lemma_fix_canonical(*val, ctrs, adts);
            lemma_fix_canonical(*nxt, ctrs, adts);
        },
        TermView::Tup { els } => {
            lemma_fix_terms_canonical(els, ctrs, adts);
        },
        TermView::Dup { tag, bnd, val, nxt } => {
            lemma_fix_canonical(*val, ctrs, adts);
            lemma_fix_canonical(*nxt, ctrs, adts);
        },
        TermView::Sup { tag, els } => {
            lemma_fix_terms_canonical(els, ctrs, adts);
        },
        TermView::Lst { els } => {
            lemma_fix_terms_canonical(els, ctrs, adts);
        },
        TermView::Opx { opr, fst, snd } => {
            lemma_fix_canonical(*fst, ctrs, adts);
            lemma_fix_canonical(*snd, ctrs, adts);
        },
        TermView::Mat { arg, bnd, with, arms } => {
            lemma_fix_canonical(*arg, ctrs, adts);
            let parts = fix_arms_bodies(arms, ctrs, adts);
            let inner = arms_with_bodies(arms, parts);
            assert forall|i: int| 0 <= i < inner.len() implies canonical_bodies(inner, adts)[i] by {
                assert(bodies_have_arms(arms)[i]);
                lemma_fix_canonical(arms[i].body, ctrs, adts);
            }
            lemma_elaborate_match_canonical(
                fix(*arg, ctrs, adts).term,
                bnd,
                with,
                inner,
                ctrs,
                adts,
            );
        },
        TermView::Swt { arg, bnd, with, pred, arms } => {
            lemma_fix_canonical(*arg, ctrs, adts);
            lemma_fix_terms_canonical(arms, ctrs, adts);
            lemma_elaborate_switch_canonical(
                fix(*arg, ctrs, adts).term,
                bnd,
                with,
                pred,
                fixed_terms(fix_terms(arms, ctrs, adts)),
                adts,
            );
        },
        _ => {},
    }
}

proof fn lemma_fix_terms_canonical(ts: Seq<TermView>, ctrs: ConstructorsView, adts: AdtsView)
    requires
        all_of(terms_have_arms(ts)),
    ensures
        all_of(canonical_terms(fixed_terms(fix_terms(ts, ctrs, adts)), adts)),
    decreases ts, 1nat,
{
    let after = fixed_terms(fix_terms(ts, ctrs, adts));
    assert forall|i: int| 0 <= i < after.len() implies canonical_terms(after, adts)[i] by {
        assert(terms_have_arms(ts)[i]);
        lemma_fix_canonical(ts[i], ctrs, adts);
    }
}

/// Match canonical form, for a book. After the elaboration of the
/// definitions of a book in whose rules every match has an arm, every match
/// in every rule is in canonical form.
pub proof fn lemma_fixed_definitions_canonical(
    defs: Seq<DefinitionView>,
    ctrs: ConstructorsView,
    adts: AdtsView,
)
    requires
        forall|i: int, j: int|
            0 <= i < defs.len() && 0 <= j < defs[i].rules.len() ==> matches_have_arms(
                #[trigger] defs[i].rules[j].body,
            ),
    ensures
        fixed_definitions(defs, ctrs, adts).len() == defs.len(),
        forall|i: int, j: int|
            0 <= i < defs.len() && 0 <= j < defs[i].rules.len() ==> all_canonical(
                #[trigger] fixed_definitions(defs, ctrs, adts)[i].rules[j].body,
                adts,
            ),
{
    assert forall|i: int, j: int|
        0 <= i < defs.len() && 0 <= j < defs[i].rules.len() implies all_canonical(
        #[trigger] fixed_definitions(defs, ctrs, adts)[i].rules[j].body,
        adts,
    ) by {
        assert(matches_have_arms(defs[i].rules[j].body));
        lemma_fix_canonical(defs[i].rules[j].body, ctrs, adts);
    }
}

} // verus!
