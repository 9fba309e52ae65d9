//! What the floating of combinators preserves: with each combinator put
//! back in place of the reference to it, a floated term is the term that it
//! was before. What is moved out is a combinator that is not safe.
use vstd::prelude::*;
use crate::term::book::{DefinitionView, RuleView};
use crate::term::subst::arm_with_body;
use crate::term::text::{decimal, lemma_decimal_injective};
use crate::term::transform::float_combinators::{
    comb_definition, comb_name, combinator, floated_arms, floated_child, floated_spine,
    floated_defs, floated_rules, floated_term, floated_terms, is_entrypoint, safety, FloatEnv,
    FloatState, Floated,
};
use crate::term::{ArmView, Ident, TermView};

verus! {

/// Whether a term holds a reference to the definition `name`.
pub open spec fn mentions(t: TermView, name: Ident) -> bool
    decreases t, 0nat,
{
    match t {
        TermView::Ref { nam } => nam == name,
        TermView::Lam { tag, nam, bod } => mentions(*bod, name),
        TermView::Chn { tag, nam, bod } => mentions(*bod, name),
        TermView::Let { nam, val, nxt } => mentions(*val, name) || mentions(*nxt, name),
        TermView::Use { nam, val, nxt } => mentions(*val, name) || mentions(*nxt, name),
        TermView::App { tag, fun, arg } => mentions(*fun, name) || mentions(*arg, name),
        TermView::Ltp { bnd, val, nxt } => mentions(*val, name) || mentions(*nxt, name),
        TermView::Tup { els } => mentions_in_terms(els, name).contains(true),
        TermView::Dup { tag, bnd, val, nxt } => mentions(*val, name) || mentions(*nxt, name),
        TermView::Sup { tag, els } => mentions_in_terms(els, name).contains(true),
        TermView::Lst { els } => mentions_in_terms(els, name).contains(true),
        TermView::Opx { opr, fst, snd } => mentions(*fst, name) || mentions(*snd, name),
        TermView::Mat { arg, bnd, with, arms } => mentions(*arg, name) || mentions_in_bodies(
            arms,
            name,
        ).contains(true),
        TermView::Swt { arg, bnd, with, pred, arms } => mentions(*arg, name) || mentions_in_terms(
            arms,
            name,
        ).contains(true),
        _ => false,
    }
}

/// For each term of a list, whether it holds a reference to the
/// definition.
pub open spec fn mentions_in_terms(ts: Seq<TermView>, name: Ident) -> Seq<bool>
    decreases ts, 1nat,
{
    Seq::new(
        ts.len(),
        |i: int|
            if 0 <= i < ts.len() {
                mentions(ts[i], name)
            } else {
                false
            },
    )
}

/// For the body of each arm, whether it holds a reference to the
/// definition.
pub open spec fn mentions_in_bodies(arms: Seq<ArmView>, name: Ident) -> Seq<bool>
    decreases arms, 1nat,
{
    Seq::new(
        arms.len(),
        |i: int|
            if 0 <= i < arms.len() {
                mentions(arms[i].body, name)
            } else {
                false
            },
    )
}

/// The number below `hi` of the combinator of the definition `d` that has
/// the name `nam`, if there is one.
pub open spec fn comb_number(nam: Ident, d: Ident, hi: int) -> Option<int>
    decreases hi,
{
    if hi <= 0 {
        None
    } else if nam == comb_name(d, (hi - 1) as nat) {
        Some(hi - 1)
    } else {
        comb_number(nam, d, hi - 1)
    }
}

/// The body of a combinator: that of its one rule.
pub open spec fn comb_body(c: DefinitionView) -> TermView {
    if c.rules.len() > 0 {
        c.rules[0].body
    } else {
        TermView::Error
    }
}

/// The term with each combinator put back in place of the reference to it.
///
/// The combinators are those of the definition `d` with a number below
/// `hi`; the combinator with the number `k` is the definition at the
/// position `off + k` of `combs`. What is put back in place of a reference
/// to the combinator `k` is its body, with the combinators below `k` put
/// back in it.
pub open spec fn inlined(
    t: TermView,
    combs: Seq<DefinitionView>,
    off: int,
    d: Ident,
    hi: int,
) -> TermView
    decreases hi, t, 0nat,
{
    match t {
        TermView::Ref { nam } => match comb_number(nam, d, hi) {
            Some(k) => if 0 <= k < hi && 0 <= off + k < combs.len() {
                inlined(comb_body(combs[off + k]), combs, off, d, k)
            } else {
                t
            },
            None => t,
        },
        TermView::Lam { tag, nam, bod } => TermView::Lam {
            tag,
            nam,
            bod: Box::new(inlined(*bod, combs, off, d, hi)),
        },
        TermView::Chn { tag, nam, bod } => TermView::Chn {
            tag,
            nam,
            bod: Box::new(inlined(*bod, combs, off, d, hi)),
        },
        TermView::Let { nam, val, nxt } => TermView::Let {
            nam,
            val: Box::new(inlined(*val, combs, off, d, hi)),
            nxt: Box::new(inlined(*nxt, combs, off, d, hi)),
        },
        TermView::Use { nam, val, nxt } => TermView::Use {
            nam,
            val: Box::new(inlined(*val, combs, off, d, hi)),
            nxt: Box::new(inlined(*nxt, combs, off, d, hi)),
        },
        TermView::App { tag, fun, arg } => TermView::App {
            tag,
            fun: Box::new(inlined(*fun, combs, off, d, hi)),
            arg: Box::new(inlined(*arg, combs, off, d, hi)),
        },
        TermView::Ltp { bnd, val, nxt } => TermView::Ltp {
            bnd,
            val: Box::new(inlined(*val, combs, off, d, hi)),
            nxt: Box::new(inlined(*nxt, combs, off, d, hi)),
        },
        TermView::Tup { els } => TermView::Tup { els: inlined_terms(els, combs, off, d, hi) },
        TermView::Dup { tag, bnd, val, nxt } => TermView::Dup {
            tag,
            bnd,
            val: Box::new(inlined(*val, combs, off, d, hi)),
            nxt: Box::new(inlined(*nxt, combs, off, d, hi)),
        },
        TermView::Sup { tag, els } => TermView::Sup {
            tag,
            els: inlined_terms(els, combs, off, d, hi),
        },
        TermView::Lst { els } => TermView::Lst { els: inlined_terms(els, combs, off, d, hi) },
        TermView::Opx { opr, fst, snd } => TermView::Opx {
            opr,
            fst: Box::new(inlined(*fst, combs, off, d, hi)),
            snd: Box::new(inlined(*snd, combs, off, d, hi)),
        },
        TermView::Mat { arg, bnd, with, arms } => TermView::Mat {
            arg: Box::new(inlined(*arg, combs, off, d, hi)),
            bnd,
            with,
            arms: inlined_arms(arms, combs, off, d, hi),
        },
        TermView::Swt { arg, bnd, with, pred, arms } => TermView::Swt {
            arg: Box::new(inlined(*arg, combs, off, d, hi)),
            bnd,
            with,
            pred,
            arms: inlined_terms(arms, combs, off, d, hi),
        },
        _ => t,
    }
}

pub open spec fn inlined_terms(
    ts: Seq<TermView>,
    combs: Seq<DefinitionView>,
    off: int,
    d: Ident,
    hi: int,
) -> Seq<TermView>
    decreases hi, ts, 1nat,
{
    Seq::new(
        ts.len(),
        |i: int|
            if 0 <= i < ts.len() {
                inlined(ts[i], combs, off, d, hi)
            } else {
                TermView::Error
            },
    )
}

pub open spec fn inlined_arms(
    arms: Seq<ArmView>,
    combs: Seq<DefinitionView>,
    off: int,
    d: Ident,
    hi: int,
) -> Seq<ArmView>
    decreases hi, arms, 1nat,
{
    Seq::new(
        arms.len(),
        |i: int|
            if 0 <= i < arms.len() {
                arm_with_body(arms[i], inlined(arms[i].body, combs, off, d, hi))
            } else {
                ArmView { ctr: None, fields: Seq::empty(), body: TermView::Error }
            },
    )
}

/// Two combinators of a definition with the same name have the same
/// number.
pub proof fn lemma_comb_name_injective(d: Ident, a: nat, b: nat)
    requires
        comb_name(d, a) == comb_name(d, b),
    ensures
        a == b,
{
    let prefix = d + seq!['$', 'C'];
    let x = comb_name(d, a);
    let y = comb_name(d, b);
    assert(x == prefix + decimal(a));
    assert(y == prefix + decimal(b));
    assert(x.subrange(prefix.len() as int, x.len() as int) =~= decimal(a));
    assert(y.subrange(prefix.len() as int, y.len() as int) =~= decimal(b));
    lemma_decimal_injective(a, b);
}

/// `comb_number` finds the number of the name, if one below `hi` has it.
pub proof fn lemma_comb_number(nam: Ident, d: Ident, hi: int)
    ensures
        match comb_number(nam, d, hi) {
            Some(k) => 0 <= k < hi && nam == comb_name(d, k as nat),
            None => forall|k: nat| k < hi ==> nam != #[trigger] comb_name(d, k),
        },
    decreases hi,
{
    if hi > 0 {
        lemma_comb_number(nam, d, hi - 1);
        if nam != comb_name(d, (hi - 1) as nat) {
            match comb_number(nam, d, hi - 1) {
                Some(k) => {},
                None => {
                    assert forall|k: nat| k < hi implies nam != #[trigger] comb_name(d, k) by {
                        if k == hi - 1 {
                        } else {
                            assert(k < hi - 1);
                        }
                    }
                },
            }
        }
    }
}

/// The number of a combinator's own name is found.
pub proof fn lemma_comb_number_of(d: Ident, k: nat, hi: int)
    requires
        k < hi,
    ensures
        comb_number(comb_name(d, k), d, hi) == Some(k as int),
{
    lemma_comb_number(comb_name(d, k), d, hi);
    match comb_number(comb_name(d, k), d, hi) {
        Some(j) => {
            lemma_comb_name_injective(d, k, j as nat);
        },
        None => {},
    }
}

/// Whether a term holds references to no combinators of the definition `d`
/// but those with a number from `lo` up to `hi`.
pub open spec fn mentions_within(t: TermView, d: Ident, lo: int, hi: int) -> bool {
    forall|j: nat| mentions(t, #[trigger] comb_name(d, j)) ==> lo <= j < hi
}

/// Whether a term holds no reference to a combinator of the definition
/// `d`.
pub open spec fn mentions_none(t: TermView, d: Ident) -> bool {
    forall|j: nat| !mentions(t, #[trigger] comb_name(d, j))
}

/// Whether a term holds references to no combinators of the definition `d`
/// but those with a number below `hi`.
pub open spec fn mentions_below(t: TermView, d: Ident, hi: int) -> bool {
    forall|j: nat| mentions(t, #[trigger] comb_name(d, j)) ==> j < hi
}

/// Putting back more combinators changes nothing where the term holds no
/// reference to them.
pub proof fn lemma_inlined_extend(
    t: TermView,
    combs: Seq<DefinitionView>,
    off: int,
    d: Ident,
    hi: int,
    hi2: int,
)
    requires
        hi <= hi2,
        mentions_below(t, d, hi),
    ensures
        inlined(t, combs, off, d, hi2) == inlined(t, combs, off, d, hi),
    decreases t, 0nat,
{
    match t {
        TermView::Ref { nam } => {
            lemma_comb_number(nam, d, hi);
            lemma_comb_number(nam, d, hi2);
            match comb_number(nam, d, hi2) {
                Some(k) => {
                    assert(mentions(t, comb_name(d, k as nat)));
                    assert(k < hi);
                    lemma_comb_number_of(d, k as nat, hi);
                },
                None => {
                    match comb_number(nam, d, hi) {
                        Some(k) => {
                            assert(nam == comb_name(d, k as nat));
                        },
                        None => {},
                    }
                },
            }
        },
        TermView::Lam { tag, nam, bod } => {
            assert forall|j: nat| mentions(*bod, #[trigger] comb_name(d, j)) implies j < hi by {
                assert(mentions(t, comb_name(d, j)));
            }
            lemma_inlined_extend(*bod, combs, off, d, hi, hi2);
        },
        TermView::Chn { tag, nam, bod } => {
            assert forall|j: nat| mentions(*bod, #[trigger] comb_name(d, j)) implies j < hi by {
                assert(mentions(t, comb_name(d, j)));
            }
            lemma_inlined_extend(*bod, combs, off, d, hi, hi2);
        },
        TermView::Let { nam, val, nxt } => {
            assert forall|j: nat| mentions(*val, #[trigger] comb_name(d, j)) implies j < hi by {
                assert(mentions(t, comb_name(d, j)));
            }
            assert forall|j: nat| mentions(*nxt, #[trigger] comb_name(d, j)) implies j < hi by {
                assert(mentions(t, comb_name(d, j)));
            }
            lemma_inlined_extend(*val, combs, off, d, hi, hi2);
            lemma_inlined_extend(*nxt, combs, off, d, hi, hi2);
        },
        TermView::Use { nam, val, nxt } => {
            assert forall|j: nat| mentions(*val, #[trigger] comb_name(d, j)) implies j < hi by {
                assert(mentions(t, comb_name(d, j)));
            }
            assert forall|j: nat| mentions(*nxt, #[trigger] comb_name(d, j)) implies j < hi by {
                assert(mentions(t, comb_name(d, j)));
            }
            lemma_inlined_extend(*val, combs, off, d, hi, hi2);
            lemma_inlined_extend(*nxt, combs, off, d, hi, hi2);
        },
        TermView::App { tag, fun, arg } => {
            assert forall|j: nat| mentions(*fun, #[trigger] comb_name(d, j)) implies j < hi by {
                assert(mentions(t, comb_name(d, j)));
            }
            assert forall|j: nat| mentions(*arg, #[trigger] comb_name(d, j)) implies j < hi by {
                assert(mentions(t, comb_name(d, j)));
            }
            lemma_inlined_extend(*fun, combs, off, d, hi, hi2);
            lemma_inlined_extend(*arg, combs, off, d, hi, hi2);
        },
        TermView::Ltp { bnd, val, nxt } => {
            assert forall|j: nat| mentions(*val, #[trigger] comb_name(d, j)) implies j < hi by {
                assert(mentions(t, comb_name(d, j)));
            }
            assert forall|j: nat| mentions(*nxt, #[trigger] comb_name(d, j)) implies j < hi by {
                assert(mentions(t, comb_name(d, j)));
            }
            lemma_inlined_extend(*val, combs, off, d, hi, hi2);
            lemma_inlined_extend(*nxt, combs, off, d, hi, hi2);
        },
        TermView::Tup { els } => {
            assert forall|i: int| 0 <= i < els.len() implies mentions_below(
                #[trigger] els[i],
                d,
                hi,
            ) by {
                assert forall|j: nat| mentions(els[i], #[trigger] comb_name(d, j)) implies j
                    < hi by {
                    assert(mentions_in_terms(els, comb_name(d, j))[i]);
                    assert(mentions(t, comb_name(d, j)));
                }
            }
            lemma_inlined_terms_extend(els, combs, off, d, hi, hi2);
        },
        TermView::Dup { tag, bnd, val, nxt } => {
            assert forall|j: nat| mentions(*val, #[trigger] comb_name(d, j)) implies j < hi by {
                assert(mentions(t, comb_name(d, j)));
            }
            assert forall|j: nat| mentions(*nxt, #[trigger] comb_name(d, j)) implies j < hi by {
                assert(mentions(t, comb_name(d, j)));
            }
            lemma_inlined_extend(*val, combs, off, d, hi, hi2);
            lemma_inlined_extend(*nxt, combs, off, d, hi, hi2);
        },
        TermView::Sup { tag, els } => {
            assert forall|i: int| 0 <= i < els.len() implies mentions_below(
                #[trigger] els[i],
                d,
                hi,
            ) by {
                assert forall|j: nat| mentions(els[i], #[trigger] comb_name(d, j)) implies j
                    < hi by {
                    assert(mentions_in_terms(els, comb_name(d, j))[i]);
                    assert(mentions(t, comb_name(d, j)));
                }
            }
            lemma_inlined_terms_extend(els, combs, off, d, hi, hi2);
        },
        TermView::Lst { els } => {
            assert forall|i: int| 0 <= i < els.len() implies mentions_below(
                #[trigger] els[i],
                d,
                hi,
            ) by {
                assert forall|j: nat| mentions(els[i], #[trigger] comb_name(d, j)) implies j
                    < hi by {
                    assert(mentions_in_terms(els, comb_name(d, j))[i]);
                    assert(mentions(t, comb_name(d, j)));
                }
            }
            lemma_inlined_terms_extend(els, combs, off, d, hi, hi2);
        },
        TermView::Opx { opr, fst, snd } => {
            assert forall|j: nat| mentions(*fst, #[trigger] comb_name(d, j)) implies j < hi by {
                assert(mentions(t, comb_name(d, j)));
            }
            assert forall|j: nat| mentions(*snd, #[trigger] comb_name(d, j)) implies j < hi by {
                assert(mentions(t, comb_name(d, j)));
            }
            lemma_inlined_extend(*fst, combs, off, d, hi, hi2);
            lemma_inlined_extend(*snd, combs, off, d, hi, hi2);
        },
        TermView::Mat { arg, bnd, with, arms } => {
            assert forall|j: nat| mentions(*arg, #[trigger] comb_name(d, j)) implies j < hi by {
                assert(mentions(t, comb_name(d, j)));
            }
            lemma_inlined_extend(*arg, combs, off, d, hi, hi2);
            assert forall|i: int| 0 <= i < arms.len() implies mentions_below(
                (#[trigger] arms[i]).body,
                d,
                hi,
            ) by {
                assert forall|j: nat| mentions(arms[i].body, #[trigger] comb_name(d, j)) implies j
                    < hi by {
                    assert(mentions_in_bodies(arms, comb_name(d, j))[i]);
                    assert(mentions(t, comb_name(d, j)));
                }
            }
            lemma_inlined_arms_extend(arms, combs, off, d, hi, hi2);
        },
        TermView::Swt { arg, bnd, with, pred, arms } => {
            assert forall|j: nat| mentions(*arg, #[trigger] comb_name(d, j)) implies j < hi by {
                assert(mentions(t, comb_name(d, j)));
            }
            lemma_inlined_extend(*arg, combs, off, d, hi, hi2);
            assert forall|i: int| 0 <= i < arms.len() implies mentions_below(
                #[trigger] arms[i],
                d,
                hi,
            ) by {
                assert forall|j: nat| mentions(arms[i], #[trigger] comb_name(d, j)) implies j
                    < hi by {
                    assert(mentions_in_terms(arms, comb_name(d, j))[i]);
                    assert(mentions(t, comb_name(d, j)));
                }
            }
            lemma_inlined_terms_extend(arms, combs, off, d, hi, hi2);
        },
        _ => {},
    }
}

pub proof fn lemma_inlined_terms_extend(
    ts: Seq<TermView>,
    combs: Seq<DefinitionView>,
    off: int,
    d: Ident,
    hi: int,
    hi2: int,
)
    requires
        hi <= hi2,
        forall|i: int| 0 <= i < ts.len() ==> mentions_below(#[trigger] ts[i], d, hi),
    ensures
        inlined_terms(ts, combs, off, d, hi2) == inlined_terms(ts, combs, off, d, hi),
    decreases ts, 1nat,
{
    assert forall|i: int| 0 <= i < ts.len() implies inlined(ts[i], combs, off, d, hi2) == inlined(
        ts[i],
        combs,
        off,
        d,
        hi,
    ) by {
        lemma_inlined_extend(ts[i], combs, off, d, hi, hi2);
    }
    assert(inlined_terms(ts, combs, off, d, hi2) =~= inlined_terms(ts, combs, off, d, hi));
}

pub proof fn lemma_inlined_arms_extend(
    arms: Seq<ArmView>,
    combs: Seq<DefinitionView>,
    off: int,
    d: Ident,
    hi: int,
    hi2: int,
)
    requires
        hi <= hi2,
        forall|i: int| 0 <= i < arms.len() ==> mentions_below((#[trigger] arms[i]).body, d, hi),
    ensures
        inlined_arms(arms, combs, off, d, hi2) == inlined_arms(arms, combs, off, d, hi),
    decreases arms, 1nat,
{
    assert forall|i: int| 0 <= i < arms.len() implies inlined(arms[i].body, combs, off, d, hi2)
        == inlined(arms[i].body, combs, off, d, hi) by {
        lemma_inlined_extend(arms[i].body, combs, off, d, hi, hi2);
    }
    assert(inlined_arms(arms, combs, off, d, hi2) =~= inlined_arms(arms, combs, off, d, hi));
}

/// A term that holds no reference to a combinator is left as it is.
pub proof fn lemma_inlined_none(
    t: TermView,
    combs: Seq<DefinitionView>,
    off: int,
    d: Ident,
    hi: int,
)
    requires
        0 <= hi,
        mentions_none(t, d),
    ensures
        inlined(t, combs, off, d, hi) == t,
        inlined(t, combs, off, d, 0) == t,
    decreases t, 0nat,
{
    assert(mentions_below(t, d, 0));
    lemma_inlined_extend(t, combs, off, d, 0, hi);
    lemma_inlined_zero(t, combs, off, d);
}

/// Putting back no combinators leaves a term as it is.
pub proof fn lemma_inlined_zero(t: TermView, combs: Seq<DefinitionView>, off: int, d: Ident)
    ensures
        inlined(t, combs, off, d, 0) == t,
    decreases t, 0nat,
{
    match t {
        TermView::Lam { tag, nam, bod } => {
            lemma_inlined_zero(*bod, combs, off, d);
        },
        TermView::Chn { tag, nam, bod } => {
            lemma_inlined_zero(*bod, combs, off, d);
        },
        TermView::Let { nam, val, nxt } => {
            lemma_inlined_zero(*val, combs, off, d);
            lemma_inlined_zero(*nxt, combs, off, d);
        },
        TermView::Use { nam, val, nxt } => {
            lemma_inlined_zero(*val, combs, off, d);
            lemma_inlined_zero(*nxt, combs, off, d);
        },
        TermView::App { tag, fun, arg } => {
            lemma_inlined_zero(*fun, combs, off, d);
            lemma_inlined_zero(*arg, combs, off, d);
        },
        TermView::Ltp { bnd, val, nxt } => {
            lemma_inlined_zero(*val, combs, off, d);
            lemma_inlined_zero(*nxt, combs, off, d);
        },
        TermView::Tup { els } => {
            lemma_inlined_terms_zero(els, combs, off, d);
        },
        TermView::Dup { tag, bnd, val, nxt } => {
            lemma_inlined_zero(*val, combs, off, d);
            lemma_inlined_zero(*nxt, combs, off, d);
        },
        TermView::Sup { tag, els } => {
            lemma_inlined_terms_zero(els, combs, off, d);
        },
        TermView::Lst { els } => {
            lemma_inlined_terms_zero(els, combs, off, d);
        },
        TermView::Opx { opr, fst, snd } => {
            lemma_inlined_zero(*fst, combs, off, d);
            lemma_inlined_zero(*snd, combs, off, d);
        },
        TermView::Mat { arg, bnd, with, arms } => {
            lemma_inlined_zero(*arg, combs, off, d);
            assert forall|i: int| 0 <= i < arms.len() implies inlined(
                arms[i].body,
                combs,
                off,
                d,
                0,
            ) == arms[i].body by {
                lemma_inlined_zero(arms[i].body, combs, off, d);
            }
            assert(inlined_arms(arms, combs, off, d, 0) =~= arms);
        },
        TermView::Swt { arg, bnd, with, pred, arms } => {
            lemma_inlined_zero(*arg, combs, off, d);
            lemma_inlined_terms_zero(arms, combs, off, d);
        },
        _ => {},
    }
}

proof fn lemma_inlined_terms_zero(ts: Seq<TermView>, combs: Seq<DefinitionView>, off: int, d: Ident)
    ensures
        inlined_terms(ts, combs, off, d, 0) == ts,
    decreases ts, 1nat,
{
    assert forall|i: int| 0 <= i < ts.len() implies inlined(ts[i], combs, off, d, 0) == ts[i] by {
        lemma_inlined_zero(ts[i], combs, off, d);
    }
    assert(inlined_terms(ts, combs, off, d, 0) =~= ts);
}

/// Whether the first list of definitions is the beginning of the second.
pub open spec fn prefix_of(a: Seq<DefinitionView>, b: Seq<DefinitionView>) -> bool {
    a.len() <= b.len() && forall|i: int| 0 <= i < a.len() ==> a[i] == b[i]
}

/// What holds of the floating of a term `t` of the definition `d` that
/// holds no reference to a combinator of `d`, `st` being what was carried
/// along before and `r` the outcome: the combinators made are numbered on
/// from those made before and stand behind them in the list; the outcome
/// holds references to no combinators but these; and with the combinators
/// put back, the outcome is `t`. `combs` is any list of definitions that
/// begins with those of the outcome, and `off` the position in it of the
/// combinator with the number 0.
pub open spec fn float_sound(
    t: TermView,
    r: Floated,
    st: FloatState,
    d: Ident,
    combs: Seq<DefinitionView>,
    off: int,
) -> bool {
    &&& st.next <= r.state.next
    &&& r.state.next + off == r.state.combs.len()
    &&& prefix_of(st.combs, r.state.combs)
    &&& mentions_within(r.term, d, st.next as int, r.state.next as int)
    &&& prefix_of(r.state.combs, combs) ==> inlined(r.term, combs, off, d, r.state.next as int)
        == t
}

/// Two floatings, one after the other: what holds of each holds of both
/// with respect to what is carried along at the end.
proof fn lemma_compose(
    a: TermView,
    x: Floated,
    b: TermView,
    y: Floated,
    st: FloatState,
    d: Ident,
    combs: Seq<DefinitionView>,
    off: int,
)
    requires
        float_sound(a, x, st, d, combs, off),
        float_sound(b, y, x.state, d, combs, off),
    ensures
        st.next <= y.state.next,
        y.state.next + off == y.state.combs.len(),
        prefix_of(st.combs, y.state.combs),
        mentions_within(x.term, d, st.next as int, y.state.next as int),
        mentions_within(y.term, d, st.next as int, y.state.next as int),
        prefix_of(y.state.combs, combs) ==> inlined(x.term, combs, off, d, y.state.next as int) == a
            && inlined(y.term, combs, off, d, y.state.next as int) == b,
{
    if prefix_of(y.state.combs, combs) {
        assert(prefix_of(x.state.combs, combs));
        assert(mentions_below(x.term, d, x.state.next as int));
        lemma_inlined_extend(x.term, combs, off, d, x.state.next as int, y.state.next as int);
    }
}

/// Float invariance, for a float child.
pub proof fn lemma_float_child(
    t: TermView,
    env: FloatEnv,
    st: FloatState,
    combs: Seq<DefinitionView>,
    off: int,
)
    requires
        mentions_none(t, env.def_name),
        st.next + off == st.combs.len(),
    ensures
        float_sound(t, floated_child(t, env, st), st, env.def_name, combs, off),
    decreases t, 2nat,
{
    let d = env.def_name;
    lemma_float_term(t, env, st, combs, off);
    let inner = floated_term(t, env, st);
    if combinator(inner.term) {
        if !safety(inner.term, env.defs, Set::empty()) {
            let n = inner.state.next;
            let name = comb_name(d, n);
            let r = floated_child(t, env, st);
            assert(r.term == TermView::Ref { nam: name });
            assert(r.state.next == n + 1);
            assert(r.state.combs == inner.state.combs.push(
                comb_definition(name, inner.term, env.builtin),
            ));
            assert(mentions_within(r.term, d, st.next as int, r.state.next as int)) by {
                assert forall|j: nat| mentions(r.term, #[trigger] comb_name(d, j)) implies st.next
                    <= j < r.state.next by {
                    lemma_comb_name_injective(d, n, j);
                }
            }
            if prefix_of(r.state.combs, combs) {
                assert(prefix_of(inner.state.combs, combs));
                assert(combs[off + n] == r.state.combs[off + n]);
                assert(comb_body(combs[off + n]) == inner.term);
                lemma_comb_number_of(d, n, (n + 1) as int);
            }
        }
    }
}

/// Float invariance along the spine of an application.
pub proof fn lemma_float_spine(
    t: TermView,
    env: FloatEnv,
    st: FloatState,
    combs: Seq<DefinitionView>,
    off: int,
)
    requires
        mentions_none(t, env.def_name),
        st.next + off == st.combs.len(),
    ensures
        float_sound(t, floated_spine(t, env, st), st, env.def_name, combs, off),
    decreases t, 3nat,
{
    let d = env.def_name;
    match t {
        TermView::App { tag, fun, arg } => {
            assert(mentions_none(*arg, d)) by {
                assert forall|j: nat| !mentions(*arg, #[trigger] comb_name(d, j)) by {
                    assert(!mentions(t, comb_name(d, j)));
                }
            }
            assert(mentions_none(*fun, d)) by {
                assert forall|j: nat| !mentions(*fun, #[trigger] comb_name(d, j)) by {
                    assert(!mentions(t, comb_name(d, j)));
                }
            }
            lemma_float_child(*arg, env, st, combs, off);
            let x = floated_child(*arg, env, st);
            lemma_float_spine(*fun, env, x.state, combs, off);
            let y = floated_spine(*fun, env, x.state);
            lemma_compose(*arg, x, *fun, y, st, d, combs, off);
            let r = floated_spine(t, env, st);
            assert(r.term == TermView::App { tag, fun: Box::new(y.term), arg: Box::new(x.term) });
            assert(r.state == y.state);
            assert(mentions_within(r.term, d, st.next as int, r.state.next as int)) by {
                assert forall|j: nat| mentions(r.term, #[trigger] comb_name(d, j)) implies st.next
                    <= j < r.state.next by {
                    assert(mentions(x.term, comb_name(d, j)) || mentions(y.term, comb_name(d, j)));
                }
            }
        },
        _ => {
            lemma_float_child(t, env, st, combs, off);
        },
    }
}

/// Float invariance. With each combinator put back in place of the
/// reference to it, what the floating inside a term gives is the term that
/// it was before. This holds of a term that holds no reference to a
/// definition with the name of a combinator of its own definition.
pub proof fn lemma_float_term(
    t: TermView,
    env: FloatEnv,
    st: FloatState,
    combs: Seq<DefinitionView>,
    off: int,
)
    requires
        mentions_none(t, env.def_name),
        st.next + off == st.combs.len(),
    ensures
        float_sound(t, floated_term(t, env, st), st, env.def_name, combs, off),
    decreases t, 1nat,
{
    let d = env.def_name;
    match t {
        TermView::App { tag, fun, arg } => {
            assert(mentions_none(*arg, d)) by {
                assert forall|j: nat| !mentions(*arg, #[trigger] comb_name(d, j)) by {
                    assert(!mentions(t, comb_name(d, j)));
                }
            }
            assert(mentions_none(*fun, d)) by {
                assert forall|j: nat| !mentions(*fun, #[trigger] comb_name(d, j)) by {
                    assert(!mentions(t, comb_name(d, j)));
                }
            }
            lemma_float_child(*arg, env, st, combs, off);
            let x = floated_child(*arg, env, st);
            lemma_float_spine(*fun, env, x.state, combs, off);
            let y = floated_spine(*fun, env, x.state);
            lemma_compose(*arg, x, *fun, y, st, d, combs, off);
            let r = floated_term(t, env, st);
            assert(r.term == TermView::App { tag, fun: Box::new(y.term), arg: Box::new(x.term) });
            assert(r.state == y.state);
            assert(mentions_within(r.term, d, st.next as int, r.state.next as int)) by {
                assert forall|j: nat| mentions(r.term, #[trigger] comb_name(d, j)) implies st.next
                    <= j < r.state.next by {
                    assert(mentions(x.term, comb_name(d, j)) || mentions(y.term, comb_name(d, j)));
                }
            }
        },
        TermView::Lam { tag, nam, bod } => {
            assert(mentions_none(*bod, d)) by {
                assert forall|j: nat| !mentions(*bod, #[trigger] comb_name(d, j)) by {
                    assert(!mentions(t, comb_name(d, j)));
                }
            }
            lemma_float_term(*bod, env, st, combs, off);
            let x = floated_term(*bod, env, st);
            let r = floated_term(t, env, st);
            assert(r.term == TermView::Lam { tag, nam, bod: Box::new(x.term) });
            assert(mentions_within(r.term, d, st.next as int, r.state.next as int)) by {
                assert forall|j: nat| mentions(r.term, #[trigger] comb_name(d, j)) implies st.next
                    <= j < r.state.next by {
                    assert(mentions(x.term, comb_name(d, j)));
                }
            }
        },
        TermView::Chn { tag, nam, bod } => {
            assert(mentions_none(*bod, d)) by {
                assert forall|j: nat| !mentions(*bod, #[trigger] comb_name(d, j)) by {
                    assert(!mentions(t, comb_name(d, j)));
                }
            }
            lemma_float_term(*bod, env, st, combs, off);
            let x = floated_term(*bod, env, st);
            let r = floated_term(t, env, st);
            assert(r.term == TermView::Chn { tag, nam, bod: Box::new(x.term) });
            assert(mentions_within(r.term, d, st.next as int, r.state.next as int)) by {
                assert forall|j: nat| mentions(r.term, #[trigger] comb_name(d, j)) implies st.next
                    <= j < r.state.next by {
                    assert(mentions(x.term, comb_name(d, j)));
                }
            }
        },
        TermView::Mat { arg, bnd, with, arms } => {
            lemma_float_match(t, env, st, combs, off);
        },
        TermView::Swt { arg, bnd, with, pred, arms } => {
            lemma_float_switch(t, env, st, combs, off);
        },
        TermView::Tup { els } => {
            assert forall|i: int| 0 <= i < els.len() implies mentions_none(#[trigger] els[i], d) by {
                assert forall|j: nat| !mentions(els[i], #[trigger] comb_name(d, j)) by {
                    if mentions(els[i], comb_name(d, j)) {
                        assert(mentions_in_terms(els, comb_name(d, j))[i]);
                        assert(mentions(t, comb_name(d, j)));
                    }
                }
            }
            lemma_float_terms(els, els.len() as int, env, st, combs, off);
            let x = floated_terms(els, els.len() as int, env, st);
            let r = floated_term(t, env, st);
            assert(r.term == TermView::Tup { els: x.terms });
            assert(r.state == x.state);
            assert(mentions_within(r.term, d, st.next as int, r.state.next as int)) by {
                assert forall|j: nat| mentions(r.term, #[trigger] comb_name(d, j)) implies st.next
                    <= j < r.state.next by {
                    let flags = mentions_in_terms(x.terms, comb_name(d, j));
                    let i = choose|i: int| 0 <= i < flags.len() && flags[i] == true;
                    assert(mentions(x.terms[i], comb_name(d, j)));
                }
            }
            if prefix_of(r.state.combs, combs) {
                assert(inlined_terms(x.terms, combs, off, d, r.state.next as int) =~= els);
            }
        },
        TermView::Sup { tag, els } => {
            assert forall|i: int| 0 <= i < els.len() implies mentions_none(#[trigger] els[i], d) by {
                assert forall|j: nat| !mentions(els[i], #[trigger] comb_name(d, j)) by {
                    if mentions(els[i], comb_name(d, j)) {
                        assert(mentions_in_terms(els, comb_name(d, j))[i]);
                        assert(mentions(t, comb_name(d, j)));
                    }
                }
            }
            lemma_float_terms(els, els.len() as int, env, st, combs, off);
            let x = floated_terms(els, els.len() as int, env, st);
            let r = floated_term(t, env, st);
            assert(r.term == TermView::Sup { tag, els: x.terms });
            assert(r.state == x.state);
            assert(mentions_within(r.term, d, st.next as int, r.state.next as int)) by {
                assert forall|j: nat| mentions(r.term, #[trigger] comb_name(d, j)) implies st.next
                    <= j < r.state.next by {
                    let flags = mentions_in_terms(x.terms, comb_name(d, j));
                    let i = choose|i: int| 0 <= i < flags.len() && flags[i] == true;
                    assert(mentions(x.terms[i], comb_name(d, j)));
                }
            }
            if prefix_of(r.state.combs, combs) {
                assert(inlined_terms(x.terms, combs, off, d, r.state.next as int) =~= els);
            }
        },
        TermView::Lst { els } => {
            assert forall|i: int| 0 <= i < els.len() implies mentions_none(#[trigger] els[i], d) by {
                assert forall|j: nat| !mentions(els[i], #[trigger] comb_name(d, j)) by {
                    if mentions(els[i], comb_name(d, j)) {
                        assert(mentions_in_terms(els, comb_name(d, j))[i]);
                        assert(mentions(t, comb_name(d, j)));
                    }
                }
            }
            lemma_float_terms(els, els.len() as int, env, st, combs, off);
            let x = floated_terms(els, els.len() as int, env, st);
            let r = floated_term(t, env, st);
            assert(r.term == TermView::Lst { els: x.terms });
            assert(r.state == x.state);
            assert(mentions_within(r.term, d, st.next as int, r.state.next as int)) by {
                assert forall|j: nat| mentions(r.term, #[trigger] comb_name(d, j)) implies st.next
                    <= j < r.state.next by {
                    let flags = mentions_in_terms(x.terms, comb_name(d, j));
                    let i = choose|i: int| 0 <= i < flags.len() && flags[i] == true;
                    assert(mentions(x.terms[i], comb_name(d, j)));
                }
            }
            if prefix_of(r.state.combs, combs) {
                assert(inlined_terms(x.terms, combs, off, d, r.state.next as int) =~= els);
            }
        },
        TermView::Ltp { bnd, val, nxt } => {
            assert(mentions_none(*val, d)) by {
                assert forall|j: nat| !mentions(*val, #[trigger] comb_name(d, j)) by {
                    assert(!mentions(t, comb_name(d, j)));
                }
            }
            assert(mentions_none(*nxt, d)) by {
                assert forall|j: nat| !mentions(*nxt, #[trigger] comb_name(d, j)) by {
                    assert(!mentions(t, comb_name(d, j)));
                }
            }
            lemma_float_child(*val, env, st, combs, off);
            let x = floated_child(*val, env, st);
            lemma_float_child(*nxt, env, x.state, combs, off);
            let y = floated_child(*nxt, env, x.state);
            lemma_compose(*val, x, *nxt, y, st, d, combs, off);
            let r = floated_term(t, env, st);
            assert(r.term == TermView::Ltp { bnd, val: Box::new(x.term), nxt: Box::new(y.term) });
            assert(r.state == y.state);
            assert(mentions_within(r.term, d, st.next as int, r.state.next as int)) by {
                assert forall|j: nat| mentions(r.term, #[trigger] comb_name(d, j)) implies st.next
                    <= j < r.state.next by {
                    assert(mentions(x.term, comb_name(d, j)) || mentions(y.term, comb_name(d, j)));
                }
            }
        },
        TermView::Let { nam, val, nxt } => {
            assert(mentions_none(*val, d)) by {
                assert forall|j: nat| !mentions(*val, #[trigger] comb_name(d, j)) by {
                    assert(!mentions(t, comb_name(d, j)));
                }
            }
            assert(mentions_none(*nxt, d)) by {
                assert forall|j: nat| !mentions(*nxt, #[trigger] comb_name(d, j)) by {
                    assert(!mentions(t, comb_name(d, j)));
                }
            }
            lemma_float_child(*val, env, st, combs, off);
            let x = floated_child(*val, env, st);
            lemma_float_child(*nxt, env, x.state, combs, off);
            let y = floated_child(*nxt, env, x.state);
            lemma_compose(*val, x, *nxt, y, st, d, combs, off);
            let r = floated_term(t, env, st);
            assert(r.term == TermView::Let { nam, val: Box::new(x.term), nxt: Box::new(y.term) });
            assert(r.state == y.state);
            assert(mentions_within(r.term, d, st.next as int, r.state.next as int)) by {
                assert forall|j: nat| mentions(r.term, #[trigger] comb_name(d, j)) implies st.next
                    <= j < r.state.next by {
                    assert(mentions(x.term, comb_name(d, j)) || mentions(y.term, comb_name(d, j)));
                }
            }
        },
        TermView::Use { nam, val, nxt } => {
            assert(mentions_none(*val, d)) by {
                assert forall|j: nat| !mentions(*val, #[trigger] comb_name(d, j)) by {
                    assert(!mentions(t, comb_name(d, j)));
                }
            }
            assert(mentions_none(*nxt, d)) by {
                assert forall|j: nat| !mentions(*nxt, #[trigger] comb_name(d, j)) by {
                    assert(!mentions(t, comb_name(d, j)));
                }
            }
            lemma_float_child(*val, env, st, combs, off);
            let x = floated_child(*val, env, st);
            lemma_float_child(*nxt, env, x.state, combs, off);
            let y = floated_child(*nxt, env, x.state);
            lemma_compose(*val, x, *nxt, y, st, d, combs, off);
            let r = floated_term(t, env, st);
            assert(r.term == TermView::Use { nam, val: Box::new(x.term), nxt: Box::new(y.term) });
            assert(r.state == y.state);
            assert(mentions_within(r.term, d, st.next as int, r.state.next as int)) by {
                assert forall|j: nat| mentions(r.term, #[trigger] comb_name(d, j)) implies st.next
                    <= j < r.state.next by {
                    assert(mentions(x.term, comb_name(d, j)) || mentions(y.term, comb_name(d, j)));
                }
            }
        },
        TermView::Dup { tag, bnd, val, nxt } => {
            assert(mentions_none(*val, d)) by {
                assert forall|j: nat| !mentions(*val, #[trigger] comb_name(d, j)) by {
                    assert(!mentions(t, comb_name(d, j)));
                }
            }
            assert(mentions_none(*nxt, d)) by {
                assert forall|j: nat| !mentions(*nxt, #[trigger] comb_name(d, j)) by {
                    assert(!mentions(t, comb_name(d, j)));
                }
            }
            lemma_float_child(*val, env, st, combs, off);
            let x = floated_child(*val, env, st);
            lemma_float_child(*nxt, env, x.state, combs, off);
            let y = floated_child(*nxt, env, x.state);
            lemma_compose(*val, x, *nxt, y, st, d, combs, off);
            let r = floated_term(t, env, st);
            assert(r.term == TermView::Dup { tag, bnd, val: Box::new(x.term), nxt: Box::new(y.term) });
            assert(r.state == y.state);
            assert(mentions_within(r.term, d, st.next as int, r.state.next as int)) by {
                assert forall|j: nat| mentions(r.term, #[trigger] comb_name(d, j)) implies st.next
                    <= j < r.state.next by {
                    assert(mentions(x.term, comb_name(d, j)) || mentions(y.term, comb_name(d, j)));
                }
            }
        },
        TermView::Opx { opr, fst, snd } => {
            assert(mentions_none(*fst, d)) by {
                assert forall|j: nat| !mentions(*fst, #[trigger] comb_name(d, j)) by {
                    assert(!mentions(t, comb_name(d, j)));
                }
            }
            assert(mentions_none(*snd, d)) by {
                assert forall|j: nat| !mentions(*snd, #[trigger] comb_name(d, j)) by {
                    assert(!mentions(t, comb_name(d, j)));
                }
            }
            lemma_float_child(*fst, env, st, combs, off);
            let x = floated_child(*fst, env, st);
            lemma_float_child(*snd, env, x.state, combs, off);
            let y = floated_child(*snd, env, x.state);
            lemma_compose(*fst, x, *snd, y, st, d, combs, off);
            let r = floated_term(t, env, st);
            assert(r.term == TermView::Opx { opr, fst: Box::new(x.term), snd: Box::new(y.term) });
            assert(r.state == y.state);
            assert(mentions_within(r.term, d, st.next as int, r.state.next as int)) by {
                assert forall|j: nat| mentions(r.term, #[trigger] comb_name(d, j)) implies st.next
                    <= j < r.state.next by {
                    assert(mentions(x.term, comb_name(d, j)) || mentions(y.term, comb_name(d, j)));
                }
            }
        },
        _ => {
            assert(mentions_within(t, d, st.next as int, st.next as int));
            if prefix_of(st.combs, combs) {
                lemma_inlined_none(t, combs, off, d, st.next as int);
            }
        },
    }
}

/// Float invariance, for a match.
proof fn lemma_float_match(
    t: TermView,
    env: FloatEnv,
    st: FloatState,
    combs: Seq<DefinitionView>,
    off: int,
)
    requires
        t is Mat,
        mentions_none(t, env.def_name),
        st.next + off == st.combs.len(),
    ensures
        float_sound(t, floated_term(t, env, st), st, env.def_name, combs, off),
    decreases t, 0nat,
{
    let d = env.def_name;
    match t {
        TermView::Mat { arg, bnd, with, arms } => {
            assert(mentions_none(*arg, d)) by {
                assert forall|j: nat| !mentions(*arg, #[trigger] comb_name(d, j)) by {
                    assert(!mentions(t, comb_name(d, j)));
                }
            }
            assert forall|i: int| 0 <= i < arms.len() implies mentions_none(
                (#[trigger] arms[i]).body,
                d,
            ) by {
                assert forall|j: nat| !mentions(arms[i].body, #[trigger] comb_name(d, j)) by {
                    if mentions(arms[i].body, comb_name(d, j)) {
                        assert(mentions_in_bodies(arms, comb_name(d, j))[i]);
                        assert(mentions(t, comb_name(d, j)));
                    }
                }
            }
            lemma_float_child(*arg, env, st, combs, off);
            let x = floated_child(*arg, env, st);
            lemma_float_arms(arms, arms.len() as int, env, x.state, combs, off);
            let y = floated_arms(arms, arms.len() as int, env, x.state);
            let r = floated_term(t, env, st);
            assert(r.term == TermView::Mat { arg: Box::new(x.term), bnd, with, arms: y.arms });
            assert(r.state == y.state);
            assert(mentions_within(r.term, d, st.next as int, r.state.next as int)) by {
                assert forall|j: nat| mentions(r.term, #[trigger] comb_name(d, j)) implies st.next
                    <= j < r.state.next by {
                    if !mentions(x.term, comb_name(d, j)) {
                        let flags = mentions_in_bodies(y.arms, comb_name(d, j));
                        let i = choose|i: int| 0 <= i < flags.len() && flags[i] == true;
                        assert(mentions(y.arms[i].body, comb_name(d, j)));
                    }
                }
            }
            if prefix_of(r.state.combs, combs) {
                assert(prefix_of(x.state.combs, combs));
                assert(mentions_below(x.term, d, x.state.next as int));
                lemma_inlined_extend(
                    x.term,
                    combs,
                    off,
                    d,
                    x.state.next as int,
                    y.state.next as int,
                );
                assert(inlined_arms(y.arms, combs, off, d, r.state.next as int) =~= arms);
            }
        },
        _ => {},
    }
}

/// Float invariance, for a switch.
proof fn lemma_float_switch(
    t: TermView,
    env: FloatEnv,
    st: FloatState,
    combs: Seq<DefinitionView>,
    off: int,
)
    requires
        t is Swt,
        mentions_none(t, env.def_name),
        st.next + off == st.combs.len(),
    ensures
        float_sound(t, floated_term(t, env, st), st, env.def_name, combs, off),
    decreases t, 0nat,
{
    let d = env.def_name;
    match t {
        TermView::Swt { arg, bnd, with, pred, arms } => {
            assert(mentions_none(*arg, d)) by {
                assert forall|j: nat| !mentions(*arg, #[trigger] comb_name(d, j)) by {
                    assert(!mentions(t, comb_name(d, j)));
                }
            }
            assert forall|i: int| 0 <= i < arms.len() implies mentions_none(
                #[trigger] arms[i],
                d,
            ) by {
                assert forall|j: nat| !mentions(arms[i], #[trigger] comb_name(d, j)) by {
                    if mentions(arms[i], comb_name(d, j)) {
                        assert(mentions_in_terms(arms, comb_name(d, j))[i]);
                        assert(mentions(t, comb_name(d, j)));
                    }
                }
            }
            lemma_float_child(*arg, env, st, combs, off);
            let x = floated_child(*arg, env, st);
            lemma_float_terms(arms, arms.len() as int, env, x.state, combs, off);
            let y = floated_terms(arms, arms.len() as int, env, x.state);
            let r = floated_term(t, env, st);
            assert(r.term == TermView::Swt {
                arg: Box::new(x.term),
                bnd,
                with,
                pred,
                arms: y.terms,
            });
            assert(r.state == y.state);
            assert(mentions_within(r.term, d, st.next as int, r.state.next as int)) by {
                assert forall|j: nat| mentions(r.term, #[trigger] comb_name(d, j)) implies st.next
                    <= j < r.state.next by {
                    if !mentions(x.term, comb_name(d, j)) {
                        let flags = mentions_in_terms(y.terms, comb_name(d, j));
                        let i = choose|i: int| 0 <= i < flags.len() && flags[i] == true;
                        assert(mentions(y.terms[i], comb_name(d, j)));
                    }
                }
            }
            if prefix_of(r.state.combs, combs) {
                assert(prefix_of(x.state.combs, combs));
                assert(mentions_below(x.term, d, x.state.next as int));
                lemma_inlined_extend(
                    x.term,
                    combs,
                    off,
                    d,
                    x.state.next as int,
                    y.state.next as int,
                );
                assert(inlined_terms(y.terms, combs, off, d, r.state.next as int) =~= arms);
            }
        },
        _ => {},
    }
}

/// Float invariance, for the first `n` terms of a list.
pub proof fn lemma_float_terms(
    ts: Seq<TermView>,
    n: int,
    env: FloatEnv,
    st: FloatState,
    combs: Seq<DefinitionView>,
    off: int,
)
    requires
        0 <= n <= ts.len(),
        forall|i: int| 0 <= i < ts.len() ==> mentions_none(#[trigger] ts[i], env.def_name),
        st.next + off == st.combs.len(),
    ensures
        ({
            let r = floated_terms(ts, n, env, st);
            &&& st.next <= r.state.next
            &&& r.state.next + off == r.state.combs.len()
            &&& prefix_of(st.combs, r.state.combs)
            &&& r.terms.len() == n
            &&& forall|i: int|
                0 <= i < n ==> mentions_within(
                    #[trigger] r.terms[i],
                    env.def_name,
                    st.next as int,
                    r.state.next as int,
                )
            &&& prefix_of(r.state.combs, combs) ==> forall|i: int|
                0 <= i < n ==> inlined(
                    #[trigger] r.terms[i],
                    combs,
                    off,
                    env.def_name,
                    r.state.next as int,
                ) == ts[i]
        }),
    decreases ts, n,
{
    let d = env.def_name;
    if n > 0 {
        lemma_float_terms(ts, n - 1, env, st, combs, off);
        let before = floated_terms(ts, n - 1, env, st);
        lemma_float_child(ts[n - 1], env, before.state, combs, off);
        let last = floated_child(ts[n - 1], env, before.state);
        let r = floated_terms(ts, n, env, st);
        assert(r.terms == before.terms.push(last.term));
        assert(r.state == last.state);
        assert forall|i: int| 0 <= i < n implies mentions_within(
            #[trigger] r.terms[i],
            d,
            st.next as int,
            r.state.next as int,
        ) by {
            if i < n - 1 {
                assert(r.terms[i] == before.terms[i]);
                assert(mentions_within(before.terms[i], d, st.next as int, before.state.next as int));
            }
        }
        if prefix_of(r.state.combs, combs) {
            assert(prefix_of(before.state.combs, combs));
            assert forall|i: int| 0 <= i < n implies inlined(
                #[trigger] r.terms[i],
                combs,
                off,
                d,
                r.state.next as int,
            ) == ts[i] by {
                if i < n - 1 {
                    assert(r.terms[i] == before.terms[i]);
                    assert(mentions_within(
                        before.terms[i],
                        d,
                        st.next as int,
                        before.state.next as int,
                    ));
                    assert(mentions_below(before.terms[i], d, before.state.next as int));
                    lemma_inlined_extend(
                        before.terms[i],
                        combs,
                        off,
                        d,
                        before.state.next as int,
                        r.state.next as int,
                    );
                }
            }
        }
    }
}

/// Float invariance, for the bodies of the first `n` arms of a match.
pub proof fn lemma_float_arms(
    arms: Seq<ArmView>,
    n: int,
    env: FloatEnv,
    st: FloatState,
    combs: Seq<DefinitionView>,
    off: int,
)
    requires
        0 <= n <= arms.len(),
        forall|i: int| 0 <= i < arms.len() ==>
            mentions_none((#[trigger] arms[i]).body, env.def_name),
        st.next + off == st.combs.len(),
    ensures
        ({
            let r = floated_arms(arms, n, env, st);
            &&& st.next <= r.state.next
            &&& r.state.next + off == r.state.combs.len()
            &&& prefix_of(st.combs, r.state.combs)
            &&& r.arms.len() == n
            &&& forall|i: int|
                0 <= i < n ==> (#[trigger] r.arms[i]).ctr == arms[i].ctr && r.arms[i].fields
                    == arms[i].fields && mentions_within(
                    r.arms[i].body,
                    env.def_name,
                    st.next as int,
                    r.state.next as int,
                )
            &&& prefix_of(r.state.combs, combs) ==> forall|i: int|
                0 <= i < n ==> inlined(
                    (#[trigger] r.arms[i]).body,
                    combs,
                    off,
                    env.def_name,
                    r.state.next as int,
                ) == arms[i].body
        }),
    decreases arms, n,
{
    let d = env.def_name;
    if n > 0 {
        lemma_float_arms(arms, n - 1, env, st, combs, off);
        let before = floated_arms(arms, n - 1, env, st);
        lemma_float_child(arms[n - 1].body, env, before.state, combs, off);
        let last = floated_child(arms[n - 1].body, env, before.state);
        let r = floated_arms(arms, n, env, st);
        assert(r.arms == before.arms.push(
            ArmView { ctr: arms[n - 1].ctr, fields: arms[n - 1].fields, body: last.term },
        ));
        assert(r.state == last.state);
        assert forall|i: int| 0 <= i < n implies (#[trigger] r.arms[i]).ctr == arms[i].ctr
            && r.arms[i].fields == arms[i].fields && mentions_within(
            r.arms[i].body,
            d,
            st.next as int,
            r.state.next as int,
        ) by {
            if i < n - 1 {
                assert(r.arms[i] == before.arms[i]);
                assert(mentions_within(
                    before.arms[i].body,
                    d,
                    st.next as int,
                    before.state.next as int,
                ));
            }
        }
        if prefix_of(r.state.combs, combs) {
            assert(prefix_of(before.state.combs, combs));
            assert forall|i: int| 0 <= i < n implies inlined(
                (#[trigger] r.arms[i]).body,
                combs,
                off,
                d,
                r.state.next as int,
            ) == arms[i].body by {
                if i < n - 1 {
                    assert(r.arms[i] == before.arms[i]);
                    assert(mentions_within(
                        before.arms[i].body,
                        d,
                        st.next as int,
                        before.state.next as int,
                    ));
                    assert(mentions_below(before.arms[i].body, d, before.state.next as int));
                    lemma_inlined_extend(
                        before.arms[i].body,
                        combs,
                        off,
                        d,
                        before.state.next as int,
                        r.state.next as int,
                    );
                }
            }
        }
    }
}

/// Float invariance, for the bodies of the first `n` rules of a
/// definition.
pub proof fn lemma_float_rules(
    rules: Seq<RuleView>,
    n: int,
    env: FloatEnv,
    st: FloatState,
    combs: Seq<DefinitionView>,
    off: int,
)
    requires
        0 <= n <= rules.len(),
        forall|i: int| 0 <= i < rules.len() ==>
            mentions_none((#[trigger] rules[i]).body, env.def_name),
        st.next + off == st.combs.len(),
    ensures
        ({
            let r = floated_rules(rules, n, env, st);
            &&& st.next <= r.state.next
            &&& r.state.next + off == r.state.combs.len()
            &&& prefix_of(st.combs, r.state.combs)
            &&& r.rules.len() == n
            &&& forall|i: int|
                0 <= i < n ==> (#[trigger] r.rules[i]).pats == rules[i].pats && mentions_within(
                    r.rules[i].body,
                    env.def_name,
                    st.next as int,
                    r.state.next as int,
                )
            &&& prefix_of(r.state.combs, combs) ==> forall|i: int|
                0 <= i < n ==> inlined(
                    (#[trigger] r.rules[i]).body,
                    combs,
                    off,
                    env.def_name,
                    r.state.next as int,
                ) == rules[i].body
        }),
    decreases n,
{
    let d = env.def_name;
    if n > 0 {
        lemma_float_rules(rules, n - 1, env, st, combs, off);
        let before = floated_rules(rules, n - 1, env, st);
        lemma_float_term(rules[n - 1].body, env, before.state, combs, off);
        let last = floated_term(rules[n - 1].body, env, before.state);
        let r = floated_rules(rules, n, env, st);
        assert(r.rules == before.rules.push(
            RuleView { pats: rules[n - 1].pats, body: last.term },
        ));
        assert(r.state == last.state);
        assert forall|i: int| 0 <= i < n implies (#[trigger] r.rules[i]).pats == rules[i].pats
            && mentions_within(r.rules[i].body, d, st.next as int, r.state.next as int) by {
            if i < n - 1 {
                assert(r.rules[i] == before.rules[i]);
                assert(mentions_within(
                    before.rules[i].body,
                    d,
                    st.next as int,
                    before.state.next as int,
                ));
            }
        }
        if prefix_of(r.state.combs, combs) {
            assert(prefix_of(before.state.combs, combs));
            assert forall|i: int| 0 <= i < n implies inlined(
                (#[trigger] r.rules[i]).body,
                combs,
                off,
                d,
                r.state.next as int,
            ) == rules[i].body by {
                if i < n - 1 {
                    assert(r.rules[i] == before.rules[i]);
                    assert(mentions_within(
                        before.rules[i].body,
                        d,
                        st.next as int,
                        before.state.next as int,
                    ));
                    assert(mentions_below(before.rules[i].body, d, before.state.next as int));
                    lemma_inlined_extend(
                        before.rules[i].body,
                        combs,
                        off,
                        d,
                        before.state.next as int,
                        r.state.next as int,
                    );
                }
            }
        }
    }
}

/// Whether no rule of a definition holds a reference to a definition with
/// the name of a combinator of its own definition.
pub open spec fn rules_mention_none(defs: Seq<DefinitionView>) -> bool {
    forall|i: int, j: int|
        0 <= i < defs.len() && 0 <= j < defs[i].rules.len() ==> mentions_none(
            #[trigger] defs[i].rules[j].body,
            defs[i].name,
        )
}

/// The number of combinators made by the floating of the first `i`
/// definitions: the position, among all the combinators, of the first
/// combinator of the definition `i`.
pub open spec fn combs_before(defs: Seq<DefinitionView>, i: int, entrypoint: Option<Ident>) -> int {
    floated_defs(defs, i, entrypoint).combs.len() as int
}

/// Float invariance, for the first `n` definitions of a book: every rule
/// of every one of them is, with the combinators of its definition put
/// back, the rule that it was before.
pub proof fn lemma_float_defs(
    defs: Seq<DefinitionView>,
    n: int,
    entrypoint: Option<Ident>,
    combs: Seq<DefinitionView>,
)
    requires
        0 <= n <= defs.len(),
        rules_mention_none(defs),
    ensures
        ({
            let r = floated_defs(defs, n, entrypoint);
            &&& r.defs.len() == n
            &&& forall|i: int|
                0 <= i <= n ==> 0 <= #[trigger] combs_before(defs, i, entrypoint) <= r.combs.len()
            &&& forall|i: int|
                0 <= i < n ==> prefix_of(
                    #[trigger] floated_defs(defs, i, entrypoint).combs,
                    r.combs,
                )
            &&& forall|i: int|
                0 <= i < n ==> (#[trigger] r.defs[i]).name == defs[i].name && r.defs[i].builtin
                    == defs[i].builtin && r.defs[i].rules.len() == defs[i].rules.len()
            &&& prefix_of(r.combs, combs) ==> forall|i: int, j: int|
                0 <= i < n && 0 <= j < defs[i].rules.len() ==> r.defs[i].rules[j].pats
                    == defs[i].rules[j].pats && inlined(
                    #[trigger] r.defs[i].rules[j].body,
                    combs,
                    combs_before(defs, i, entrypoint),
                    defs[i].name,
                    combs_before(defs, i + 1, entrypoint) - combs_before(defs, i, entrypoint),
                ) == defs[i].rules[j].body
        }),
    decreases n,
{
    if n > 0 {
        lemma_float_defs(defs, n - 1, entrypoint, combs);
        let before = floated_defs(defs, n - 1, entrypoint);
        let r = floated_defs(defs, n, entrypoint);
        let d = defs[n - 1];
        let off = before.combs.len() as int;
        assert(combs_before(defs, n - 1, entrypoint) == off);
        assert(combs_before(defs, n, entrypoint) == r.combs.len());
        if is_entrypoint(entrypoint, d.name) {
            assert(r.defs == before.defs.push(d));
            assert(r.combs == before.combs);
            assert forall|j: int| 0 <= j < d.rules.len() implies inlined(
                #[trigger] d.rules[j].body,
                combs,
                off,
                d.name,
                0,
            ) == d.rules[j].body by {
                lemma_inlined_zero(d.rules[j].body, combs, off, d.name);
            }
        } else {
            let env = FloatEnv { defs, def_name: d.name, builtin: d.builtin };
            let st = FloatState { next: 0, combs: before.combs };
            assert forall|j: int| 0 <= j < d.rules.len() implies mentions_none(
                (#[trigger] d.rules[j]).body,
                d.name,
            ) by {
                assert(mentions_none(defs[n - 1].rules[j].body, defs[n - 1].name));
            }
            lemma_float_rules(d.rules, d.rules.len() as int, env, st, combs, off);
            let fr = floated_rules(d.rules, d.rules.len() as int, env, st);
            assert(r.defs == before.defs.push(
                DefinitionView { name: d.name, rules: fr.rules, builtin: d.builtin },
            ));
            assert(r.combs == fr.state.combs);
        }
        assert forall|i: int| 0 <= i <= n implies 0 <= #[trigger] combs_before(
            defs,
            i,
            entrypoint,
        ) <= r.combs.len() by {
            if i < n {
                assert(combs_before(defs, i, entrypoint) <= before.combs.len());
            }
        }
        assert forall|i: int| 0 <= i < n implies prefix_of(
            #[trigger] floated_defs(defs, i, entrypoint).combs,
            r.combs,
        ) by {
            if i < n - 1 {
                assert(prefix_of(floated_defs(defs, i, entrypoint).combs, before.combs));
            }
        }
        assert forall|i: int| 0 <= i < n implies (#[trigger] r.defs[i]).name == defs[i].name
            && r.defs[i].builtin == defs[i].builtin && r.defs[i].rules.len()
            == defs[i].rules.len() by {
            if i < n - 1 {
                assert(r.defs[i] == before.defs[i]);
            }
        }
        if prefix_of(r.combs, combs) {
            assert(prefix_of(before.combs, combs));
            assert forall|i: int, j: int|
                0 <= i < n && 0 <= j < defs[i].rules.len() implies r.defs[i].rules[j].pats
                == defs[i].rules[j].pats && inlined(
                #[trigger] r.defs[i].rules[j].body,
                combs,
                combs_before(defs, i, entrypoint),
                defs[i].name,
                combs_before(defs, i + 1, entrypoint) - combs_before(defs, i, entrypoint),
            ) == defs[i].rules[j].body by {
                if i < n - 1 {
                    assert(r.defs[i] == before.defs[i]);
                    assert(before.defs[i].rules[j].pats == defs[i].rules[j].pats);
                } else {
                    if !is_entrypoint(entrypoint, d.name) {
                        let env = FloatEnv { defs, def_name: d.name, builtin: d.builtin };
                        let st = FloatState { next: 0, combs: before.combs };
                        let fr = floated_rules(d.rules, d.rules.len() as int, env, st);
                        assert(r.defs[i].rules[j] == fr.rules[j]);
                    }
                }
            }
        }
    }
}

/// Float invariance. Let the rules of a book hold no reference to a
/// definition with the name of a combinator of their own definition. Then
/// every rule of the book is, after the floating, with the combinators of
/// its definition put back in place of the references to them, the rule
/// that it was before.
pub proof fn lemma_float_invariance(
    defs: Seq<DefinitionView>,
    entrypoint: Option<Ident>,
    i: int,
    j: int,
)
    requires
        rules_mention_none(defs),
        0 <= i < defs.len(),
        0 <= j < defs[i].rules.len(),
    ensures
        ({
            let r = floated_defs(defs, defs.len() as int, entrypoint);
            &&& r.defs.len() == defs.len()
            &&& r.defs[i].name == defs[i].name
            &&& r.defs[i].rules.len() == defs[i].rules.len()
            &&& r.defs[i].rules[j].pats == defs[i].rules[j].pats
            &&& inlined(
                r.defs[i].rules[j].body,
                r.combs,
                combs_before(defs, i, entrypoint),
                defs[i].name,
                combs_before(defs, i + 1, entrypoint) - combs_before(defs, i, entrypoint),
            ) == defs[i].rules[j].body
        }),
{
    let r = floated_defs(defs, defs.len() as int, entrypoint);
    lemma_float_defs(defs, defs.len() as int, entrypoint, r.combs);
    assert(prefix_of(r.combs, r.combs));
    assert(r.defs[i].name == defs[i].name);
}

/// Whether a definition is the combinator with the number `k` of the
/// definition that is floated: it has the combinator's name, it is built in
/// as its definition is, and its one rule, without patterns, has as its
/// body a combinator that is not safe.
pub open spec fn is_made(c: DefinitionView, env: FloatEnv, k: int) -> bool {
    &&& 0 <= k
    &&& c.name == comb_name(env.def_name, k as nat)
    &&& c.builtin == env.builtin
    &&& c.rules.len() == 1
    &&& c.rules[0].pats.len() == 0
    &&& combinator(c.rules[0].body)
    &&& !safety(c.rules[0].body, env.defs, Set::empty())
}

/// Whether, from what was carried along before to what is carried along
/// after, the list of definitions has only grown, by combinators of the
/// definition that is floated, numbered on from the next number.
pub open spec fn made_between(before: FloatState, after: FloatState, env: FloatEnv) -> bool {
    &&& prefix_of(before.combs, after.combs)
    &&& after.combs.len() - before.combs.len() == after.next - before.next
    &&& forall|i: int|
        before.combs.len() <= i < after.combs.len() ==> is_made(
            #[trigger] after.combs[i],
            env,
            before.next + (i - before.combs.len()),
        )
}

pub proof fn lemma_made_transitive(a: FloatState, b: FloatState, c: FloatState, env: FloatEnv)
    requires
        made_between(a, b, env),
        made_between(b, c, env),
    ensures
        made_between(a, c, env),
{
    assert forall|i: int| a.combs.len() <= i < c.combs.len() implies is_made(
        #[trigger] c.combs[i],
        env,
        a.next + (i - a.combs.len()),
    ) by {
        if i < b.combs.len() {
            assert(c.combs[i] == b.combs[i]);
        }
    }
}

/// What is moved out is a combinator that is not safe: every definition
/// that the floating of a float child makes is the combinator of its
/// number, and its body is closed and not safe.
pub proof fn lemma_child_makes_combinators(t: TermView, env: FloatEnv, st: FloatState)
    ensures
        made_between(st, floated_child(t, env, st).state, env),
    decreases t, 2nat,
{
    lemma_term_makes_combinators(t, env, st);
    let inner = floated_term(t, env, st);
    if combinator(inner.term) && !safety(inner.term, env.defs, Set::empty()) {
        let r = floated_child(t, env, st);
        assert(r.state.combs == inner.state.combs.push(
            comb_definition(comb_name(env.def_name, inner.state.next), inner.term, env.builtin),
        ));
        assert(made_between(inner.state, r.state, env));
        lemma_made_transitive(st, inner.state, r.state, env);
    }
}

proof fn lemma_spine_makes_combinators(t: TermView, env: FloatEnv, st: FloatState)
    ensures
        made_between(st, floated_spine(t, env, st).state, env),
    decreases t, 3nat,
{
    match t {
        TermView::App { tag, fun, arg } => {
            lemma_child_makes_combinators(*arg, env, st);
            let x = floated_child(*arg, env, st);
            lemma_spine_makes_combinators(*fun, env, x.state);
            let y = floated_spine(*fun, env, x.state);
            lemma_made_transitive(st, x.state, y.state, env);
        },
        _ => {
            lemma_child_makes_combinators(t, env, st);
        },
    }
}

/// Every definition that the floating inside a term makes is the
/// combinator of its number, and its body is closed.
pub proof fn lemma_term_makes_combinators(t: TermView, env: FloatEnv, st: FloatState)
    ensures
        made_between(st, floated_term(t, env, st).state, env),
    decreases t, 1nat,
{
    match t {
        TermView::App { tag, fun, arg } => {
            lemma_child_makes_combinators(*arg, env, st);
            let x = floated_child(*arg, env, st);
            lemma_spine_makes_combinators(*fun, env, x.state);
            let y = floated_spine(*fun, env, x.state);
            lemma_made_transitive(st, x.state, y.state, env);
        },
        TermView::Lam { tag, nam, bod } => {
            lemma_term_makes_combinators(*bod, env, st);
        },
        TermView::Chn { tag, nam, bod } => {
            lemma_term_makes_combinators(*bod, env, st);
        },
        TermView::Mat { arg, bnd, with, arms } => {
            lemma_child_makes_combinators(*arg, env, st);
            let x = floated_child(*arg, env, st);
            lemma_arms_make_combinators(arms, arms.len() as int, env, x.state);
            let y = floated_arms(arms, arms.len() as int, env, x.state);
            lemma_made_transitive(st, x.state, y.state, env);
        },
        TermView::Swt { arg, bnd, with, pred, arms } => {
            lemma_child_makes_combinators(*arg, env, st);
            let x = floated_child(*arg, env, st);
            lemma_terms_make_combinators(arms, arms.len() as int, env, x.state);
            let y = floated_terms(arms, arms.len() as int, env, x.state);
            lemma_made_transitive(st, x.state, y.state, env);
        },
        TermView::Tup { els } => {
            lemma_terms_make_combinators(els, els.len() as int, env, st);
        },
        TermView::Sup { tag, els } => {
            lemma_terms_make_combinators(els, els.len() as int, env, st);
        },
        TermView::Lst { els } => {
            lemma_terms_make_combinators(els, els.len() as int, env, st);
        },
        TermView::Ltp { bnd, val, nxt } => {
            lemma_child_makes_combinators(*val, env, st);
            let x = floated_child(*val, env, st);
            lemma_child_makes_combinators(*nxt, env, x.state);
            let y = floated_child(*nxt, env, x.state);
            lemma_made_transitive(st, x.state, y.state, env);
        },
        TermView::Let { nam, val, nxt } => {
            lemma_child_makes_combinators(*val, env, st);
            let x = floated_child(*val, env, st);
            lemma_child_makes_combinators(*nxt, env, x.state);
            let y = floated_child(*nxt, env, x.state);
            lemma_made_transitive(st, x.state, y.state, env);
        },
        TermView::Use { nam, val, nxt } => {
            lemma_child_makes_combinators(*val, env, st);
            let x = floated_child(*val, env, st);
            lemma_child_makes_combinators(*nxt, env, x.state);
            let y = floated_child(*nxt, env, x.state);
            lemma_made_transitive(st, x.state, y.state, env);
        },
        TermView::Dup { tag, bnd, val, nxt } => {
            lemma_child_makes_combinators(*val, env, st);
            let x = floated_child(*val, env, st);
            lemma_child_makes_combinators(*nxt, env, x.state);
            let y = floated_child(*nxt, env, x.state);
            lemma_made_transitive(st, x.state, y.state, env);
        },
        TermView::Opx { opr, fst, snd } => {
            lemma_child_makes_combinators(*fst, env, st);
            let x = floated_child(*fst, env, st);
            lemma_child_makes_combinators(*snd, env, x.state);
            let y = floated_child(*snd, env, x.state);
            lemma_made_transitive(st, x.state, y.state, env);
        },
        _ => {},
    }
}

proof fn lemma_terms_make_combinators(ts: Seq<TermView>, n: int, env: FloatEnv, st: FloatState)
    requires
        0 <= n <= ts.len(),
    ensures
        made_between(st, floated_terms(ts, n, env, st).state, env),
    decreases ts, n,
{
    if n > 0 {
        lemma_terms_make_combinators(ts, n - 1, env, st);
        let before = floated_terms(ts, n - 1, env, st);
        lemma_child_makes_combinators(ts[n - 1], env, before.state);
        let last = floated_child(ts[n - 1], env, before.state);
        lemma_made_transitive(st, before.state, last.state, env);
    }
}

proof fn lemma_arms_make_combinators(arms: Seq<ArmView>, n: int, env: FloatEnv, st: FloatState)
    requires
        0 <= n <= arms.len(),
    ensures
        made_between(st, floated_arms(arms, n, env, st).state, env),
    decreases arms, n,
{
    if n > 0 {
        lemma_arms_make_combinators(arms, n - 1, env, st);
        let before = floated_arms(arms, n - 1, env, st);
        lemma_child_makes_combinators(arms[n - 1].body, env, before.state);
        let last = floated_child(arms[n - 1].body, env, before.state);
        lemma_made_transitive(st, before.state, last.state, env);
    }
}

} // verus!
