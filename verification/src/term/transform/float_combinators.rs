//! The floating of combinators: closed subterms that are not safe to
//! duplicate are moved out of their rule into definitions of their own, and
//! a reference takes their place.
use vstd::prelude::*;
use vstd::string::StringExecFns;
use indexmap::IndexSet;
use crate::term::book::{
    definitions_view, def_names, find_def, insert_defs, insert_sorted, reversed, rules_view,
    sorted_defs, lemma_position, Book, Definition, DefinitionView, Rule,
    RuleView,
};
use crate::term::check::scoping::{closed, lemma_closed};
use crate::term::check::unbound_vars::{
    bind, check_uses, contains_name, lemma_followed_empty, scan, ScopeReport,
};
use crate::term::text::{decimal, write_decimal};
use crate::term::transform::canonical::all_of;
use crate::term::{
    arms_view, idents, opt_ident, terms_view, ArmView, Ident, MatchRule, Name,
    Term, TermView,
};

verus! {

#[verifier::external_type_specification]
#[verifier::external_body]
#[verifier::reject_recursive_types(T)]
#[verifier::reject_recursive_types(S)]
pub struct ExIndexSet<T, S>(IndexSet<T, S>);

/// The strings that a set of names holds, each as its characters.
pub uninterp spec fn seen_names(s: IndexSet<String>) -> Set<Ident>;

/// `IndexSet::new`: a set that holds nothing.
#[verifier::external_body]
pub(crate) fn seen_new() -> (s: IndexSet<String>)
    ensures
        seen_names(s) == Set::<Ident>::empty(),
{
    IndexSet::new()
}

/// `IndexSet::contains`: whether the set holds a string with these
/// characters.
#[verifier::external_body]
pub(crate) fn seen_contains(s: &IndexSet<String>, nam: &String) -> (b: bool)
    ensures
        b == seen_names(*s).contains(nam@),
{
    s.contains(nam)
}

/// `IndexSet::insert`: the set holds the string after the call, besides
/// what it held before; the call says whether the string is new to the set.
#[verifier::external_body]
pub(crate) fn seen_insert(s: &mut IndexSet<String>, nam: String) -> (b: bool)
    ensures
        seen_names(*final(s)) == seen_names(*old(s)).insert(nam@),
        b == !seen_names(*old(s)).contains(nam@),
{
    s.insert(nam)
}

/// `IndexSet::shift_remove`: the set holds no string with these characters
/// after the call, and otherwise what it held before; the call says
/// whether it held one.
#[verifier::external_body]
pub(crate) fn seen_remove(s: &mut IndexSet<String>, nam: &String) -> (b: bool)
    ensures
        seen_names(*final(s)) == seen_names(*old(s)).remove(nam@),
        b == seen_names(*old(s)).contains(nam@),
{
    s.shift_remove(nam)
}

/// The number of definitions that are not on the chain of references.
pub open spec fn unseen(defs: Seq<DefinitionView>, seen: Set<Ident>) -> nat {
    def_names(defs).to_set().difference(seen).len()
}

/// Following a reference to a definition that is not on the chain leaves
/// fewer definitions off the chain.
pub proof fn lemma_unseen_insert(defs: Seq<DefinitionView>, seen: Set<Ident>, nam: Ident)
    requires
        find_def(defs, nam) is Some,
        !seen.contains(nam),
    ensures
        unseen(defs, seen.insert(nam)) < unseen(defs, seen),
{
    broadcast use vstd::seq_lib::seq_to_set_is_finite;

    let names = def_names(defs).to_set();
    lemma_position(def_names(defs), nam);
    let i = find_def(defs, nam)->0;
    assert(def_names(defs)[i] == nam);
    assert(def_names(defs).contains(nam));
    assert(names.contains(nam));
    let rest = names.difference(seen);
    assert(rest.finite());
    assert(rest.contains(nam));
    assert(names.difference(seen.insert(nam)) =~= rest.remove(nam));
}

/// Whether a term is safe to duplicate as it stands. `seen` holds the
/// names of the definitions on the chain of references that led to the
/// term.
///
/// Safe are: a number and an eraser; a tuple and a superposition whose
/// elements are all safe; a lambda, after all its binders, whose body is a
/// variable that one of these binders declares, or a reference, or a safe
/// term; a reference to a definition that is not on the chain and whose
/// first rule has a safe body, the body being judged with the definition on
/// the chain. A reference to a definition that is on the chain, to one that
/// the book does not hold, or to one without a rule, is not safe.
pub open spec fn safety(t: TermView, defs: Seq<DefinitionView>, seen: Set<Ident>) -> bool
    decreases unseen(defs, seen), t, 0nat,
{
    match t {
        TermView::Num { val } => true,
        TermView::Era => true,
        TermView::Tup { els } => all_of(safeties(els, defs, seen)),
        TermView::Sup { tag, els } => all_of(safeties(els, defs, seen)),
        TermView::Lam { tag, nam, bod } => lambda_safety(*bod, bind(Seq::empty(), nam), defs, seen),
        TermView::Ref { nam } => if seen.contains(nam) {
            false
        } else {
            match find_def(defs, nam) {
                Some(i) => if 0 <= i < defs.len() && defs[i].rules.len() > 0 {
                    proof {
                        lemma_unseen_insert(defs, seen, nam);
                    }
                    safety(defs[i].rules[0].body, defs, seen.insert(nam))
                } else {
                    false
                },
                None => false,
            }
        },
        _ => false,
    }
}

/// For each term of a list, whether it is safe; each is judged with the
/// same chain of references.
pub open spec fn safeties(ts: Seq<TermView>, defs: Seq<DefinitionView>, seen: Set<Ident>) -> Seq<
    bool,
>
    decreases unseen(defs, seen), ts, 1nat,
{
    Seq::new(
        ts.len(),
        |i: int|
            if 0 <= i < ts.len() {
                safety(ts[i], defs, seen)
            } else {
                true
            },
    )
}

/// Whether what stands inside the binders of a lambda is safe, `scope`
/// holding the names that these binders declare.
pub open spec fn lambda_safety(
    t: TermView,
    scope: Seq<Ident>,
    defs: Seq<DefinitionView>,
    seen: Set<Ident>,
) -> bool
    decreases unseen(defs, seen), t, 1nat,
{
    match t {
        TermView::Lam { tag, nam, bod } => lambda_safety(*bod, bind(scope, nam), defs, seen),
        TermView::Var { nam } => scope.contains(nam),
        TermView::Ref { nam } => true,
        _ => safety(t, defs, seen),
    }
}

/// Whether the terms of a list are all safe.
fn all_safe(els: &Vec<Term>, book: &Book, seen: &mut IndexSet<String>) -> (r: bool)
    ensures
        r == all_of(safeties(terms_view(els@), book@.defs, seen_names(*old(seen)))),
        seen_names(*final(seen)) == seen_names(*old(seen)),
    decreases unseen(book@.defs, seen_names(*old(seen))), els, 1nat,
{
    let ghost chain = seen_names(*seen);
    let ghost flags = safeties(terms_view(els@), book@.defs, chain);
    let mut i: usize = 0;
    while i < els.len()
        invariant
            i <= els.len(),
            chain == seen_names(*old(seen)),
            seen_names(*seen) == chain,
            flags == safeties(terms_view(els@), book@.defs, chain),
            forall|j: int| 0 <= j < i ==> flags[j],
        decreases els.len() - i,
    {
        if !els[i].is_safe(book, seen) {
            proof {
                assert(!flags[i as int]);
            }
            return false;
        }
        i += 1;
    }
    true
}

impl Term {
    /// A term can be considered safe if it is:
    /// - A Number or an Eraser.
    /// - A Tuple or Superposition where all elements are safe.
    /// - A safe Lambda, e.g. a nullary constructor or a lambda with safe
    ///   body.
    /// - A Reference with safe body.
    ///
    /// `seen` holds the names of the definitions on the chain of references
    /// that led to the term; a reference to one of them is not safe. The
    /// set holds the same names after the call as before it.
    pub fn is_safe(&self, book: &Book, seen: &mut IndexSet<String>) -> (r: bool)
        ensures
            r == safety(self@, book@.defs, seen_names(*old(seen))),
            seen_names(*final(seen)) == seen_names(*old(seen)),
        decreases unseen(book@.defs, seen_names(*old(seen))), self, 0nat,
    {
        match self {
            Term::Num { .. } => true,
            Term::Era => true,
            Term::Tup { els } => all_safe(els, book, seen),
            Term::Sup { tag: _, els } => all_safe(els, book, seen),
            Term::Lam { tag: _, nam, bod } => {
                let mut scope: Vec<Name> = Vec::new();
                match nam {
                    Some(n) => {
                        scope.push(n.clone());
                    },
                    None => {},
                }
                proof {
                    assert(idents(scope@) =~= bind(Seq::empty(), opt_ident(*nam)));
                }
                bod.is_safe_inside(&mut scope, book, seen)
            },
            Term::Ref { nam } => {
                if seen_contains(seen, &nam.0) {
                    return false;
                }
                let ghost chain = seen_names(*seen);
                match book.defs.get(nam) {
                    Some(definition) => {
                        if definition.rules.len() > 0 {
                            proof {
                                lemma_unseen_insert(book@.defs, chain, nam@);
                                lemma_position(def_names(book@.defs), nam@);
                            }
                            let _ = seen_insert(seen, nam.0.clone());
                            let safe = definition.rules[0].body.is_safe(book, seen);
                            let _ = seen_remove(seen, &nam.0);
                            proof {
                                assert(chain.insert(nam@).remove(nam@) =~= chain);
                            }
                            safe
                        } else {
                            false
                        }
                    },
                    None => false,
                }
            },
            _ => false,
        }
    }

    /// Whether what stands inside the binders of a lambda is safe: a
    /// variable that one of the binders declares, a reference, or a safe
    /// term. `scope` holds the names that the binders declare.
    fn is_safe_inside(&self, scope: &mut Vec<Name>, book: &Book, seen: &mut IndexSet<String>) -> (r:
        bool)
        ensures
            r == lambda_safety(self@, idents(old(scope)@), book@.defs, seen_names(*old(seen))),
            seen_names(*final(seen)) == seen_names(*old(seen)),
        decreases unseen(book@.defs, seen_names(*old(seen))), self, 1nat,
    {
        match self {
            Term::Lam { tag: _, nam, bod } => {
                match nam {
                    Some(n) => {
                        scope.push(n.clone());
                    },
                    None => {},
                }
                proof {
                    assert(idents(scope@) =~= bind(idents(old(scope)@), opt_ident(*nam)));
                }
                bod.is_safe_inside(scope, book, seen)
            },
            Term::Var { nam } => contains_name(scope, nam),
            Term::Ref { .. } => true,
            _ => self.is_safe(book, seen),
        }
    }

    /// Checks if the term is a lambda sequence with the body being a
    /// variable in the scope or a reference, or a safe term.
    pub fn is_safe_lambda(&self, book: &Book, seen: &mut IndexSet<String>) -> (r: bool)
        ensures
            r == lambda_safety(self@, Seq::empty(), book@.defs, seen_names(*old(seen))),
            seen_names(*final(seen)) == seen_names(*old(seen)),
    {
        let mut scope: Vec<Name> = Vec::new();
        proof {
            assert(idents(scope@) =~= Seq::empty());
        }
        self.is_safe_inside(&mut scope, book, seen)
    }
}

/// Whether the unscoped channels that a term declares and those that it
/// uses are not the same channels.
pub open spec fn unscoped_diff(t: TermView) -> bool {
    scan(t, Seq::empty()).declared.to_set() != scan(t, Seq::empty()).used.to_set()
}

/// Whether a term is a combinator: no variable of it is left unbound, the
/// unscoped channels that it declares are those that it uses, and it is not
/// a reference.
pub open spec fn combinator(t: TermView) -> bool {
    scan(t, Seq::empty()).unbound.len() == 0 && !unscoped_diff(t) && !(t is Ref)
}

/// A combinator is a closed term that is not a reference and that
/// declares the unscoped channels that it uses, and no others.
pub proof fn lemma_combinator(t: TermView)
    ensures
        combinator(t) <==> closed(t) && !unscoped_diff(t) && !(t is Ref),
{
    lemma_closed(t);
}

/// Whether every name of the first list is in the second.
fn all_names_in(names: &Vec<Name>, others: &Vec<Name>) -> (r: bool)
    ensures
        r == idents(names@).to_set().subset_of(idents(others@).to_set()),
{
    let mut i: usize = 0;
    while i < names.len()
        invariant
            i <= names.len(),
            forall|j: int| 0 <= j < i ==> idents(others@).contains(#[trigger] idents(names@)[j]),
        decreases names.len() - i,
    {
        if !contains_name(others, &names[i]) {
            proof {
                let x = idents(names@)[i as int];
                assert(idents(names@).contains(x));
                assert(idents(names@).to_set().contains(x));
                assert(!idents(others@).to_set().contains(x));
            }
            return false;
        }
        i += 1;
    }
    proof {
        assert forall|x: Ident| idents(names@).to_set().contains(x) implies idents(
            others@,
        ).to_set().contains(x) by {
            let j = choose|j: int| 0 <= j < idents(names@).len() && idents(names@)[j] == x;
            assert(idents(others@).contains(idents(names@)[j]));
        }
    }
    true
}

impl ScopeReport {
    /// Whether the channels that were declared and those that were used
    /// are not the same channels.
    pub fn has_unscoped_diff(&self) -> (r: bool)
        ensures
            r == (self@.declared.to_set() != self@.used.to_set()),
    {
        let same = all_names_in(&self.declared, &self.used) && all_names_in(
            &self.used,
            &self.declared,
        );
        proof {
            if same {
                assert(self@.declared.to_set() =~= self@.used.to_set());
            }
        }
        !same
    }
}

impl Term {
    /// Whether the unscoped channels that the term declares and those that
    /// it uses are not the same channels.
    pub fn has_unscoped_diff(&self) -> (r: bool)
        ensures
            r == unscoped_diff(self@),
    {
        let mut scope: Vec<Name> = Vec::new();
        let mut report = ScopeReport::new();
        proof {
            assert(idents(scope@) =~= Seq::empty());
            lemma_followed_empty(scan(self@, Seq::empty()));
        }
        check_uses(self, &mut scope, &mut report);
        report.has_unscoped_diff()
    }

    /// Whether the term is a combinator: closed, with the unscoped channels
    /// that it declares being those that it uses, and not a reference.
    pub fn is_combinator(&self) -> (r: bool)
        ensures
            r == combinator(self@),
    {
        let mut scope: Vec<Name> = Vec::new();
        let mut report = ScopeReport::new();
        proof {
            assert(idents(scope@) =~= Seq::empty());
            lemma_followed_empty(scan(self@, Seq::empty()));
        }
        check_uses(self, &mut scope, &mut report);
        let is_ref = match self {
            Term::Ref { .. } => true,
            _ => false,
        };
        report.unbound.len() == 0 && !report.has_unscoped_diff() && !is_ref
    }
}

/// What the floating of a rule goes by: the definitions as they were before
/// the pass, the name of the definition that the rule belongs to, and
/// whether that definition is built in.
pub struct FloatEnv {
    pub defs: Seq<DefinitionView>,
    pub def_name: Ident,
    pub builtin: bool,
}

/// What the floating of a definition carries along: the number of the next
/// combinator and the definitions made so far.
pub struct FloatState {
    pub next: nat,
    pub combs: Seq<DefinitionView>,
}

/// A term after floating, with what is carried along.
pub struct Floated {
    pub term: TermView,
    pub state: FloatState,
}

/// Terms after floating, with what is carried along.
pub struct FloatedTerms {
    pub terms: Seq<TermView>,
    pub state: FloatState,
}

/// Arms after floating, with what is carried along.
pub struct FloatedArms {
    pub arms: Seq<ArmView>,
    pub state: FloatState,
}

/// The name of a combinator: the name of the definition it comes from,
/// `$C`, and its number.
pub open spec fn comb_name(def_name: Ident, n: nat) -> Ident {
    def_name + seq!['$', 'C'] + decimal(n)
}

/// The definition of a combinator: one rule, without patterns, with the
/// term as its body.
pub open spec fn comb_definition(name: Ident, body: TermView, builtin: bool) -> DefinitionView {
    DefinitionView { name, rules: seq![RuleView { pats: Seq::empty(), body }], builtin }
}

/// A term moved out: a definition is made for it, under the next name, and
/// a reference to that definition takes its place.
pub open spec fn extract(t: TermView, env: FloatEnv, st: FloatState) -> Floated {
    let name = comb_name(env.def_name, st.next);
    Floated {
        term: TermView::Ref { nam: name },
        state: FloatState {
            next: st.next + 1,
            combs: st.combs.push(comb_definition(name, t, env.builtin)),
        },
    }
}

/// The floating of a term that is a float child: first inside it; after
/// that, where what is left is a combinator and is not safe, it is moved
/// out. Whether it is safe is judged from the term alone, on no chain of
/// references.
pub open spec fn floated_child(t: TermView, env: FloatEnv, st: FloatState) -> Floated
    decreases t, 1nat,
{
    let inner = floated_term(t, env, st);
    if combinator(inner.term) && !safety(inner.term, env.defs, Set::empty()) {
        extract(inner.term, env, inner.state)
    } else {
        inner
    }
}

/// The floating inside a term: of each of its float children, in their
/// order.
///
/// The float children of an application are its argument and those of the
/// spine of its function. Those of a lambda and of a channel declaration
/// are those of the body. Those of the other terms are their subterms, in
/// the order in which the term holds them.
pub open spec fn floated_term(t: TermView, env: FloatEnv, st: FloatState) -> Floated
    decreases t, 0nat,
{
    match t {
        TermView::App { tag, fun, arg } => {
            let a = floated_child(*arg, env, st);
            let f = floated_spine(*fun, env, a.state);
            Floated {
                term: TermView::App { tag, fun: Box::new(f.term), arg: Box::new(a.term) },
                state: f.state,
            }
        },
        TermView::Lam { tag, nam, bod } => {
            let b = floated_term(*bod, env, st);
            Floated { term: TermView::Lam { tag, nam, bod: Box::new(b.term) }, state: b.state }
        },
        TermView::Chn { tag, nam, bod } => {
            let b = floated_term(*bod, env, st);
            Floated { term: TermView::Chn { tag, nam, bod: Box::new(b.term) }, state: b.state }
        },
        TermView::Mat { arg, bnd, with, arms } => {
            let a = floated_child(*arg, env, st);
            let r = floated_arms(arms, arms.len() as int, env, a.state);
            Floated {
                term: TermView::Mat { arg: Box::new(a.term), bnd, with, arms: r.arms },
                state: r.state,
            }
        },
        TermView::Swt { arg, bnd, with, pred, arms } => {
            let a = floated_child(*arg, env, st);
            let r = floated_terms(arms, arms.len() as int, env, a.state);
            Floated {
                term: TermView::Swt { arg: Box::new(a.term), bnd, with, pred, arms: r.terms },
                state: r.state,
            }
        },
        TermView::Tup { els } => {
            let r = floated_terms(els, els.len() as int, env, st);
            Floated { term: TermView::Tup { els: r.terms }, state: r.state }
        },
        TermView::Sup { tag, els } => {
            let r = floated_terms(els, els.len() as int, env, st);
            Floated { term: TermView::Sup { tag, els: r.terms }, state: r.state }
        },
        TermView::Lst { els } => {
            let r = floated_terms(els, els.len() as int, env, st);
            Floated { term: TermView::Lst { els: r.terms }, state: r.state }
        },
        TermView::Ltp { bnd, val, nxt } => {
            let v = floated_child(*val, env, st);
            let n = floated_child(*nxt, env, v.state);
            Floated {
                term: TermView::Ltp { bnd, val: Box::new(v.term), nxt: Box::new(n.term) },
                state: n.state,
            }
        },
        TermView::Let { nam, val, nxt } => {
            let v = floated_child(*val, env, st);
            let n = floated_child(*nxt, env, v.state);
            Floated {
                term: TermView::Let { nam, val: Box::new(v.term), nxt: Box::new(n.term) },
                state: n.state,
            }
        },
        TermView::Use { nam, val, nxt } => {
            let v = floated_child(*val, env, st);
            let n = floated_child(*nxt, env, v.state);
            Floated {
                term: TermView::Use { nam, val: Box::new(v.term), nxt: Box::new(n.term) },
                state: n.state,
            }
        },
        TermView::Dup { tag, bnd, val, nxt } => {
            let v = floated_child(*val, env, st);
            let n = floated_child(*nxt, env, v.state);
            Floated {
                term: TermView::Dup { tag, bnd, val: Box::new(v.term), nxt: Box::new(n.term) },
                state: n.state,
            }
        },
        TermView::Opx { opr, fst, snd } => {
            let v = floated_child(*fst, env, st);
            let n = floated_child(*snd, env, v.state);
            Floated {
                term: TermView::Opx { opr, fst: Box::new(v.term), snd: Box::new(n.term) },
                state: n.state,
            }
        },
        _ => Floated { term: t, state: st },
    }
}

/// The floating along the spine of an application: where the function is
/// itself an application, of its argument and then along its own function;
/// else of the function, the head of the spine, as a float child.
pub open spec fn floated_spine(t: TermView, env: FloatEnv, st: FloatState) -> Floated
    decreases t, 2nat,
{
    match t {
        TermView::App { tag, fun, arg } => {
            let a = floated_child(*arg, env, st);
            let f = floated_spine(*fun, env, a.state);
            Floated {
                term: TermView::App { tag, fun: Box::new(f.term), arg: Box::new(a.term) },
                state: f.state,
            }
        },
        _ => floated_child(t, env, st),
    }
}

/// The floating of the first `n` terms of a list, each as a float child,
/// one after another.
pub open spec fn floated_terms(
    ts: Seq<TermView>,
    n: int,
    env: FloatEnv,
    st: FloatState,
) -> FloatedTerms
    decreases ts, n,
{
    if n <= 0 || n > ts.len() {
        FloatedTerms { terms: Seq::empty(), state: st }
    } else {
        let before = floated_terms(ts, n - 1, env, st);
        let last = floated_child(ts[n - 1], env, before.state);
        FloatedTerms { terms: before.terms.push(last.term), state: last.state }
    }
}

/// The floating of the bodies of the first `n` arms of a match, each as a
/// float child, one after another.
pub open spec fn floated_arms(
    arms: Seq<ArmView>,
    n: int,
    env: FloatEnv,
    st: FloatState,
) -> FloatedArms
    decreases arms, n,
{
    if n <= 0 || n > arms.len() {
        FloatedArms { arms: Seq::empty(), state: st }
    } else {
        let before = floated_arms(arms, n - 1, env, st);
        let last = floated_child(arms[n - 1].body, env, before.state);
        FloatedArms {
            arms: before.arms.push(
                ArmView { ctr: arms[n - 1].ctr, fields: arms[n - 1].fields, body: last.term },
            ),
            state: last.state,
        }
    }
}

/// What is carried along, as the executable pass holds it.
pub open spec fn float_state(name_gen: usize, combinators: Seq<Definition>) -> FloatState {
    FloatState { next: name_gen as nat, combs: definitions_view(combinators) }
}

/// Inserts a new definition for the given term in the list of combinators,
/// and puts a reference to it in the term's place.
pub fn float_combinator(
    def_name: &Name,
    name_gen: &mut usize,
    term: &mut Term,
    builtin: bool,
    combinators: &mut Vec<Definition>,
)
    requires
        *old(name_gen) < usize::MAX || *old(name_gen) <= old(combinators).len(),
    ensures
        *final(name_gen) == *old(name_gen) + 1,
        final(combinators).len() == old(combinators).len() + 1,
        final(term)@ == (TermView::Ref { nam: comb_name(def_name@, *old(name_gen) as nat) }),
        definitions_view(final(combinators)@) == definitions_view(old(combinators)@).push(
            comb_definition(comb_name(def_name@, *old(name_gen) as nat), old(term)@, builtin),
        ),
{
    let mut text = def_name.0.clone();
    proof {
        reveal_strlit("$C");
    }
    text.append("$C");
    write_decimal(&mut text, *name_gen as u64);
    assert(text@ =~= comb_name(def_name@, *name_gen as nat));
    let mut extracted_term = Term::Ref { nam: Name(text.clone()) };
    std::mem::swap(term, &mut extracted_term);
    let mut rules: Vec<Rule> = Vec::new();
    rules.push(Rule { body: extracted_term, pats: Vec::new() });
    let rule = Definition { name: Name(text), rules, builtin };
    proof {
        assert(rule.rules@[0]@.pats =~= Seq::empty());
        assert(rule@.rules =~= seq![RuleView { pats: Seq::empty(), body: old(term)@ }]);
    }
    combinators.push(rule);
    // The counter is below the largest number, or it has not run ahead of
    // the list, which has just grown: either way it can be counted on.
    let made: usize = combinators.len();
    assert(*name_gen < usize::MAX) by {
        if *name_gen <= old(combinators).len() {
            assert(*name_gen < made);
        }
    }
    *name_gen += 1;
    proof {
        assert(definitions_view(combinators@) =~= definitions_view(old(combinators)@).push(
            comb_definition(comb_name(def_name@, *old(name_gen) as nat), old(term)@, builtin),
        ));
    }
}

/// Floats a term that is a float child: first inside it; after that, where
/// what is left is a combinator and is not safe, moves it out.
pub fn float_child(
    term: &mut Term,
    combinators: &mut Vec<Definition>,
    name_gen: &mut usize,
    book: &Book,
    def_name: &Name,
    builtin: bool,
)
    requires
        *old(name_gen) <= old(combinators).len(),
    ensures
        *final(name_gen) <= final(combinators).len(),
        final(term)@ == floated_child(
            old(term)@,
            FloatEnv { defs: book@.defs, def_name: def_name@, builtin },
            float_state(*old(name_gen), old(combinators)@),
        ).term,
        float_state(*final(name_gen), final(combinators)@) == floated_child(
            old(term)@,
            FloatEnv { defs: book@.defs, def_name: def_name@, builtin },
            float_state(*old(name_gen), old(combinators)@),
        ).state,
    decreases *old(term), 1nat,
{
    term.float_combinators(combinators, name_gen, book, def_name, builtin);
    if term.is_combinator() {
        let mut seen = seen_new();
        if !term.is_safe(book, &mut seen) {
            float_combinator(def_name, name_gen, term, builtin, combinators);
        }
    }
}

/// Floats along the spine of an application.
fn float_spine(
    term: &mut Term,
    combinators: &mut Vec<Definition>,
    name_gen: &mut usize,
    book: &Book,
    def_name: &Name,
    builtin: bool,
)
    requires
        *old(name_gen) <= old(combinators).len(),
    ensures
        *final(name_gen) <= final(combinators).len(),
        final(term)@ == floated_spine(
            old(term)@,
            FloatEnv { defs: book@.defs, def_name: def_name@, builtin },
            float_state(*old(name_gen), old(combinators)@),
        ).term,
        float_state(*final(name_gen), final(combinators)@) == floated_spine(
            old(term)@,
            FloatEnv { defs: book@.defs, def_name: def_name@, builtin },
            float_state(*old(name_gen), old(combinators)@),
        ).state,
    decreases *old(term), 2nat,
{
    let is_app = match term {
        Term::App { .. } => true,
        _ => false,
    };
    if is_app {
        match term {
            Term::App { tag: _, fun, arg } => {
                float_child(arg, combinators, name_gen, book, def_name, builtin);
                float_spine(fun, combinators, name_gen, book, def_name, builtin);
            },
            _ => {},
        }
    } else {
        float_child(term, combinators, name_gen, book, def_name, builtin);
    }
}

/// Floats the terms of a list, each as a float child, one after another.
fn float_in_terms(
    ts: &mut Vec<Term>,
    combinators: &mut Vec<Definition>,
    name_gen: &mut usize,
    book: &Book,
    def_name: &Name,
    builtin: bool,
)
    requires
        *old(name_gen) <= old(combinators).len(),
    ensures
        *final(name_gen) <= final(combinators).len(),
        terms_view(final(ts)@) == floated_terms(
            terms_view(old(ts)@),
            old(ts).len() as int,
            FloatEnv { defs: book@.defs, def_name: def_name@, builtin },
            float_state(*old(name_gen), old(combinators)@),
        ).terms,
        float_state(*final(name_gen), final(combinators)@) == floated_terms(
            terms_view(old(ts)@),
            old(ts).len() as int,
            FloatEnv { defs: book@.defs, def_name: def_name@, builtin },
            float_state(*old(name_gen), old(combinators)@),
        ).state,
    decreases *old(ts), 3nat,
{
    let ghost before = ts@;
    let ghost views = terms_view(before);
    let ghost env = FloatEnv { defs: book@.defs, def_name: def_name@, builtin };
    let ghost st = float_state(*name_gen, combinators@);
    let mut i: usize = 0;
    proof {
        assert(terms_view(ts@).take(0) =~= floated_terms(views, 0, env, st).terms);
    }
    while i < ts.len()
        invariant
            i <= ts.len(),
            ts.len() == before.len(),
            before == old(ts)@,
            views == terms_view(before),
            env == (FloatEnv { defs: book@.defs, def_name: def_name@, builtin }),
            *name_gen <= combinators.len(),
            terms_view(ts@).take(i as int) == floated_terms(views, i as int, env, st).terms,
            float_state(*name_gen, combinators@) == floated_terms(
                views,
                i as int,
                env,
                st,
            ).state,
            forall|j: int| i <= j < ts.len() ==> ts@[j] == before[j],
        decreases ts.len() - i,
    {
        let ghost prior = terms_view(ts@);
        proof {
            assert(ts@[i as int] == old(ts)@[i as int]);
            assert(decreases_to!(*old(ts) => old(ts)@[i as int]));
        }
        float_child(&mut ts[i], combinators, name_gen, book, def_name, builtin);
        proof {
            assert(terms_view(ts@).take(i as int) =~= prior.take(i as int));
            assert(terms_view(ts@).take(i + 1) =~= prior.take(i as int).push(
                terms_view(ts@)[i as int],
            ));
        }
        i += 1;
    }
    proof {
        assert(terms_view(ts@).take(ts.len() as int) =~= terms_view(ts@));
    }
}

/// Floats the bodies of the arms of a match, each as a float child, one
/// after another.
fn float_in_arms(
    arms: &mut Vec<MatchRule>,
    combinators: &mut Vec<Definition>,
    name_gen: &mut usize,
    book: &Book,
    def_name: &Name,
    builtin: bool,
)
    requires
        *old(name_gen) <= old(combinators).len(),
    ensures
        *final(name_gen) <= final(combinators).len(),
        arms_view(final(arms)@) == floated_arms(
            arms_view(old(arms)@),
            old(arms).len() as int,
            FloatEnv { defs: book@.defs, def_name: def_name@, builtin },
            float_state(*old(name_gen), old(combinators)@),
        ).arms,
        float_state(*final(name_gen), final(combinators)@) == floated_arms(
            arms_view(old(arms)@),
            old(arms).len() as int,
            FloatEnv { defs: book@.defs, def_name: def_name@, builtin },
            float_state(*old(name_gen), old(combinators)@),
        ).state,
    decreases *old(arms), 3nat,
{
    let ghost before = arms@;
    let ghost views = arms_view(before);
    let ghost env = FloatEnv { defs: book@.defs, def_name: def_name@, builtin };
    let ghost st = float_state(*name_gen, combinators@);
    let mut i: usize = 0;
    proof {
        assert(arms_view(arms@).take(0) =~= floated_arms(views, 0, env, st).arms);
    }
    while i < arms.len()
        invariant
            i <= arms.len(),
            arms.len() == before.len(),
            before == old(arms)@,
            views == arms_view(before),
            env == (FloatEnv { defs: book@.defs, def_name: def_name@, builtin }),
            *name_gen <= combinators.len(),
            arms_view(arms@).take(i as int) == floated_arms(views, i as int, env, st).arms,
            float_state(*name_gen, combinators@) == floated_arms(
                views,
                i as int,
                env,
                st,
            ).state,
            forall|j: int| i <= j < arms.len() ==> arms@[j] == before[j],
        decreases arms.len() - i,
    {
        let ghost prior = arms_view(arms@);
        proof {
            assert(arms@[i as int] == old(arms)@[i as int]);
            assert(decreases_to!(*old(arms) => old(arms)@[i as int]));
            assert(decreases_to!(old(arms)@[i as int] => old(arms)@[i as int].2));
        }
        float_child(&mut arms[i].2, combinators, name_gen, book, def_name, builtin);
        proof {
            assert(arms_view(arms@).take(i as int) =~= prior.take(i as int));
            assert(arms_view(arms@).take(i + 1) =~= prior.take(i as int).push(
                arms_view(arms@)[i as int],
            ));
        }
        i += 1;
    }
    proof {
        assert(arms_view(arms@).take(arms.len() as int) =~= arms_view(arms@));
    }
}

impl Term {
    /// Floats inside the term: each of its float children, in their order.
    pub fn float_combinators(
        &mut self,
        combinators: &mut Vec<Definition>,
        name_gen: &mut usize,
        book: &Book,
        def_name: &Name,
        builtin: bool,
        )
        requires
            *old(name_gen) <= old(combinators).len(),
        ensures
            *final(name_gen) <= final(combinators).len(),
            final(self)@ == floated_term(
                old(self)@,
                FloatEnv { defs: book@.defs, def_name: def_name@, builtin },
                float_state(*old(name_gen), old(combinators)@),
            ).term,
            float_state(*final(name_gen), final(combinators)@) == floated_term(
                old(self)@,
                FloatEnv { defs: book@.defs, def_name: def_name@, builtin },
                float_state(*old(name_gen), old(combinators)@),
            ).state,
        decreases *old(self), 0nat,
    {
        match self {
            Term::App { tag: _, fun, arg } => {
                float_child(arg, combinators, name_gen, book, def_name, builtin);
                float_spine(fun, combinators, name_gen, book, def_name, builtin);
            },
            Term::Lam { tag: _, nam: _, bod } => {
                bod.float_combinators(combinators, name_gen, book, def_name, builtin);
            },
            Term::Chn { tag: _, nam: _, bod } => {
                bod.float_combinators(combinators, name_gen, book, def_name, builtin);
            },
            Term::Mat { arg, bnd: _, with: _, arms } => {
                float_child(arg, combinators, name_gen, book, def_name, builtin);
                float_in_arms(arms, combinators, name_gen, book, def_name, builtin);
            },
            Term::Swt { arg, bnd: _, with: _, pred: _, arms } => {
                float_child(arg, combinators, name_gen, book, def_name, builtin);
                float_in_terms(arms, combinators, name_gen, book, def_name, builtin);
            },
            Term::Tup { els } => {
                float_in_terms(els, combinators, name_gen, book, def_name, builtin);
            },
            Term::Sup { tag: _, els } => {
                float_in_terms(els, combinators, name_gen, book, def_name, builtin);
            },
            Term::Lst { els } => {
                float_in_terms(els, combinators, name_gen, book, def_name, builtin);
            },
            Term::Ltp { bnd: _, val, nxt } => {
                float_child(val, combinators, name_gen, book, def_name, builtin);
                float_child(nxt, combinators, name_gen, book, def_name, builtin);
            },
            Term::Let { nam: _, val, nxt } => {
                float_child(val, combinators, name_gen, book, def_name, builtin);
                float_child(nxt, combinators, name_gen, book, def_name, builtin);
            },
            Term::Use { nam: _, val, nxt } => {
                float_child(val, combinators, name_gen, book, def_name, builtin);
                float_child(nxt, combinators, name_gen, book, def_name, builtin);
            },
            Term::Dup { tag: _, bnd: _, val, nxt } => {
                float_child(val, combinators, name_gen, book, def_name, builtin);
                float_child(nxt, combinators, name_gen, book, def_name, builtin);
            },
            Term::Opx { opr: _, fst, snd } => {
                float_child(fst, combinators, name_gen, book, def_name, builtin);
                float_child(snd, combinators, name_gen, book, def_name, builtin);
            },
            Term::Var { .. } => {},
            Term::Lnk { .. } => {},
            Term::Num { .. } => {},
            Term::Nat { .. } => {},
            Term::Str { .. } => {},
            Term::Ref { .. } => {},
            Term::Era => {},
            Term::Error => {},
        }
    }
}

/// Rules after floating, with what is carried along.
pub struct FloatedRules {
    pub rules: Seq<RuleView>,
    pub state: FloatState,
}

/// Definitions after floating, with the combinators made.
pub struct FloatedDefs {
    pub defs: Seq<DefinitionView>,
    pub combs: Seq<DefinitionView>,
}

/// The floating inside the bodies of the first `n` rules of a definition,
/// one after another. The body of a rule is itself never moved out.
pub open spec fn floated_rules(
    rules: Seq<RuleView>,
    n: int,
    env: FloatEnv,
    st: FloatState,
) -> FloatedRules
    decreases n,
{
    if n <= 0 || n > rules.len() {
        FloatedRules { rules: Seq::empty(), state: st }
    } else {
        let before = floated_rules(rules, n - 1, env, st);
        let last = floated_term(rules[n - 1].body, env, before.state);
        FloatedRules {
            rules: before.rules.push(RuleView { pats: rules[n - 1].pats, body: last.term }),
            state: last.state,
        }
    }
}

/// Whether a definition is the one where the program starts.
pub open spec fn is_entrypoint(entrypoint: Option<Ident>, name: Ident) -> bool {
    entrypoint == Some(name)
}

/// The floating of the first `n` definitions, one after another, `defs`
/// being all the definitions as they were before the pass. For each
/// definition the combinators are numbered from 0. The definition where the
/// program starts is left as it is.
pub open spec fn floated_defs(
    defs: Seq<DefinitionView>,
    n: int,
    entrypoint: Option<Ident>,
) -> FloatedDefs
    decreases n,
{
    if n <= 0 || n > defs.len() {
        FloatedDefs { defs: Seq::empty(), combs: Seq::empty() }
    } else {
        let before = floated_defs(defs, n - 1, entrypoint);
        let d = defs[n - 1];
        if is_entrypoint(entrypoint, d.name) {
            FloatedDefs { defs: before.defs.push(d), combs: before.combs }
        } else {
            let r = floated_rules(
                d.rules,
                d.rules.len() as int,
                FloatEnv { defs, def_name: d.name, builtin: d.builtin },
                FloatState { next: 0, combs: before.combs },
            );
            FloatedDefs {
                defs: before.defs.push(
                    DefinitionView { name: d.name, rules: r.rules, builtin: d.builtin },
                ),
                combs: r.state.combs,
            }
        }
    }
}

/// The definitions of a book after floating: the definitions, floated,
/// with the combinators inserted into them in the order of their names.
pub open spec fn floated_book(defs: Seq<DefinitionView>, entrypoint: Option<Ident>) -> Seq<
    DefinitionView,
> {
    let r = floated_defs(defs, defs.len() as int, entrypoint);
    let made = sorted_defs(r.combs, r.combs.len() as int);
    insert_defs(r.defs, made, made.len() as int)
}

impl Definition {
    /// Floats inside the bodies of the rules of the definition.
    fn float_combinators(&mut self, combinators: &mut Vec<Definition>, book: &Book)
        ensures
            ({
                let r = floated_rules(
                    old(self)@.rules,
                    old(self)@.rules.len() as int,
                    FloatEnv {
                        defs: book@.defs,
                        def_name: old(self)@.name,
                        builtin: old(self)@.builtin,
                    },
                    FloatState { next: 0, combs: definitions_view(old(combinators)@) },
                );
                &&& final(self)@ == (DefinitionView {
                    name: old(self)@.name,
                    rules: r.rules,
                    builtin: old(self)@.builtin,
                })
                &&& definitions_view(final(combinators)@) == r.state.combs
            }),
    {
        let ghost before = self@;
        let ghost env = FloatEnv { defs: book@.defs, def_name: before.name, builtin: before.builtin };
        let ghost st = FloatState { next: 0, combs: definitions_view(combinators@) };
        let mut name_gen: usize = 0;
        let def_name = self.name.clone();
        let builtin = self.builtin;
        let mut j: usize = 0;
        proof {
            assert(rules_view(self.rules@).take(0) =~= floated_rules(
                before.rules,
                0,
                env,
                st,
            ).rules);
        }
        while j < self.rules.len()
            invariant
                j <= self.rules.len(),
                self.rules.len() == before.rules.len(),
                before == old(self)@,
                self.name@ == before.name,
                self.builtin == before.builtin,
                def_name@ == before.name,
                builtin == before.builtin,
                env == (FloatEnv { defs: book@.defs, def_name: before.name, builtin: before.builtin }),
                name_gen <= combinators.len(),
                rules_view(self.rules@).take(j as int) == floated_rules(
                    before.rules,
                    j as int,
                    env,
                    st,
                ).rules,
                float_state(name_gen, combinators@) == floated_rules(
                    before.rules,
                    j as int,
                    env,
                    st,
                ).state,
                forall|k: int| j <= k < self.rules.len() ==>
                    (#[trigger] self.rules@[k])@ == before.rules[k],
            decreases self.rules.len() - j,
        {
            let ghost prior = self.rules@;
            self.rules[j].body.float_combinators(
                combinators,
                &mut name_gen,
                book,
                &def_name,
                builtin,
            );
            proof {
                let now = rules_view(self.rules@);
                let was = rules_view(prior);
                assert forall|k: int| 0 <= k < self.rules.len() && k != j implies (
                    #[trigger] self.rules@[k]) == prior[k] by {}
                assert(self.rules@[j as int].pats == prior[j as int].pats);
                assert(now.take(j as int) =~= was.take(j as int));
                assert(now.take(j + 1) =~= was.take(j as int).push(now[j as int]));
            }
            j += 1;
        }
        proof {
            let now = rules_view(self.rules@);
            assert(now.take(self.rules.len() as int) =~= now);
        }
    }
}

impl Book {
    /// Extracts unsafe terms into new definitions.
    ///
    /// The floating algorithm follows these rules:
    /// - Recursively float every child term.
    /// - Extract if it is a combinator and is not a safe term.
    /// See [`Term::is_safe`] for what is considered safe here.
    ///
    /// The definition where the program starts is not floated. The new
    /// definitions are inserted when all definitions have been floated, in
    /// the order of their names.
    pub fn float_combinators(&mut self)
        ensures
            final(self)@.defs == floated_book(old(self)@.defs, old(self)@.entrypoint),
            final(self)@.adts == old(self)@.adts,
            final(self)@.ctrs == old(self)@.ctrs,
            final(self)@.entrypoint == old(self)@.entrypoint,
    {
        let ghost before = self@.defs;
        let ghost entry = self@.entrypoint;
        let mut combinators: Vec<Definition> = Vec::new();
        let slf = Book {
            defs: self.defs.clone(),
            adts: Vec::new(),
            ctrs: Vec::new(),
            entrypoint: None,
        };
        let mut i: usize = 0;
        proof {
            assert(self.defs@.take(0) =~= floated_defs(before, 0, entry).defs);
            assert(definitions_view(combinators@) =~= floated_defs(before, 0, entry).combs);
        }
        while i < self.defs.defs.len()
            invariant
                i <= self.defs.defs.len(),
                self.defs.defs.len() == before.len(),
                before == old(self)@.defs,
                entry == old(self)@.entrypoint,
                slf@.defs == before,
                self.adts == old(self).adts,
                self.ctrs == old(self).ctrs,
                self.entrypoint == old(self).entrypoint,
                self.defs@.take(i as int) == floated_defs(before, i as int, entry).defs,
                definitions_view(combinators@) == floated_defs(before, i as int, entry).combs,
                forall|k: int| i <= k < before.len() ==>
                    (#[trigger] self.defs.defs@[k])@ == before[k],
            decreases self.defs.defs.len() - i,
        {
            let ghost prior = self.defs.defs@;
            let skip = match &self.entrypoint {
                Some(m) => m.same(&self.defs.defs[i].name),
                None => false,
            };
            if !skip {
                self.defs.defs[i].float_combinators(&mut combinators, &slf);
            }
            proof {
                let now = self.defs@;
                let was = definitions_view(prior);
                assert forall|k: int| 0 <= k < before.len() && k != i implies (
                    #[trigger] self.defs.defs@[k]) == prior[k] by {}
                assert(now.take(i as int) =~= was.take(i as int));
                assert(now.take(i + 1) =~= was.take(i as int).push(now[i as int]));
            }
            i += 1;
        }
        proof {
            assert(self.defs@.take(before.len() as int) =~= self.defs@);
        }
        // Put the new definitions in the order of their names.
        let ghost floated = self.defs@;
        let ghost made = definitions_view(combinators@);
        let mut rest = reversed(combinators);
        let mut sorted: Vec<Definition> = Vec::new();
        proof {
            assert(definitions_view(sorted@) =~= sorted_defs(made, 0));
        }
        while rest.len() > 0
            invariant
                rest.len() <= made.len(),
                forall|k: int|
                    0 <= k < rest.len() ==> (#[trigger] rest@[k])@ == made[made.len() - 1 - k],
                definitions_view(sorted@) == sorted_defs(made, made.len() - rest.len()),
            decreases rest.len(),
        {
            let d = rest.pop().unwrap();
            insert_sorted(&mut sorted, d);
        }
        // Merge the new definitions into the book.
        let ghost ordered = definitions_view(sorted@);
        let mut rest = reversed(sorted);
        while rest.len() > 0
            invariant
                rest.len() <= ordered.len(),
                self.adts == old(self).adts,
                self.ctrs == old(self).ctrs,
                self.entrypoint == old(self).entrypoint,
                forall|k: int|
                    0 <= k < rest.len() ==> (#[trigger] rest@[k])@ == ordered[ordered.len() - 1
                        - k],
                self.defs@ == insert_defs(floated, ordered, ordered.len() - rest.len()),
            decreases rest.len(),
        {
            let d = rest.pop().unwrap();
            self.defs.insert(d);
        }
    }
}

} // verus!
