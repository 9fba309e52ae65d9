//! What a book holds after the floating of combinators: the definitions
//! that it held, floated, and after them the combinators that were made,
//! each under its own name.
use vstd::prelude::*;
use crate::term::book::{
    def_names, find_def, insert_def, insert_defs, lemma_position_absent, lemma_position_found,
    sorted_defs, sorted_position_from, DefinitionView, RuleView,
};
use crate::term::text::decimal;
use crate::term::transform::float_combinators::{
    comb_name, floated_book, floated_defs, floated_rules, floated_term, is_entrypoint, FloatEnv,
    FloatState,
};
use crate::term::subst::arm_with_body;
use crate::term::transform::unfloat::{
    comb_body, comb_number, combs_before, inlined, inlined_arms, inlined_terms, is_made,
    lemma_comb_name_injective, lemma_comb_number, lemma_float_invariance,
    lemma_made_transitive, lemma_term_makes_combinators, made_between, prefix_of,
    rules_mention_none,
};
use crate::term::{name_le, ArmView, Ident, TermView};

verus! {

/// No character of the decimal text of a number is `$`.
proof fn lemma_decimal_digits(n: nat, i: int)
    requires
        0 <= i < decimal(n).len(),
    ensures
        decimal(n)[i] != '$',
    decreases n,
{
    if n >= 10 {
        if i < decimal(n / 10).len() {
            lemma_decimal_digits(n / 10, i);
        }
    }
}

/// Two combinators with the same name are combinators of definitions with
/// the same name, and have the same number.
pub proof fn lemma_comb_names_differ(d1: Ident, k1: nat, d2: Ident, k2: nat)
    requires
        comb_name(d1, k1) == comb_name(d2, k2),
    ensures
        d1 == d2,
        k1 == k2,
{
    let s = comb_name(d1, k1);
    let x1 = decimal(k1);
    let x2 = decimal(k2);
    assert(s == d1 + seq!['$', 'C'] + x1);
    assert(s == d2 + seq!['$', 'C'] + x2);
    assert(s.len() == d1.len() + 2 + x1.len());
    assert(s.len() == d2.len() + 2 + x2.len());
    if d1.len() < d2.len() {
        let at = d2.len() as int;
        assert((d2 + seq!['$', 'C'] + x2)[at] == '$');
        if at == d1.len() + 1 {
            assert((d1 + seq!['$', 'C'] + x1)[at] == 'C');
        } else {
            assert((d1 + seq!['$', 'C'] + x1)[at] == x1[at - d1.len() - 2]);
            lemma_decimal_digits(k1, at - d1.len() - 2);
        }
        assert(false);
    }
    if d2.len() < d1.len() {
        let at = d1.len() as int;
        assert((d1 + seq!['$', 'C'] + x1)[at] == '$');
        if at == d2.len() + 1 {
            assert((d2 + seq!['$', 'C'] + x2)[at] == 'C');
        } else {
            assert((d2 + seq!['$', 'C'] + x2)[at] == x2[at - d2.len() - 2]);
            lemma_decimal_digits(k2, at - d2.len() - 2);
        }
        assert(false);
    }
    assert(d1 =~= s.subrange(0, d1.len() as int));
    assert(d2 =~= s.subrange(0, d2.len() as int));
    lemma_comb_name_injective(d1, k1, k2);
}

/// Every definition that the floating inside the bodies of the first `n`
/// rules of a definition makes is the combinator of its number.
proof fn lemma_rules_make_combinators(
    rules: Seq<RuleView>,
    n: int,
    env: FloatEnv,
    st: FloatState,
)
    requires
        0 <= n <= rules.len(),
    ensures
        made_between(st, floated_rules(rules, n, env, st).state, env),
    decreases n,
{
    if n > 0 {
        lemma_rules_make_combinators(rules, n - 1, env, st);
        let before = floated_rules(rules, n - 1, env, st);
        lemma_term_makes_combinators(rules[n - 1].body, env, before.state);
        let last = floated_term(rules[n - 1].body, env, before.state);
        lemma_made_transitive(st, before.state, last.state, env);
    }
}

/// What the floating of the definition at the position `i` goes by.
pub open spec fn env_of(defs: Seq<DefinitionView>, i: int) -> FloatEnv {
    FloatEnv { defs, def_name: defs[i].name, builtin: defs[i].builtin }
}

/// Whether the definition `c`, the one at the position `j` among the
/// combinators made, is the combinator with the number `k` of the
/// definition at the position `i` of the book: that definition is not the
/// one where the program starts, its combinators stand together, in the
/// order of their numbers, and `c` has the name, the one rule and the body
/// of a combinator, and is built in as its definition is.
pub open spec fn is_comb_of(
    defs: Seq<DefinitionView>,
    entrypoint: Option<Ident>,
    c: DefinitionView,
    j: int,
    i: int,
    k: int,
) -> bool {
    &&& 0 <= i < defs.len()
    &&& !is_entrypoint(entrypoint, defs[i].name)
    &&& 0 <= k
    &&& j == combs_before(defs, i, entrypoint) + k
    &&& j < combs_before(defs, i + 1, entrypoint)
    &&& is_made(c, env_of(defs, i), k)
}

/// Whether the definition `c`, the one at the position `j` among the
/// combinators made, is a combinator of one of the definitions of the
/// book.
pub open spec fn made_by_floating(
    defs: Seq<DefinitionView>,
    entrypoint: Option<Ident>,
    c: DefinitionView,
    j: int,
) -> bool {
    exists|i: int, k: int| #[trigger] is_comb_of(defs, entrypoint, c, j, i, k)
}

/// Every definition that the floating of the first `n` definitions makes
/// is a combinator of one of them; and the combinators with the numbers
/// from 0 up to the number made stand there for each definition.
pub proof fn lemma_defs_make_combinators(
    defs: Seq<DefinitionView>,
    n: int,
    entrypoint: Option<Ident>,
)
    requires
        0 <= n <= defs.len(),
    ensures
        forall|j: int|
            0 <= j < floated_defs(defs, n, entrypoint).combs.len() ==> made_by_floating(
                defs,
                entrypoint,
                #[trigger] floated_defs(defs, n, entrypoint).combs[j],
                j,
            ),
        forall|i: int|
            0 <= i < n ==> prefix_of(
                #[trigger] floated_defs(defs, i, entrypoint).combs,
                floated_defs(defs, n, entrypoint).combs,
            ),
    decreases n,
{
    if n > 0 {
        lemma_defs_make_combinators(defs, n - 1, entrypoint);
        let before = floated_defs(defs, n - 1, entrypoint);
        let r = floated_defs(defs, n, entrypoint);
        let d = defs[n - 1];
        assert(combs_before(defs, n - 1, entrypoint) == before.combs.len());
        assert(combs_before(defs, n, entrypoint) == r.combs.len());
        if !is_entrypoint(entrypoint, d.name) {
            let env = env_of(defs, n - 1);
            let st = FloatState { next: 0, combs: before.combs };
            lemma_rules_make_combinators(d.rules, d.rules.len() as int, env, st);
            let fr = floated_rules(d.rules, d.rules.len() as int, env, st);
            assert(r.combs == fr.state.combs);
        } else {
            assert(r.combs == before.combs);
        }
        assert(prefix_of(before.combs, r.combs));
        assert forall|j: int| 0 <= j < r.combs.len() implies made_by_floating(
            defs,
            entrypoint,
            #[trigger] r.combs[j],
            j,
        ) by {
            if j < before.combs.len() {
                assert(r.combs[j] == before.combs[j]);
                assert(made_by_floating(defs, entrypoint, before.combs[j], j));
            } else {
                let k = j - before.combs.len();
                assert(is_comb_of(defs, entrypoint, r.combs[j], j, n - 1, k));
            }
        }
        assert forall|i: int| 0 <= i < n implies prefix_of(
            #[trigger] floated_defs(defs, i, entrypoint).combs,
            r.combs,
        ) by {
            if i < n - 1 {
                assert(prefix_of(floated_defs(defs, i, entrypoint).combs, before.combs));
            }
        }
    }
}

/// Whether no two definitions of a list have the same name.
pub open spec fn names_distinct(defs: Seq<DefinitionView>) -> bool {
    forall|a: int, b: int|
        0 <= a < b < defs.len() ==> (#[trigger] defs[a]).name != (#[trigger] defs[b]).name
}

/// Whether no definition of the book has the name of a combinator of a
/// definition of the book.
pub open spec fn names_fresh(defs: Seq<DefinitionView>) -> bool {
    forall|a: int, i: int, k: nat|
        0 <= a < defs.len() && 0 <= i < defs.len() ==> (#[trigger] defs[a]).name
            != #[trigger] comb_name(defs[i].name, k)
}

/// The combinators made have names of their own: no two of them have the
/// same name, and none has the name of a definition of the book.
pub proof fn lemma_comb_names_distinct(defs: Seq<DefinitionView>, entrypoint: Option<Ident>)
    requires
        names_distinct(defs),
        names_fresh(defs),
    ensures
        names_distinct(floated_defs(defs, defs.len() as int, entrypoint).combs),
        forall|a: int, j: int|
            0 <= a < defs.len() && 0 <= j < floated_defs(
                defs,
                defs.len() as int,
                entrypoint,
            ).combs.len() ==> (#[trigger] defs[a]).name != (#[trigger] floated_defs(
                defs,
                defs.len() as int,
                entrypoint,
            ).combs[j]).name,
{
    let combs = floated_defs(defs, defs.len() as int, entrypoint).combs;
    lemma_defs_make_combinators(defs, defs.len() as int, entrypoint);
    assert forall|a: int, b: int| 0 <= a < b < combs.len() implies (#[trigger] combs[a]).name != (
    #[trigger] combs[b]).name by {
        assert(made_by_floating(defs, entrypoint, combs[a], a));
        assert(made_by_floating(defs, entrypoint, combs[b], b));
        let (i1, k1) = choose|i: int, k: int| #[trigger]
            is_comb_of(defs, entrypoint, combs[a], a, i, k);
        let (i2, k2) = choose|i: int, k: int| #[trigger]
            is_comb_of(defs, entrypoint, combs[b], b, i, k);
        if combs[a].name == combs[b].name {
            lemma_comb_names_differ(defs[i1].name, k1 as nat, defs[i2].name, k2 as nat);
            if i1 != i2 {
                if i1 < i2 {
                    assert(defs[i1].name != defs[i2].name);
                } else {
                    assert(defs[i2].name != defs[i1].name);
                }
            }
            assert(a == b);
        }
    }
    assert forall|a: int, j: int| 0 <= a < defs.len() && 0 <= j < combs.len() implies (
    #[trigger] defs[a]).name != (#[trigger] combs[j]).name by {
        assert(made_by_floating(defs, entrypoint, combs[j], j));
        let (i, k) = choose|i: int, k: int| #[trigger]
            is_comb_of(defs, entrypoint, combs[j], j, i, k);
        assert(combs[j].name == comb_name(defs[i].name, k as nat));
    }
}

/// The position at which a definition goes into an ordered list lies in
/// the list or at its end.
proof fn lemma_sorted_position(defs: Seq<DefinitionView>, name: Ident, i: int)
    requires
        0 <= i <= defs.len(),
    ensures
        i <= sorted_position_from(defs, name, i) <= defs.len(),
    decreases defs.len() - i,
{
    if i < defs.len() && !name_le(name, defs[i].name) {
        lemma_sorted_position(defs, name, i + 1);
    }
}

/// Whether the lists hold the same definitions: the first holds every one
/// of the first `n` definitions of the second, and no others.
pub open spec fn holds_the_same(s: Seq<DefinitionView>, c: Seq<DefinitionView>, n: int) -> bool {
    &&& s.len() == n
    &&& forall|j: int| 0 <= j < n ==> s.contains(#[trigger] c[j])
    &&& forall|p: int| 0 <= p < s.len() ==> c.take(n).contains(#[trigger] s[p])
}

/// Putting definitions with names of their own in the order of their
/// names neither loses nor adds one.
pub proof fn lemma_sorted_defs(c: Seq<DefinitionView>, n: int)
    requires
        names_distinct(c),
        0 <= n <= c.len(),
    ensures
        holds_the_same(sorted_defs(c, n), c, n),
        names_distinct(sorted_defs(c, n)),
    decreases n,
{
    if n > 0 {
        lemma_sorted_defs(c, n - 1);
        let before = sorted_defs(c, n - 1);
        let d = c[n - 1];
        let p = sorted_position_from(before, d.name, 0);
        lemma_sorted_position(before, d.name, 0);
        assert forall|q: int| 0 <= q < before.len() implies (#[trigger] before[q]).name
            != d.name by {
            let front = c.take(n - 1);
            assert(front.contains(before[q]));
            let j = choose|j: int| 0 <= j < front.len() && front[j] == before[q];
            assert(c[j] == before[q]);
            assert(c[j].name != c[n - 1].name);
        }
        let after = sorted_defs(c, n);
        assert(after == before.insert(p, d));
        before.insert_ensures(p, d);
        assert(after[p] == d);
        assert forall|a: int, b: int| 0 <= a < b < after.len() implies (#[trigger] after[a]).name
            != (#[trigger] after[b]).name by {
            let oa = if a < p {
                a
            } else {
                a - 1
            };
            let ob = if b < p {
                b
            } else {
                b - 1
            };
            if a == p {
                assert(after[b] == before[ob]);
                assert(before[ob].name != d.name);
            } else if b == p {
                assert(after[a] == before[oa]);
                assert(before[oa].name != d.name);
            } else {
                assert(after[a] == before[oa]);
                assert(after[b] == before[ob]);
                assert(before[oa].name != before[ob].name);
            }
        }
        assert forall|q: int| 0 <= q < before.len() implies after.contains(
            #[trigger] before[q],
        ) by {
            if q < p {
                assert(after[q] == before[q]);
            } else {
                assert(after[q + 1] == before[q]);
            }
        }
        assert forall|j: int| 0 <= j < n implies after.contains(#[trigger] c[j]) by {
            if j < n - 1 {
                assert(before.contains(c[j]));
                let q = choose|q: int| 0 <= q < before.len() && before[q] == c[j];
                assert(after.contains(before[q]));
            }
        }
        assert forall|q: int| 0 <= q < after.len() implies c.take(n).contains(
            #[trigger] after[q],
        ) by {
            if q == p {
                assert(c.take(n)[n - 1] == d);
            } else {
                let o = if q < p {
                    q
                } else {
                    q - 1
                };
                assert(after[q] == before[o]);
                let front = c.take(n - 1);
                assert(front.contains(before[o]));
                let j = choose|j: int| 0 <= j < front.len() && front[j] == before[o];
                assert(c.take(n)[j] == after[q]);
            }
        }
    }
}

/// Definitions whose names are all new to a list, and differ among
/// themselves, are inserted at its end, one after another.
pub proof fn lemma_insert_defs_appends(defs: Seq<DefinitionView>, more: Seq<DefinitionView>, n: int)
    requires
        0 <= n <= more.len(),
        names_distinct(more),
        forall|a: int, j: int|
            0 <= a < defs.len() && 0 <= j < more.len() ==> (#[trigger] defs[a]).name != (
            #[trigger] more[j]).name,
    ensures
        insert_defs(defs, more, n) == defs + more.take(n),
    decreases n,
{
    if n > 0 {
        lemma_insert_defs_appends(defs, more, n - 1);
        let before = defs + more.take(n - 1);
        let d = more[n - 1];
        let names = def_names(before);
        assert forall|q: int| 0 <= q < names.len() implies names[q] != d.name by {
            if q < defs.len() {
                assert(before[q] == defs[q]);
            } else {
                assert(before[q] == more[q - defs.len()]);
            }
        }
        lemma_position_absent(names, d.name);
        assert(insert_def(before, d) == before.push(d));
        assert(before.push(d) =~= defs + more.take(n));
    } else {
        assert(defs + more.take(0) =~= defs);
    }
}

/// In a list of definitions with names of their own, each definition is
/// the one that is found under its name.
proof fn lemma_found_in_distinct(defs: Seq<DefinitionView>, p: int)
    requires
        names_distinct(defs),
        0 <= p < defs.len(),
    ensures
        find_def(defs, defs[p].name) == Some(p),
{
    let names = def_names(defs);
    assert forall|q: int| 0 <= q < p implies names[q] != defs[p].name by {
        assert(defs[q].name != defs[p].name);
    }
    lemma_position_found(names, defs[p].name, p);
}

/// The floated definitions are as many as the definitions, each with the
/// name of the definition that it comes from, and built in as that is.
proof fn lemma_floated_defs_names(defs: Seq<DefinitionView>, n: int, entrypoint: Option<Ident>)
    requires
        0 <= n <= defs.len(),
    ensures
        floated_defs(defs, n, entrypoint).defs.len() == n,
        forall|i: int|
            0 <= i < n ==> (#[trigger] floated_defs(defs, n, entrypoint).defs[i]).name
                == defs[i].name && floated_defs(defs, n, entrypoint).defs[i].builtin
                == defs[i].builtin,
    decreases n,
{
    if n > 0 {
        lemma_floated_defs_names(defs, n - 1, entrypoint);
        let before = floated_defs(defs, n - 1, entrypoint);
        let r = floated_defs(defs, n, entrypoint);
        assert forall|i: int| 0 <= i < n implies (#[trigger] r.defs[i]).name == defs[i].name
            && r.defs[i].builtin == defs[i].builtin by {
            if i < n - 1 {
                assert(r.defs[i] == before.defs[i]);
            }
        }
    }
}

/// The book after the floating. Let the definitions of a book have names
/// of their own, none of them the name of a combinator of a definition of
/// the book. Then the book holds after the floating:
/// - at the positions of the definitions, the floated definitions, each
///   under the name of the definition that it comes from, and built in as
///   that is;
/// - after them the combinators that were made, and nothing else; each
///   combinator is the definition that is found under its name;
/// - each combinator is the combinator with the number `k` of a definition
///   that is not the one where the program starts: it is named
///   `<definition>$C<k>`, it is built in as its definition is, and its one
///   rule, without patterns, has as its body a combinator that is not safe;
///   the combinators of one definition have the numbers from 0 on, without
///   a gap.
pub proof fn lemma_floated_book(defs: Seq<DefinitionView>, entrypoint: Option<Ident>)
    requires
        names_distinct(defs),
        names_fresh(defs),
    ensures
        ({
            let r = floated_defs(defs, defs.len() as int, entrypoint);
            let book = floated_book(defs, entrypoint);
            &&& names_distinct(book)
            &&& book.len() == defs.len() + r.combs.len()
            &&& forall|i: int|
                0 <= i < defs.len() ==> (#[trigger] book[i]) == r.defs[i] && book[i].name
                    == defs[i].name && book[i].builtin == defs[i].builtin && find_def(
                    book,
                    defs[i].name,
                ) == Some(i)
            &&& forall|j: int|
                0 <= j < r.combs.len() ==> match find_def(book, (#[trigger] r.combs[j]).name) {
                    Some(p) => defs.len() <= p < book.len() && book[p] == r.combs[j],
                    None => false,
                }
            &&& forall|p: int|
                defs.len() <= p < book.len() ==> r.combs.contains(#[trigger] book[p])
            &&& forall|j: int|
                0 <= j < r.combs.len() ==> made_by_floating(
                    defs,
                    entrypoint,
                    #[trigger] r.combs[j],
                    j,
                )
        }),
{
    let n = defs.len() as int;
    let r = floated_defs(defs, n, entrypoint);
    let combs = r.combs;
    let sorted = sorted_defs(combs, combs.len() as int);
    let book = floated_book(defs, entrypoint);
    lemma_floated_defs_names(defs, n, entrypoint);
    lemma_defs_make_combinators(defs, n, entrypoint);
    lemma_comb_names_distinct(defs, entrypoint);
    lemma_sorted_defs(combs, combs.len() as int);
    assert(combs.take(combs.len() as int) =~= combs);
    assert forall|a: int, q: int| 0 <= a < r.defs.len() && 0 <= q < sorted.len() implies (
    #[trigger] r.defs[a]).name != (#[trigger] sorted[q]).name by {
        assert(combs.contains(sorted[q]));
        let j = choose|j: int| 0 <= j < combs.len() && combs[j] == sorted[q];
        assert(defs[a].name != combs[j].name);
    }
    lemma_insert_defs_appends(r.defs, sorted, sorted.len() as int);
    assert(sorted.take(sorted.len() as int) =~= sorted);
    assert(book == r.defs + sorted);
    assert forall|a: int, b: int| 0 <= a < b < book.len() implies (#[trigger] book[a]).name != (
    #[trigger] book[b]).name by {
        if b < n {
            assert(defs[a].name != defs[b].name);
        } else if a < n {
            assert(r.defs[a].name != sorted[b - n].name);
        } else {
            assert(sorted[a - n].name != sorted[b - n].name);
        }
    }
    assert forall|i: int| 0 <= i < n implies (#[trigger] book[i]) == r.defs[i] && book[i].name
        == defs[i].name && book[i].builtin == defs[i].builtin && find_def(book, defs[i].name)
        == Some(i) by {
        lemma_found_in_distinct(book, i);
    }
    assert forall|j: int| 0 <= j < combs.len() implies match find_def(
        book,
        (#[trigger] combs[j]).name,
    ) {
        Some(p) => n <= p < book.len() && book[p] == combs[j],
        None => false,
    } by {
        assert(sorted.contains(combs[j]));
        let q = choose|q: int| 0 <= q < sorted.len() && sorted[q] == combs[j];
        assert(book[n + q] == combs[j]);
        lemma_found_in_distinct(book, n + q);
    }
    assert forall|p: int| n <= p < book.len() implies combs.contains(#[trigger] book[p]) by {
        assert(book[p] == sorted[p - n]);
        assert(combs.contains(sorted[p - n]));
    }
}

/// The term with each combinator put back in place of the reference to it,
/// the combinators being those that the book holds.
///
/// The combinators are those of the definition `d` with a number below
/// `hi`; the combinator with the number `k` is the definition that is found
/// in the book under the name `<d>$C<k>`. What is put back in place of a
/// reference to the combinator `k` is its body, with the combinators below
/// `k` put back in it.
pub open spec fn put_back(
    t: TermView,
    book: Seq<DefinitionView>,
    d: Ident,
    hi: int,
) -> TermView
    decreases hi, t, 0nat,
{
    match t {
        TermView::Ref { nam } => match comb_number(nam, d, hi) {
            Some(k) => match find_def(book, nam) {
                Some(p) => if 0 <= k < hi && 0 <= p < book.len() {
                    put_back(comb_body(book[p]), book, d, k)
                } else {
                    t
                },
                None => t,
            },
            None => t,
        },
        TermView::Lam { tag, nam, bod } => TermView::Lam {
            tag,
            nam,
            bod: Box::new(put_back(*bod, book, d, hi)),
        },
        TermView::Chn { tag, nam, bod } => TermView::Chn {
            tag,
            nam,
            bod: Box::new(put_back(*bod, book, d, hi)),
        },
        TermView::Let { nam, val, nxt } => TermView::Let {
            nam,
            val: Box::new(put_back(*val, book, d, hi)),
            nxt: Box::new(put_back(*nxt, book, d, hi)),
        },
        TermView::Use { nam, val, nxt } => TermView::Use {
            nam,
            val: Box::new(put_back(*val, book, d, hi)),
            nxt: Box::new(put_back(*nxt, book, d, hi)),
        },
        TermView::App { tag, fun, arg } => TermView::App {
            tag,
            fun: Box::new(put_back(*fun, book, d, hi)),
            arg: Box::new(put_back(*arg, book, d, hi)),
        },
        TermView::Ltp { bnd, val, nxt } => TermView::Ltp {
            bnd,
            val: Box::new(put_back(*val, book, d, hi)),
            nxt: Box::new(put_back(*nxt, book, d, hi)),
        },
        TermView::Tup { els } => TermView::Tup { els: put_back_terms(els, book, d, hi) },
        TermView::Dup { tag, bnd, val, nxt } => TermView::Dup {
            tag,
            bnd,
            val: Box::new(put_back(*val, book, d, hi)),
            nxt: Box::new(put_back(*nxt, book, d, hi)),
        },
        TermView::Sup { tag, els } => TermView::Sup {
            tag,
            els: put_back_terms(els, book, d, hi),
        },
        TermView::Lst { els } => TermView::Lst { els: put_back_terms(els, book, d, hi) },
        TermView::Opx { opr, fst, snd } => TermView::Opx {
            opr,
            fst: Box::new(put_back(*fst, book, d, hi)),
            snd: Box::new(put_back(*snd, book, d, hi)),
        },
        TermView::Mat { arg, bnd, with, arms } => TermView::Mat {
            arg: Box::new(put_back(*arg, book, d, hi)),
            bnd,
            with,
            arms: put_back_arms(arms, book, d, hi),
        },
        TermView::Swt { arg, bnd, with, pred, arms } => TermView::Swt {
            arg: Box::new(put_back(*arg, book, d, hi)),
            bnd,
            with,
            pred,
            arms: put_back_terms(arms, book, d, hi),
        },
        _ => t,
    }
}

pub open spec fn put_back_terms(
    ts: Seq<TermView>,
    book: Seq<DefinitionView>,
    d: Ident,
    hi: int,
) -> Seq<TermView>
    decreases hi, ts, 1nat,
{
    Seq::new(
        ts.len(),
        |i: int|
            if 0 <= i < ts.len() {
                put_back(ts[i], book, d, hi)
            } else {
                TermView::Error
            },
    )
}

pub open spec fn put_back_arms(
    arms: Seq<ArmView>,
    book: Seq<DefinitionView>,
    d: Ident,
    hi: int,
) -> Seq<ArmView>
    decreases hi, arms, 1nat,
{
    Seq::new(
        arms.len(),
        |i: int|
            if 0 <= i < arms.len() {
                arm_with_body(arms[i], put_back(arms[i].body, book, d, hi))
            } else {
                ArmView { ctr: None, fields: Seq::empty(), body: TermView::Error }
            },
    )
}

/// Whether the book holds the combinators of the definition `d` with a
/// number below `hi`, each under its name: the combinator with the number
/// `k` is the definition at the position `off + k` of `combs`.
pub open spec fn book_holds(
    book: Seq<DefinitionView>,
    combs: Seq<DefinitionView>,
    off: int,
    d: Ident,
    hi: int,
) -> bool {
    forall|k: nat|
        k < hi ==> 0 <= off + k < combs.len() && match find_def(book, #[trigger] comb_name(d, k)) {
            Some(p) => 0 <= p < book.len() && book[p] == combs[off + k],
            None => false,
        }
}

/// Putting the combinators back from the book gives what putting them back
/// from the list of the combinators gives, where the book holds them.
pub proof fn lemma_put_back(
    t: TermView,
    book: Seq<DefinitionView>,
    combs: Seq<DefinitionView>,
    off: int,
    d: Ident,
    hi: int,
)
    requires
        book_holds(book, combs, off, d, hi),
    ensures
        put_back(t, book, d, hi) == inlined(t, combs, off, d, hi),
    decreases hi, t, 0nat,
{
    match t {
        TermView::Ref { nam } => {
            lemma_comb_number(nam, d, hi);
            match comb_number(nam, d, hi) {
                Some(k) => {
                    assert(nam == comb_name(d, k as nat));
                    assert(book_holds(book, combs, off, d, k));
                    let p = find_def(book, nam)->0;
                    lemma_put_back(comb_body(book[p]), book, combs, off, d, k);
                },
                None => {},
            }
        },
        TermView::Lam { tag, nam, bod } => {
            lemma_put_back(*bod, book, combs, off, d, hi);
        },
        TermView::Chn { tag, nam, bod } => {
            lemma_put_back(*bod, book, combs, off, d, hi);
        },
        TermView::Let { nam, val, nxt } => {
            lemma_put_back(*val, book, combs, off, d, hi);
            lemma_put_back(*nxt, book, combs, off, d, hi);
        },
        TermView::Use { nam, val, nxt } => {
            lemma_put_back(*val, book, combs, off, d, hi);
            lemma_put_back(*nxt, book, combs, off, d, hi);
        },
        TermView::App { tag, fun, arg } => {
            lemma_put_back(*fun, book, combs, off, d, hi);
            lemma_put_back(*arg, book, combs, off, d, hi);
        },
        TermView::Ltp { bnd, val, nxt } => {
            lemma_put_back(*val, book, combs, off, d, hi);
            lemma_put_back(*nxt, book, combs, off, d, hi);
        },
        TermView::Tup { els } => {
            lemma_put_back_terms(els, book, combs, off, d, hi);
        },
        TermView::Dup { tag, bnd, val, nxt } => {
            lemma_put_back(*val, book, combs, off, d, hi);
            lemma_put_back(*nxt, book, combs, off, d, hi);
        },
        TermView::Sup { tag, els } => {
            lemma_put_back_terms(els, book, combs, off, d, hi);
        },
        TermView::Lst { els } => {
            lemma_put_back_terms(els, book, combs, off, d, hi);
        },
        TermView::Opx { opr, fst, snd } => {
            lemma_put_back(*fst, book, combs, off, d, hi);
            lemma_put_back(*snd, book, combs, off, d, hi);
        },
        TermView::Mat { arg, bnd, with, arms } => {
            lemma_put_back(*arg, book, combs, off, d, hi);
            assert forall|i: int| 0 <= i < arms.len() implies put_back(arms[i].body, book, d, hi)
                == inlined(arms[i].body, combs, off, d, hi) by {
                lemma_put_back(arms[i].body, book, combs, off, d, hi);
            }
            assert(put_back_arms(arms, book, d, hi) =~= inlined_arms(arms, combs, off, d, hi));
        },
        TermView::Swt { arg, bnd, with, pred, arms } => {
            lemma_put_back(*arg, book, combs, off, d, hi);
            lemma_put_back_terms(arms, book, combs, off, d, hi);
        },
        _ => {},
    }
}

proof fn lemma_put_back_terms(
    ts: Seq<TermView>,
    book: Seq<DefinitionView>,
    combs: Seq<DefinitionView>,
    off: int,
    d: Ident,
    hi: int,
)
    requires
        book_holds(book, combs, off, d, hi),
    ensures
        put_back_terms(ts, book, d, hi) == inlined_terms(ts, combs, off, d, hi),
    decreases hi, ts, 1nat,
{
    assert forall|i: int| 0 <= i < ts.len() implies put_back(ts[i], book, d, hi) == inlined(
        ts[i],
        combs,
        off,
        d,
        hi,
    ) by {
        lemma_put_back(ts[i], book, combs, off, d, hi);
    }
    assert(put_back_terms(ts, book, d, hi) =~= inlined_terms(ts, combs, off, d, hi));
}

/// The combinator with the number `k` of the definition at the position
/// `i` stands among the combinators made at its place, and is the
/// combinator of its number.
proof fn lemma_comb_of_def(defs: Seq<DefinitionView>, entrypoint: Option<Ident>, i: int, k: int)
    requires
        0 <= i < defs.len(),
        0 <= k < combs_before(defs, i + 1, entrypoint) - combs_before(defs, i, entrypoint),
    ensures
        ({
            let combs = floated_defs(defs, defs.len() as int, entrypoint).combs;
            let at = combs_before(defs, i, entrypoint) + k;
            &&& 0 <= at < combs.len()
            &&& is_made(combs[at], env_of(defs, i), k)
        }),
{
    let n = defs.len() as int;
    let combs = floated_defs(defs, n, entrypoint).combs;
    let before = floated_defs(defs, i, entrypoint);
    let step = floated_defs(defs, i + 1, entrypoint);
    let d = defs[i];
    assert(combs_before(defs, i, entrypoint) == before.combs.len());
    assert(combs_before(defs, i + 1, entrypoint) == step.combs.len());
    if !is_entrypoint(entrypoint, d.name) {
        let env = env_of(defs, i);
        let st = FloatState { next: 0, combs: before.combs };
        lemma_rules_make_combinators(d.rules, d.rules.len() as int, env, st);
        let fr = floated_rules(d.rules, d.rules.len() as int, env, st);
        assert(step.combs == fr.state.combs);
        let at = before.combs.len() + k;
        assert(is_made(step.combs[at], env, k));
        lemma_defs_make_combinators(defs, n, entrypoint);
        if i + 1 < n {
            assert(prefix_of(floated_defs(defs, i + 1, entrypoint).combs, combs));
            assert(combs[at] == step.combs[at]);
        }
    } else {
        assert(step.combs == before.combs);
    }
}

/// Float invariance, in the book after the floating. Let the definitions
/// of a book have names of their own, none of them the name of a combinator
/// of a definition of the book, and let no rule hold a reference to a
/// combinator of its own definition. Then every rule of every definition
/// is, in the book after the floating, with the combinators that the book
/// holds put back in place of the references to them, the rule that it was
/// before.
pub proof fn lemma_float_invariance_in_book(
    defs: Seq<DefinitionView>,
    entrypoint: Option<Ident>,
    i: int,
    j: int,
)
    requires
        names_distinct(defs),
        names_fresh(defs),
        rules_mention_none(defs),
        0 <= i < defs.len(),
        0 <= j < defs[i].rules.len(),
    ensures
        ({
            let book = floated_book(defs, entrypoint);
            &&& defs.len() <= book.len()
            &&& find_def(book, defs[i].name) == Some(i)
            &&& book[i].name == defs[i].name
            &&& book[i].builtin == defs[i].builtin
            &&& book[i].rules.len() == defs[i].rules.len()
            &&& book[i].rules[j].pats == defs[i].rules[j].pats
            &&& put_back(
                book[i].rules[j].body,
                book,
                defs[i].name,
                combs_before(defs, i + 1, entrypoint) - combs_before(defs, i, entrypoint),
            ) == defs[i].rules[j].body
        }),
{
    let n = defs.len() as int;
    let r = floated_defs(defs, n, entrypoint);
    let book = floated_book(defs, entrypoint);
    let off = combs_before(defs, i, entrypoint);
    let hi = combs_before(defs, i + 1, entrypoint) - off;
    lemma_floated_book(defs, entrypoint);
    lemma_float_invariance(defs, entrypoint, i, j);
    assert(book[i] == r.defs[i]);
    assert forall|k: nat| k < hi implies 0 <= off + k < r.combs.len() && match find_def(
        book,
        #[trigger] comb_name(defs[i].name, k),
    ) {
        Some(p) => 0 <= p < book.len() && book[p] == r.combs[off + k],
        None => false,
    } by {
        lemma_comb_of_def(defs, entrypoint, i, k as int);
        assert(r.combs[off + k].name == comb_name(defs[i].name, k));
    }
    lemma_put_back(book[i].rules[j].body, book, r.combs, off, defs[i].name, hi);
}

} // verus!
