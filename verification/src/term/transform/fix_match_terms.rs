//! The elaboration of matches and switches into their canonical form: one
//! arm for each constructor of the matched data type, in the order of the
//! type's declaration, each with its field binders.
use vstd::prelude::*;
use vstd::string::StringExecFns;
use crate::diagnostics::{
    has_error_from, DiagnosticKind, DiagnosticView, Diagnostics, ErrorType, WarningType,
};
use crate::term::book::{
    Book, Definition, DefinitionView, RuleView,
    adts_view, constructors_view, find_adt, find_ctr, lemma_position_absent,
    lemma_position_found, lookup_adt, lookup_ctr, position, Adt, Adts, AdtsView, Constructors,
    ConstructorsView, CtrsView,
};
use crate::term::display::{var_as_str, var_text};
use crate::term::subst::subst;
use crate::term::subst::arm_with_body;
use crate::term::text::{concat, decimal, lemma_append_assoc, lemma_concat_step, write_decimal};
use crate::term::{
    arm_view, arms_view, clone_opt_name, idents, opt_ident, opt_idents, term_view, terms_view,
    ArmView, Ident, MatchRule, Name, Tag, TagView, Term, TermView,
};

verus! {

/// What the elaboration of a match finds.
#[derive(Debug, PartialEq, Eq)]
pub enum FixMatchErr {
    /// An arm names a constructor of another data type than the first arm.
    AdtMismatch { expected: Name, found: Name, ctr: Name },
    /// No arm covers a constructor.
    NonExhaustiveMatch { typ: Name, missing: Name },
    /// The first arm is a variable: it matches everything.
    IrrefutableMatch { var: Option<Name> },
    /// Arms follow an arm that is a variable.
    UnreachableMatchArms { var: Option<Name> },
    /// An arm names a constructor that an earlier arm has named.
    RedundantArm { ctr: Name },
}

pub enum FixMatchErrView {
    AdtMismatch { expected: Ident, found: Ident, ctr: Ident },
    NonExhaustiveMatch { typ: Ident, missing: Ident },
    IrrefutableMatch { var: Option<Ident> },
    UnreachableMatchArms { var: Option<Ident> },
    RedundantArm { ctr: Ident },
}

impl View for FixMatchErr {
    type V = FixMatchErrView;

    open spec fn view(&self) -> FixMatchErrView {
        match self {
            FixMatchErr::AdtMismatch { expected, found, ctr } => FixMatchErrView::AdtMismatch {
                expected: expected@,
                found: found@,
                ctr: ctr@,
            },
            FixMatchErr::NonExhaustiveMatch { typ, missing } => FixMatchErrView::NonExhaustiveMatch {
                typ: typ@,
                missing: missing@,
            },
            FixMatchErr::IrrefutableMatch { var } => FixMatchErrView::IrrefutableMatch {
                var: opt_ident(*var),
            },
            FixMatchErr::UnreachableMatchArms { var } => FixMatchErrView::UnreachableMatchArms {
                var: opt_ident(*var),
            },
            FixMatchErr::RedundantArm { ctr } => FixMatchErrView::RedundantArm { ctr: ctr@ },
        }
    }
}

pub open spec fn fix_errs_view(errs: Seq<FixMatchErr>) -> Seq<FixMatchErrView> {
    Seq::new(errs.len(), |i: int| errs[i]@)
}

/// The message of a finding.
pub open spec fn fix_err_text(e: FixMatchErrView) -> Seq<char> {
    match e {
        FixMatchErrView::AdtMismatch { expected, found, ctr } =>
            "Type mismatch in 'match' expression: Expected a constructor of type '"@ + expected
            + "', found '"@ + ctr + "' of type '"@ + found + "'"@,
        FixMatchErrView::NonExhaustiveMatch { typ, missing } =>
            "Non-exhaustive 'match' expression of type '"@ + typ + "'. Case '"@ + missing
            + "' not covered."@,
        FixMatchErrView::IrrefutableMatch { var } =>
            "Irrefutable 'match' expression. All cases after '"@ + var_text(var)
            + "' will be ignored. If this is not a mistake, consider using a 'let' expression instead."@,
        FixMatchErrView::UnreachableMatchArms { var } =>
            "Unreachable arms in 'match' expression. All cases after '"@ + var_text(var)
            + "' will be ignored."@,
        FixMatchErrView::RedundantArm { ctr } =>
            "Redundant arm in 'match' expression. Case '"@ + ctr + "' appears more than once."@,
    }
}

impl FixMatchErr {
    /// The message of the finding. It is the same whether or not more
    /// detail is asked for.
    pub fn to_string_verbose(&self, _verbose: bool) -> (r: String)
        ensures
            r@ == fix_err_text(self@),
    {
        match self {
            FixMatchErr::AdtMismatch { expected, found, ctr } => {
                let mut out = String::from_str(
                    "Type mismatch in 'match' expression: Expected a constructor of type '",
                );
                out.append(expected.as_str());
                out.append("', found '");
                out.append(ctr.as_str());
                out.append("' of type '");
                out.append(found.as_str());
                out.append("'");
                out
            },
            FixMatchErr::NonExhaustiveMatch { typ, missing } => {
                let mut out = String::from_str("Non-exhaustive 'match' expression of type '");
                out.append(typ.as_str());
                out.append("'. Case '");
                out.append(missing.as_str());
                out.append("' not covered.");
                out
            },
            FixMatchErr::IrrefutableMatch { var } => {
                let mut out = String::from_str("Irrefutable 'match' expression. All cases after '");
                out.append(var_as_str(var));
                out.append(
                    "' will be ignored. If this is not a mistake, consider using a 'let' expression instead.",
                );
                out
            },
            FixMatchErr::UnreachableMatchArms { var } => {
                let mut out = String::from_str(
                    "Unreachable arms in 'match' expression. All cases after '",
                );
                out.append(var_as_str(var));
                out.append("' will be ignored.");
                out
            },
            FixMatchErr::RedundantArm { ctr } => {
                let mut out = String::from_str("Redundant arm in 'match' expression. Case '");
                out.append(ctr.as_str());
                out.append("' appears more than once.");
                out
            },
        }
    }
}

/// The name of the binder of a field of the matched value: the name that
/// the match binds, a dot, the field.
pub open spec fn field_name(bnd: Ident, field: Ident) -> Ident {
    bnd + seq!['.'] + field
}

/// The name of the predecessor that the last arm of a switch sees: the name
/// that the switch binds, a hyphen, the number of arms before the last.
pub open spec fn pred_name(bnd: Ident, k: nat) -> Ident {
    bnd + seq!['-'] + decimal(k)
}

/// The application of a function to arguments, one after another, each
/// application with the tag that the compiler puts in.
pub open spec fn call(fun: TermView, args: Seq<TermView>) -> TermView
    decreases args.len(),
{
    if args.len() == 0 {
        fun
    } else {
        TermView::App {
            tag: TagView::Static,
            fun: Box::new(call(fun, args.drop_last())),
            arg: Box::new(args.last()),
        }
    }
}

/// The variables of the fields of a matched value.
pub open spec fn field_vars(bnd: Ident, fields: Seq<Ident>) -> Seq<TermView> {
    Seq::new(fields.len(), |i: int| TermView::Var { nam: field_name(bnd, fields[i]) })
}

/// The matched value put together again: the constructor applied to the
/// variables of its fields.
pub open spec fn rebuilt_ctr(bnd: Ident, ctr: Ident, fields: Seq<Ident>) -> TermView {
    call(TermView::Ref { nam: ctr }, field_vars(bnd, fields))
}

pub fn match_field(arg: &Name, field: &Name) -> (r: Name)
    ensures
        r@ == field_name(arg@, field@),
{
    let mut s = arg.0.clone();
    proof {
        reveal_strlit(".");
    }
    s.append(".");
    s.append(field.as_str());
    assert(s@ =~= field_name(arg@, field@));
    Name(s)
}

pub fn rebuild_ctr(arg: &Name, ctr: &Name, fields: &Vec<Name>) -> (r: Term)
    ensures
        r@ == rebuilt_ctr(arg@, ctr@, idents(fields@)),
{
    let ghost args = field_vars(arg@, idents(fields@));
    let mut term = Term::Ref { nam: ctr.clone() };
    let mut i: usize = 0;
    proof {
        assert(args.take(0) =~= Seq::empty());
    }
    while i < fields.len()
        invariant
            i <= fields.len(),
            args == field_vars(arg@, idents(fields@)),
            term@ == call(TermView::Ref { nam: ctr@ }, args.take(i as int)),
        decreases fields.len() - i,
    {
        let var = Term::Var { nam: match_field(arg, &fields[i]) };
        let ghost fun_view = term@;
        proof {
            assert(idents(fields@)[i as int] == fields@[i as int]@);
            assert(var@ == args[i as int]);
        }
        term = Term::App { tag: Tag::Static, fun: Box::new(term), arg: Box::new(var) };
        proof {
            assert(term@ == TermView::App {
                tag: TagView::Static,
                fun: Box::new(fun_view),
                arg: Box::new(args[i as int]),
            });
            assert(args.take(i + 1).drop_last() =~= args.take(i as int));
            assert(args.take(i + 1).last() == args[i as int]);
        }
        i += 1;
    }
    proof {
        assert(args.take(fields.len() as int) =~= args);
    }
    term
}

/// Whether an arm names a constructor that the table knows.
pub open spec fn is_ctr_arm(arm: ArmView, ctrs: ConstructorsView) -> bool {
    match arm.ctr {
        Some(c) => lookup_ctr(ctrs, c) is Some,
        None => false,
    }
}

/// The position of the first arm that names no constructor, a variable or a
/// wildcard; the number of arms where every arm names a constructor.
pub open spec fn first_var_arm(arms: Seq<ArmView>, ctrs: ConstructorsView) -> int
    decreases arms.len(),
{
    if arms.len() == 0 {
        0
    } else {
        let w = first_var_arm(arms.drop_last(), ctrs);
        if w < arms.len() - 1 {
            w
        } else if is_ctr_arm(arms.last(), ctrs) {
            arms.len() as int
        } else {
            arms.len() - 1
        }
    }
}

/// Every arm before the first variable arm names a constructor, and the arm
/// at that position, if there is one, names none.
pub proof fn lemma_first_var_arm(arms: Seq<ArmView>, ctrs: ConstructorsView)
    ensures
        0 <= first_var_arm(arms, ctrs) <= arms.len(),
        forall|j: int| 0 <= j < first_var_arm(arms, ctrs) ==> is_ctr_arm(#[trigger] arms[j], ctrs),
        first_var_arm(arms, ctrs) < arms.len() ==> !is_ctr_arm(
            arms[first_var_arm(arms, ctrs)],
            ctrs,
        ),
    decreases arms.len(),
{
    if arms.len() > 0 {
        let front = arms.drop_last();
        lemma_first_var_arm(front, ctrs);
        let w = first_var_arm(front, ctrs);
        assert forall|j: int| 0 <= j < first_var_arm(arms, ctrs) implies is_ctr_arm(
            #[trigger] arms[j],
            ctrs,
        ) by {
            if j < front.len() {
                assert(front[j] == arms[j]);
            }
        }
        if w < front.len() {
            assert(front[w] == arms[w]);
        }
    }
}

/// A scan from the front that stops at the first arm that names no
/// constructor has found the first variable arm.
pub proof fn lemma_first_var_arm_is(arms: Seq<ArmView>, ctrs: ConstructorsView, w: int)
    requires
        0 <= w <= arms.len(),
        forall|j: int| 0 <= j < w ==> is_ctr_arm(#[trigger] arms[j], ctrs),
        w < arms.len() ==> !is_ctr_arm(arms[w], ctrs),
    ensures
        first_var_arm(arms, ctrs) == w,
{
    lemma_first_var_arm(arms, ctrs);
}

/// The patterns of the arms, in order.
pub open spec fn arm_ctrs(arms: Seq<ArmView>) -> Seq<Option<Ident>> {
    Seq::new(arms.len(), |i: int| arms[i].ctr)
}

/// The arm that gives the body for a constructor of the matched data type:
/// the first arm, before any variable arm, that names it.
pub open spec fn covering_arm(
    arms: Seq<ArmView>,
    ctrs: ConstructorsView,
    adt: Ident,
    c: Ident,
) -> Option<int> {
    if lookup_ctr(ctrs, c) == Some(adt) {
        position(arm_ctrs(arms).take(first_var_arm(arms, ctrs)), Some(c))
    } else {
        None
    }
}

/// The body that a variable arm gives for a constructor: its own, with the
/// matched value, put together again, in place of the variable.
pub open spec fn wildcard_body(bnd: Ident, arm: ArmView, c: Ident, fields: Seq<Ident>) -> TermView {
    match arm.ctr {
        Some(v) => subst(arm.body, v, rebuilt_ctr(bnd, c, fields)),
        None => arm.body,
    }
}

/// The body for a constructor: that of the arm that covers it; else what
/// the first variable arm gives; none where there is neither.
pub open spec fn fixed_body(
    bnd: Ident,
    arms: Seq<ArmView>,
    ctrs: ConstructorsView,
    adt: Ident,
    c: Ident,
    fields: Seq<Ident>,
) -> Option<TermView> {
    let w = first_var_arm(arms, ctrs);
    match covering_arm(arms, ctrs, adt, c) {
        Some(i) => Some(arms[i].body),
        None => if w < arms.len() {
            Some(wildcard_body(bnd, arms[w], c, fields))
        } else {
            None
        },
    }
}

/// The bodies for the constructors of the matched data type, in the order
/// of the type's declaration.
pub open spec fn fixed_bodies(
    bnd: Ident,
    arms: Seq<ArmView>,
    ctrs: ConstructorsView,
    adt: Ident,
    cs: CtrsView,
) -> Seq<Option<TermView>> {
    Seq::new(cs.len(), |j: int| fixed_body(bnd, arms, ctrs, adt, cs[j].0, cs[j].1))
}

/// What is wrong with a constructor arm, if anything: its constructor
/// belongs to another data type, or an earlier arm has named it.
pub open spec fn arm_error(
    arms: Seq<ArmView>,
    ctrs: ConstructorsView,
    adt: Ident,
    i: int,
) -> Option<FixMatchErrView> {
    match arms[i].ctr {
        Some(c) => match lookup_ctr(ctrs, c) {
            Some(found) => if found != adt {
                Some(FixMatchErrView::AdtMismatch { expected: adt, found, ctr: c })
            } else if position(arm_ctrs(arms).take(i), Some(c)) is Some {
                Some(FixMatchErrView::RedundantArm { ctr: c })
            } else {
                None
            },
            None => None,
        },
        None => None,
    }
}

/// What is wrong with the first `n` arms, in their order.
pub open spec fn arm_errors_upto(
    arms: Seq<ArmView>,
    ctrs: ConstructorsView,
    adt: Ident,
    n: int,
) -> Seq<FixMatchErrView>
    decreases n,
{
    if n <= 0 {
        Seq::empty()
    } else {
        let before = arm_errors_upto(arms, ctrs, adt, n - 1);
        match arm_error(arms, ctrs, adt, n - 1) {
            Some(e) => before.push(e),
            None => before,
        }
    }
}

/// The finding that arms follow the first variable arm, where they do.
pub open spec fn unreachable_error(arms: Seq<ArmView>, ctrs: ConstructorsView) -> Seq<
    FixMatchErrView,
> {
    let w = first_var_arm(arms, ctrs);
    if w < arms.len() - 1 {
        seq![FixMatchErrView::UnreachableMatchArms { var: arms[w].ctr }]
    } else {
        Seq::empty()
    }
}

/// The findings on the arms of a match on the data type `adt`: what is
/// wrong with the constructor arms before the first variable arm, in their
/// order, and after that, that arms follow the variable arm.
pub open spec fn arm_errors(arms: Seq<ArmView>, ctrs: ConstructorsView, adt: Ident) -> Seq<
    FixMatchErrView,
> {
    arm_errors_upto(arms, ctrs, adt, first_var_arm(arms, ctrs)) + unreachable_error(arms, ctrs)
}

/// The number of arms that are kept: those up to the first variable arm,
/// with that arm.
pub open spec fn kept_arms(arms: Seq<ArmView>, ctrs: ConstructorsView) -> int {
    let w = first_var_arm(arms, ctrs);
    if w < arms.len() {
        w + 1
    } else {
        arms.len() as int
    }
}

pub open spec fn opt_terms_view(bodies: Seq<Option<Term>>) -> Seq<Option<TermView>> {
    Seq::new(
        bodies.len(),
        |i: int|
            match bodies[i] {
                Some(t) => Some(t@),
                None => None,
            },
    )
}

/// The position of the first of the first `limit` arms that has the name
/// `c` as its pattern.
fn find_arm_before(arms: &Vec<MatchRule>, limit: usize, c: &Name) -> (r: Option<usize>)
    requires
        limit <= arms.len(),
    ensures
        match r {
            Some(i) => position(arm_ctrs(arms_view(arms@)).take(limit as int), Some(c@)) == Some(
                i as int,
            ) && i < limit,
            None => position(arm_ctrs(arms_view(arms@)).take(limit as int), Some(c@)) is None,
        },
{
    let ghost keys = arm_ctrs(arms_view(arms@)).take(limit as int);
    let mut i: usize = 0;
    while i < limit
        invariant
            i <= limit,
            limit <= arms.len(),
            keys == arm_ctrs(arms_view(arms@)).take(limit as int),
            forall|j: int| 0 <= j < i ==> keys[j] != Some(c@),
        decreases limit - i,
    {
        let found = match &arms[i].0 {
            Some(n) => n.same(c),
            None => false,
        };
        if found {
            proof {
                assert(keys[i as int] == Some(c@));
                lemma_position_found(keys, Some(c@), i as int);
            }
            return Some(i);
        }
        i += 1;
    }
    proof {
        lemma_position_absent(keys, Some(c@));
    }
    None
}

/// Given the arms of a match on the data type `adt_nam`, returns the body
/// for each constructor of the type, in the order of the type's
/// declaration; none for a constructor that no arm covers. Adds to `errs`
/// what is wrong with the arms, and drops the arms that follow the first
/// variable arm.
pub fn fixed_match_arms(
    bnd: &Name,
    rules: &mut Vec<MatchRule>,
    adt_nam: &Name,
    adt: &Adt,
    ctrs: &Constructors,
    errs: &mut Vec<FixMatchErr>,
) -> (bodies: Vec<Option<Term>>)
    ensures
        opt_terms_view(bodies@) == fixed_bodies(
            bnd@,
            arms_view(old(rules)@),
            constructors_view(ctrs@),
            adt_nam@,
            adt@,
        ),
        fix_errs_view(final(errs)@) == fix_errs_view(old(errs)@) + arm_errors(
            arms_view(old(rules)@),
            constructors_view(ctrs@),
            adt_nam@,
        ),
        arms_view(final(rules)@) == arms_view(old(rules)@).take(
            kept_arms(arms_view(old(rules)@), constructors_view(ctrs@)),
        ),
        bodies.len() == adt.ctrs.len(),
{
    let ghost arms = arms_view(rules@);
    let ghost table = constructors_view(ctrs@);
    let ghost start = fix_errs_view(errs@);
    // Which arms name a constructor, and what is wrong with them.
    let mut w: usize = 0;
    let mut scanning = true;
    proof {
        lemma_append_assoc(start, Seq::empty(), Seq::empty());
    }
    while scanning && w < rules.len()
        invariant
            w <= rules.len(),
            rules@ == old(rules)@,
            arms == arms_view(rules@),
            table == constructors_view(ctrs@),
            forall|k: int| 0 <= k < w ==> is_ctr_arm(#[trigger] arms[k], table),
            !scanning ==> w < rules.len() && !is_ctr_arm(arms[w as int], table),
            fix_errs_view(errs@) == start + arm_errors_upto(arms, table, adt_nam@, w as int),
        decreases rules.len() - w, if scanning { 1int } else { 0int },
    {
        let ghost before = fix_errs_view(errs@);
        match &rules[w].0 {
            Some(c) => {
                match find_ctr(ctrs, c) {
                    Some(found) => {
                        if found.same(adt_nam) {
                            match find_arm_before(rules, w, c) {
                                Some(_) => {
                                    errs.push(FixMatchErr::RedundantArm { ctr: c.clone() });
                                    proof {
                                        assert(fix_errs_view(errs@) =~= before.push(
                                            FixMatchErrView::RedundantArm { ctr: c@ },
                                        ));
                                    }
                                },
                                None => {},
                            }
                        } else {
                            errs.push(
                                FixMatchErr::AdtMismatch {
                                    expected: adt_nam.clone(),
                                    found: found.clone(),
                                    ctr: c.clone(),
                                },
                            );
                            proof {
                                assert(fix_errs_view(errs@) =~= before.push(
                                    FixMatchErrView::AdtMismatch {
                                        expected: adt_nam@,
                                        found: found@,
                                        ctr: c@,
                                    },
                                ));
                            }
                        }
                        proof {
                            let upto = arm_errors_upto(arms, table, adt_nam@, w as int);
                            match arm_error(arms, table, adt_nam@, w as int) {
                                Some(e) => {
                                    assert(start + upto.push(e) =~= (start + upto).push(e));
                                },
                                None => {},
                            }
                        }
                        w += 1;
                    },
                    None => {
                        scanning = false;
                    },
                }
            },
            None => {
                scanning = false;
            },
        }
    }
    proof {
        lemma_first_var_arm_is(arms, table, w as int);
    }
    // The body for each constructor.
    let mut bodies: Vec<Option<Term>> = Vec::new();
    let mut j: usize = 0;
    while j < adt.ctrs.len()
        invariant
            j <= adt.ctrs.len(),
            bodies.len() == j,
            w <= rules.len(),
            rules@ == old(rules)@,
            arms == arms_view(rules@),
            table == constructors_view(ctrs@),
            first_var_arm(arms, table) == w,
            forall|k: int|
                0 <= k < j ==> #[trigger] opt_terms_view(bodies@)[k] == fixed_body(
                    bnd@,
                    arms,
                    table,
                    adt_nam@,
                    adt@[k].0,
                    adt@[k].1,
                ),
        decreases adt.ctrs.len() - j,
    {
        let cname = &adt.ctrs[j].0;
        let fields = &adt.ctrs[j].1;
        let covered = match find_ctr(ctrs, cname) {
            Some(a) => {
                if a.same(adt_nam) {
                    find_arm_before(rules, w, cname)
                } else {
                    None
                }
            },
            None => None,
        };
        let body = match covered {
            Some(i) => Some(rules[i].2.clone()),
            None => {
                if w < rules.len() {
                    let mut b = rules[w].2.clone();
                    match &rules[w].0 {
                        Some(var) => {
                            let to = rebuild_ctr(bnd, cname, fields);
                            b.subst(var, &to);
                        },
                        None => {},
                    }
                    Some(b)
                } else {
                    None
                }
            },
        };
        let ghost prior = opt_terms_view(bodies@);
        bodies.push(body);
        proof {
            assert(adt@[j as int].0 == cname@);
            assert(adt@[j as int].1 == idents(fields@));
            assert forall|k: int| 0 <= k < j implies #[trigger] opt_terms_view(bodies@)[k]
                == fixed_body(bnd@, arms, table, adt_nam@, adt@[k].0, adt@[k].1) by {
                assert(opt_terms_view(bodies@)[k] == prior[k]);
            }
        }
        j += 1;
    }
    proof {
        assert(opt_terms_view(bodies@) =~= fixed_bodies(bnd@, arms, table, adt_nam@, adt@));
    }
    // The arms that can never be reached.
    if w < rules.len() && w + 1 < rules.len() {
        let ghost before = fix_errs_view(errs@);
        errs.push(FixMatchErr::UnreachableMatchArms { var: clone_opt_name(&rules[w].0) });
        rules.truncate(w + 1);
        proof {
            assert(fix_errs_view(errs@) =~= before + unreachable_error(arms, table));
            lemma_append_assoc(
                start,
                arm_errors_upto(arms, table, adt_nam@, w as int),
                unreachable_error(arms, table),
            );
            assert(arms_view(rules@) =~= arms.take(kept_arms(arms, table)));
        }
    } else {
        proof {
            lemma_append_assoc(
                start,
                arm_errors_upto(arms, table, adt_nam@, w as int),
                unreachable_error(arms, table),
            );
            assert(fix_errs_view(errs@) =~= start + arm_errors(arms, table, adt_nam@));
            assert(arms_view(rules@) =~= arms.take(kept_arms(arms, table)));
        }
    }
    bodies
}

/// A term after elaboration, with what the elaboration found.
pub struct Fixed {
    pub term: TermView,
    pub errs: Seq<FixMatchErrView>,
}

/// The field binders of an arm in canonical form: for each field of the
/// constructor, the name that the match binds, a dot, the field.
pub open spec fn canonical_fields(bnd: Ident, fields: Seq<Ident>) -> Seq<Option<Ident>> {
    Seq::new(fields.len(), |k: int| Some(field_name(bnd, fields[k])))
}

/// The arms in canonical form: one for each constructor of the data type,
/// in the order of its declaration, with the body found for it, or the
/// placeholder for an error where none was found.
pub open spec fn canonical_arms(bnd: Ident, cs: CtrsView, bodies: Seq<Option<TermView>>) -> Seq<
    ArmView,
> {
    Seq::new(
        cs.len(),
        |j: int|
            ArmView {
                ctr: Some(cs[j].0),
                fields: canonical_fields(bnd, cs[j].1),
                body: match bodies[j] {
                    Some(b) => b,
                    None => TermView::Error,
                },
            },
    )
}

/// For the first `n` constructors, in order, the finding that no arm covers
/// the constructor, where none does.
pub open spec fn missing_errors_upto(
    adt: Ident,
    cs: CtrsView,
    bodies: Seq<Option<TermView>>,
    n: int,
) -> Seq<FixMatchErrView>
    decreases n,
{
    if n <= 0 {
        Seq::empty()
    } else {
        let before = missing_errors_upto(adt, cs, bodies, n - 1);
        if bodies[n - 1] is None {
            before.push(FixMatchErrView::NonExhaustiveMatch { typ: adt, missing: cs[n - 1].0 })
        } else {
            before
        }
    }
}

/// The data type that a match is on: that of the constructor that the first
/// arm names, where the tables know the constructor and its type.
pub open spec fn match_adt(arms: Seq<ArmView>, ctrs: ConstructorsView, adts: AdtsView) -> Option<
    (Ident, CtrsView),
> {
    if arms.len() == 0 {
        None
    } else {
        match arms[0].ctr {
            Some(c) => match lookup_ctr(ctrs, c) {
                Some(a) => match lookup_adt(adts, a) {
                    Some(cs) => Some((a, cs)),
                    None => None,
                },
                None => None,
            },
            None => None,
        }
    }
}

/// The elaboration of the arms of a match whose argument is `arg`.
///
/// Where the first arm names a constructor, the match gets the arms in
/// canonical form, and the findings are those on the arms, followed by the
/// constructors that are not covered. Otherwise the match is irrefutable:
/// it gives way to the body of its first arm, with the matched variable in
/// place of the arm's variable.
pub open spec fn elaborate_arms(
    arg: TermView,
    bnd: Ident,
    with: Seq<Ident>,
    arms: Seq<ArmView>,
    ctrs: ConstructorsView,
    adts: AdtsView,
) -> Fixed {
    match match_adt(arms, ctrs, adts) {
        Some((a, cs)) => {
            let bodies = fixed_bodies(bnd, arms, ctrs, a, cs);
            Fixed {
                term: TermView::Mat {
                    arg: Box::new(arg),
                    bnd,
                    with,
                    arms: canonical_arms(bnd, cs, bodies),
                },
                errs: arm_errors(arms, ctrs, a) + missing_errors_upto(
                    a,
                    cs,
                    bodies,
                    cs.len() as int,
                ),
            }
        },
        None => Fixed {
            term: match arms[0].ctr {
                Some(v) => subst(arms[0].body, v, TermView::Var { nam: bnd }),
                None => arms[0].body,
            },
            errs: seq![FixMatchErrView::IrrefutableMatch { var: arms[0].ctr }],
        },
    }
}

/// The elaboration of one match, its subterms left as they are.
///
/// An argument that is not a variable is first moved out: a `let` binds it
/// to the name of the match, and the match is on that variable. A match
/// without arms, and a term that is no match, stay as they are.
pub open spec fn elaborate_match(t: TermView, ctrs: ConstructorsView, adts: AdtsView) -> Fixed {
    match t {
        TermView::Mat { arg, bnd, with, arms } => if arms.len() == 0 {
            Fixed { term: t, errs: Seq::empty() }
        } else if *arg is Var {
            elaborate_arms(*arg, bnd, with, arms, ctrs, adts)
        } else {
            let inner = elaborate_arms(TermView::Var { nam: bnd }, bnd, with, arms, ctrs, adts);
            Fixed {
                term: TermView::Let { nam: Some(bnd), val: arg, nxt: Box::new(inner.term) },
                errs: inner.errs,
            }
        },
        _ => Fixed { term: t, errs: Seq::empty() },
    }
}

/// The elaboration of one switch, its subterms left as they are: the
/// predecessor that the last arm sees gets its name, and an argument that is
/// not a variable is moved out into a `let`. A switch without arms, and a
/// term that is no switch, stay as they are.
pub open spec fn elaborate_switch(t: TermView) -> TermView {
    match t {
        TermView::Swt { arg, bnd, with, pred, arms } => if arms.len() == 0 {
            t
        } else if *arg is Var {
            TermView::Swt {
                arg,
                bnd,
                with,
                pred: Some(pred_name(bnd, (arms.len() - 1) as nat)),
                arms,
            }
        } else {
            TermView::Let {
                nam: Some(bnd),
                val: arg,
                nxt: Box::new(
                    TermView::Swt {
                        arg: Box::new(TermView::Var { nam: bnd }),
                        bnd,
                        with,
                        pred: Some(pred_name(bnd, (arms.len() - 1) as nat)),
                        arms,
                    },
                ),
            }
        },
        _ => t,
    }
}

fn is_var(t: &Term) -> (r: bool)
    ensures
        r == (t@ is Var),
{
    match t {
        Term::Var { .. } => true,
        _ => false,
    }
}

/// The arms in canonical form, from the bodies found; adds to `errs` the
/// constructors for which none was found.
fn canonical_rules(
    bnd: &Name,
    adt_nam: &Name,
    adt: &Adt,
    bodies: Vec<Option<Term>>,
    errs: &mut Vec<FixMatchErr>,
) -> (rules: Vec<MatchRule>)
    requires
        bodies.len() == adt.ctrs.len(),
    ensures
        arms_view(rules@) == canonical_arms(bnd@, adt@, opt_terms_view(bodies@)),
        fix_errs_view(final(errs)@) == fix_errs_view(old(errs)@) + missing_errors_upto(
            adt_nam@,
            adt@,
            opt_terms_view(bodies@),
            adt@.len() as int,
        ),
{
    let ghost found = opt_terms_view(bodies@);
    let ghost start = fix_errs_view(errs@);
    let mut bodies = bodies;
    let mut rules: Vec<MatchRule> = Vec::new();
    let mut j: usize = 0;
    proof {
        lemma_append_assoc(start, Seq::empty(), Seq::empty());
    }
    while j < adt.ctrs.len()
        invariant
            j <= adt.ctrs.len(),
            bodies.len() == adt.ctrs.len(),
            rules.len() == j,
            forall|k: int| j <= k < bodies.len() ==>
                #[trigger] opt_terms_view(bodies@)[k] == found[k],
            found.len() == bodies.len(),
            forall|k: int|
                0 <= k < j ==> #[trigger] arms_view(rules@)[k] == canonical_arms(
                    bnd@,
                    adt@,
                    found,
                )[k],
            fix_errs_view(errs@) == start + missing_errors_upto(adt_nam@, adt@, found, j as int),
        decreases adt.ctrs.len() - j,
    {
        let cname = &adt.ctrs[j].0;
        let field_names = &adt.ctrs[j].1;
        let mut fields: Vec<Option<Name>> = Vec::new();
        let mut k: usize = 0;
        while k < field_names.len()
            invariant
                k <= field_names.len(),
                fields.len() == k,
                forall|m: int|
                    0 <= m < k ==> opt_ident(#[trigger] fields@[m]) == Some(
                        field_name(bnd@, field_names@[m]@),
                    ),
            decreases field_names.len() - k,
        {
            fields.push(Some(match_field(bnd, &field_names[k])));
            k += 1;
        }
        let mut slot: Option<Term> = None;
        let ghost before_swap = opt_terms_view(bodies@);
        std::mem::swap(&mut bodies[j], &mut slot);
        let ghost before = fix_errs_view(errs@);
        let ghost prior = arms_view(rules@);
        let body = match slot {
            Some(body) => body,
            None => {
                errs.push(
                    FixMatchErr::NonExhaustiveMatch { typ: adt_nam.clone(), missing: cname.clone() },
                );
                proof {
                    assert(fix_errs_view(errs@) =~= before.push(
                        FixMatchErrView::NonExhaustiveMatch { typ: adt_nam@, missing: cname@ },
                    ));
                }
                Term::Error
            },
        };
        rules.push((Some(cname.clone()), fields, body));
        proof {
            assert(adt@[j as int].0 == cname@);
            assert(adt@[j as int].1 == idents(field_names@));
            assert(before_swap[j as int] == found[j as int]);
            assert(opt_idents(fields@) =~= canonical_fields(bnd@, adt@[j as int].1));
            let upto = missing_errors_upto(adt_nam@, adt@, found, j as int);
            if found[j as int] is None {
                let e = FixMatchErrView::NonExhaustiveMatch { typ: adt_nam@, missing: cname@ };
                assert(start + upto.push(e) =~= (start + upto).push(e));
            }
            assert forall|k: int| 0 <= k < j + 1 implies #[trigger] arms_view(rules@)[k]
                == canonical_arms(bnd@, adt@, found)[k] by {
                if k < j {
                    assert(arms_view(rules@)[k] == prior[k]);
                }
            }
            assert forall|k: int| j + 1 <= k < bodies.len() implies #[trigger] opt_terms_view(
                bodies@,
            )[k] == found[k] by {
                assert(opt_terms_view(bodies@)[k] == before_swap[k]);
            }
        }
        j += 1;
    }
    proof {
        assert(arms_view(rules@) =~= canonical_arms(bnd@, adt@, found));
    }
    rules
}

/// Elaborates the arms of a match whose argument is `arg`; adds to `errs`
/// what it finds.
fn fix_arms(
    arg: Box<Term>,
    bnd: Name,
    with: Vec<Name>,
    arms: Vec<MatchRule>,
    ctrs: &Constructors,
    adts: &Adts,
    errs: &mut Vec<FixMatchErr>,
) -> (r: Term)
    requires
        arms.len() > 0,
    ensures
        r@ == elaborate_arms(
            arg@,
            bnd@,
            idents(with@),
            arms_view(arms@),
            constructors_view(ctrs@),
            adts_view(adts@),
        ).term,
        fix_errs_view(final(errs)@) == fix_errs_view(old(errs)@) + elaborate_arms(
            arg@,
            bnd@,
            idents(with@),
            arms_view(arms@),
            constructors_view(ctrs@),
            adts_view(adts@),
        ).errs,
{
    let ghost start = fix_errs_view(errs@);
    let ghost arms_before = arms_view(arms@);
    let mut arms = arms;
    // The data type of the constructor that the first arm names.
    let resolved: Option<(&Name, &Adt)> = match &arms[0].0 {
        Some(c) => match find_ctr(ctrs, c) {
            Some(a) => match find_adt(adts, a) {
                Some(adt) => Some((a, adt)),
                None => None,
            },
            None => None,
        },
        None => None,
    };
    match resolved {
        Some((adt_nam, adt)) => {
            // Decide which constructor corresponds to which arm of the match,
            // and build the match arms, with all constructors.
            let bodies = fixed_match_arms(&bnd, &mut arms, adt_nam, adt, ctrs, errs);
            let ghost mid = fix_errs_view(errs@);
            let rules = canonical_rules(&bnd, adt_nam, adt, bodies, errs);
            proof {
                lemma_append_assoc(
                    start,
                    arm_errors(arms_before, constructors_view(ctrs@), adt_nam@),
                    missing_errors_upto(
                        adt_nam@,
                        adt@,
                        fixed_bodies(
                            bnd@,
                            arms_before,
                            constructors_view(ctrs@),
                            adt_nam@,
                            adt@,
                        ),
                        adt@.len() as int,
                    ),
                );
            }
            Term::Mat { arg, bnd, with, arms: rules }
        },
        None => {
            // First arm was not matching a constructor: the match gives way
            // to the body of that arm.
            errs.push(FixMatchErr::IrrefutableMatch { var: clone_opt_name(&arms[0].0) });
            proof {
                assert(fix_errs_view(errs@) =~= start + seq![
                    FixMatchErrView::IrrefutableMatch { var: arms_before[0].ctr },
                ]);
            }
            let mut body = Term::Error;
            std::mem::swap(&mut arms[0].2, &mut body);
            match &arms[0].0 {
                Some(var) => {
                    let to = Term::Var { nam: bnd };
                    body.subst(var, &to);
                },
                None => {},
            }
            body
        },
    }
}

impl Term {
    /// Elaborates the term, where it is a match, its subterms left as they
    /// are; adds to `errs` what it finds.
    pub fn fix_match(&mut self, errs: &mut Vec<FixMatchErr>, ctrs: &Constructors, adts: &Adts)
        ensures
            final(self)@ == elaborate_match(
                old(self)@,
                constructors_view(ctrs@),
                adts_view(adts@),
            ).term,
            fix_errs_view(final(errs)@) == fix_errs_view(old(errs)@) + elaborate_match(
                old(self)@,
                constructors_view(ctrs@),
                adts_view(adts@),
            ).errs,
    {
        let ghost start = fix_errs_view(errs@);
        let mut taken = Term::Error;
        std::mem::swap(self, &mut taken);
        match taken {
            Term::Mat { arg, bnd, with, arms } => {
                proof {
                    assert(old(self)@ == TermView::Mat {
                        arg: Box::new(arg@),
                        bnd: bnd@,
                        with: idents(with@),
                        arms: arms_view(arms@),
                    });
                    assert(arms_view(arms@).len() == arms.len());
                }
                if arms.len() == 0 {
                    *self = Term::Mat { arg, bnd, with, arms };
                    proof {
                        lemma_append_assoc(start, Seq::empty(), Seq::empty());
                    }
                } else if is_var(&arg) {
                    *self = fix_arms(arg, bnd, with, arms, ctrs, adts, errs);
                } else {
                    let var = Box::new(Term::Var { nam: bnd.clone() });
                    let nam = Some(bnd.clone());
                    let inner = fix_arms(var, bnd, with, arms, ctrs, adts, errs);
                    *self = Term::Let { nam, val: arg, nxt: Box::new(inner) };
                }
            },
            other => {
                *self = other;
                proof {
                    lemma_append_assoc(start, Seq::empty(), Seq::empty());
                }
            },
        }
    }

    /// Elaborates the term, where it is a switch, its subterms left as they
    /// are.
    pub fn fix_switch(&mut self)
        ensures
            final(self)@ == elaborate_switch(old(self)@),
    {
        let mut taken = Term::Error;
        std::mem::swap(self, &mut taken);
        match taken {
            Term::Swt { arg, bnd, with, pred, arms } => {
                proof {
                    assert(old(self)@ == TermView::Swt {
                        arg: Box::new(arg@),
                        bnd: bnd@,
                        with: idents(with@),
                        pred: opt_ident(pred),
                        arms: terms_view(arms@),
                    });
                    assert(terms_view(arms@).len() == arms.len());
                }
                if arms.len() == 0 {
                    *self = Term::Swt { arg, bnd, with, pred, arms };
                } else {
                    let mut name = bnd.0.clone();
                    proof {
                        reveal_strlit("-");
                    }
                    name.append("-");
                    write_decimal(&mut name, (arms.len() - 1) as u64);
                    assert(name@ =~= pred_name(bnd@, (arms.len() - 1) as nat));
                    let pred = Some(Name(name));
                    if is_var(&arg) {
                        *self = Term::Swt { arg, bnd, with, pred, arms };
                    } else {
                        let var = Box::new(Term::Var { nam: bnd.clone() });
                        let nam = Some(bnd.clone());
                        let ghost var_view = var@;
                        let inner = Term::Swt { arg: var, bnd, with, pred, arms };
                        proof {
                            assert(var_view == TermView::Var { nam: bnd@ });
                            assert(inner@ == TermView::Swt {
                                arg: Box::new(var_view),
                                bnd: bnd@,
                                with: idents(with@),
                                pred: opt_ident(pred),
                                arms: terms_view(arms@),
                            });
                        }
                        *self = Term::Let { nam, val: arg, nxt: Box::new(inner) };
                    }
                }
            },
            other => {
                *self = other;
            },
        }
    }
}

/// The terms of a list of elaborations.
pub open spec fn fixed_terms(parts: Seq<Fixed>) -> Seq<TermView> {
    Seq::new(parts.len(), |i: int| parts[i].term)
}

/// The findings of a list of elaborations, one after another.
pub open spec fn fixed_errs(parts: Seq<Fixed>) -> Seq<FixMatchErrView> {
    concat(Seq::new(parts.len(), |i: int| parts[i].errs))
}

/// The arms with the elaborated bodies in place of their own.
pub open spec fn arms_with_bodies(arms: Seq<ArmView>, parts: Seq<Fixed>) -> Seq<ArmView> {
    Seq::new(arms.len(), |i: int| arm_with_body(arms[i], parts[i].term))
}

/// The elaboration of a term: that of its subterms first, in the order in
/// which the term holds them, and after that, that of the term itself where
/// it is a match or a switch.
pub open spec fn fix(t: TermView, ctrs: ConstructorsView, adts: AdtsView) -> Fixed
    decreases t, 0nat,
{
    match t {
        TermView::Lam { tag, nam, bod } => {
            let b = fix(*bod, ctrs, adts);
            Fixed { term: TermView::Lam { tag, nam, bod: Box::new(b.term) }, errs: b.errs }
        },
        TermView::Chn { tag, nam, bod } => {
            let b = fix(*bod, ctrs, adts);
            Fixed { term: TermView::Chn { tag, nam, bod: Box::new(b.term) }, errs: b.errs }
        },
        TermView::Let { nam, val, nxt } => {
            let v = fix(*val, ctrs, adts);
            let n = fix(*nxt, ctrs, adts);
            Fixed {
                term: TermView::Let { nam, val: Box::new(v.term), nxt: Box::new(n.term) },
                errs: v.errs + n.errs,
            }
        },
        TermView::Use { nam, val, nxt } => {
            let v = fix(*val, ctrs, adts);
            let n = fix(*nxt, ctrs, adts);
            Fixed {
                term: TermView::Use { nam, val: Box::new(v.term), nxt: Box::new(n.term) },
                errs: v.errs + n.errs,
            }
        },
        TermView::App { tag, fun, arg } => {
            let f = fix(*fun, ctrs, adts);
            let a = fix(*arg, ctrs, adts);
            Fixed {
                term: TermView::App { tag, fun: Box::new(f.term), arg: Box::new(a.term) },
                errs: f.errs + a.errs,
            }
        },
        TermView::Ltp { bnd, val, nxt } => {
            let v = fix(*val, ctrs, adts);
            let n = fix(*nxt, ctrs, adts);
            Fixed {
                term: TermView::Ltp { bnd, val: Box::new(v.term), nxt: Box::new(n.term) },
                errs: v.errs + n.errs,
            }
        },
        TermView::Tup { els } => {
            let parts = fix_terms(els, ctrs, adts);
            Fixed { term: TermView::Tup { els: fixed_terms(parts) }, errs: fixed_errs(parts) }
        },
        TermView::Dup { tag, bnd, val, nxt } => {
            let v = fix(*val, ctrs, adts);
            let n = fix(*nxt, ctrs, adts);
            Fixed {
                term: TermView::Dup { tag, bnd, val: Box::new(v.term), nxt: Box::new(n.term) },
                errs: v.errs + n.errs,
            }
        },
        TermView::Sup { tag, els } => {
            let parts = fix_terms(els, ctrs, adts);
            Fixed { term: TermView::Sup { tag, els: fixed_terms(parts) }, errs: fixed_errs(parts) }
        },
        TermView::Lst { els } => {
            let parts = fix_terms(els, ctrs, adts);
            Fixed { term: TermView::Lst { els: fixed_terms(parts) }, errs: fixed_errs(parts) }
        },
        TermView::Opx { opr, fst, snd } => {
            let f = fix(*fst, ctrs, adts);
            let n = fix(*snd, ctrs, adts);
            Fixed {
                term: TermView::Opx { opr, fst: Box::new(f.term), snd: Box::new(n.term) },
                errs: f.errs + n.errs,
            }
        },
        TermView::Mat { arg, bnd, with, arms } => {
            let a = fix(*arg, ctrs, adts);
            let parts = fix_arms_bodies(arms, ctrs, adts);
            let fixed = elaborate_match(
                TermView::Mat {
                    arg: Box::new(a.term),
                    bnd,
                    with,
                    arms: arms_with_bodies(arms, parts),
                },
                ctrs,
                adts,
            );
            Fixed { term: fixed.term, errs: a.errs + fixed_errs(parts) + fixed.errs }
        },
        TermView::Swt { arg, bnd, with, pred, arms } => {
            let a = fix(*arg, ctrs, adts);
            let parts = fix_terms(arms, ctrs, adts);
            Fixed {
                term: elaborate_switch(
                    TermView::Swt {
                        arg: Box::new(a.term),
                        bnd,
                        with,
                        pred,
                        arms: fixed_terms(parts),
                    },
                ),
                errs: a.errs + fixed_errs(parts),
            }
        },
        _ => Fixed { term: t, errs: Seq::empty() },
    }
}

/// The elaborations of the terms of a list.
pub open spec fn fix_terms(ts: Seq<TermView>, ctrs: ConstructorsView, adts: AdtsView) -> Seq<Fixed>
    decreases ts, 1nat,
{
    Seq::new(
        ts.len(),
        |i: int|
            if 0 <= i < ts.len() {
                fix(ts[i], ctrs, adts)
            } else {
                Fixed { term: TermView::Error, errs: Seq::empty() }
            },
    )
}

/// The elaborations of the bodies of the arms of a match.
pub open spec fn fix_arms_bodies(arms: Seq<ArmView>, ctrs: ConstructorsView, adts: AdtsView) -> Seq<
    Fixed,
>
    decreases arms, 1nat,
{
    Seq::new(
        arms.len(),
        |i: int|
            if 0 <= i < arms.len() {
                fix(arms[i].body, ctrs, adts)
            } else {
                Fixed { term: TermView::Error, errs: Seq::empty() }
            },
    )
}

fn fix_in_terms(ts: &mut Vec<Term>, ctrs: &Constructors, adts: &Adts, errs: &mut Vec<FixMatchErr>)
    ensures
        terms_view(final(ts)@) == fixed_terms(
            fix_terms(terms_view(old(ts)@), constructors_view(ctrs@), adts_view(adts@)),
        ),
        fix_errs_view(final(errs)@) == fix_errs_view(old(errs)@) + fixed_errs(
            fix_terms(terms_view(old(ts)@), constructors_view(ctrs@), adts_view(adts@)),
        ),
    decreases *old(ts), 1nat,
{
    let ghost before = ts@;
    let ghost start = fix_errs_view(errs@);
    let ghost parts = fix_terms(terms_view(before), constructors_view(ctrs@), adts_view(adts@));
    let ghost found = Seq::new(parts.len(), |i: int| parts[i].errs);
    let mut i: usize = 0;
    proof {
        assert(found.take(0) =~= Seq::empty());
        lemma_append_assoc(start, Seq::empty(), Seq::empty());
    }
    while i < ts.len()
        invariant
            i <= ts.len(),
            ts.len() == before.len(),
            before == old(ts)@,
            parts == fix_terms(terms_view(before), constructors_view(ctrs@), adts_view(adts@)),
            found == Seq::new(parts.len(), |i: int| parts[i].errs),
            forall|j: int| 0 <= j < i ==> term_view(#[trigger] ts@[j]) == parts[j].term,
            forall|j: int| i <= j < ts.len() ==> ts@[j] == before[j],
            fix_errs_view(errs@) == start + concat(found.take(i as int)),
        decreases ts.len() - i,
    {
        ts[i].fix_into(ctrs, adts, errs);
        proof {
            lemma_concat_step(found, i as int);
            lemma_append_assoc(start, concat(found.take(i as int)), found[i as int]);
        }
        i += 1;
    }
    proof {
        assert(found.take(ts.len() as int) =~= found);
        assert(terms_view(ts@) =~= fixed_terms(parts));
    }
}

fn fix_in_arms(
    arms: &mut Vec<MatchRule>,
    ctrs: &Constructors,
    adts: &Adts,
    errs: &mut Vec<FixMatchErr>,
)
    ensures
        arms_view(final(arms)@) == arms_with_bodies(
            arms_view(old(arms)@),
            fix_arms_bodies(arms_view(old(arms)@), constructors_view(ctrs@), adts_view(adts@)),
        ),
        fix_errs_view(final(errs)@) == fix_errs_view(old(errs)@) + fixed_errs(
            fix_arms_bodies(arms_view(old(arms)@), constructors_view(ctrs@), adts_view(adts@)),
        ),
    decreases *old(arms), 1nat,
{
    let ghost before = arms@;
    let ghost start = fix_errs_view(errs@);
    let ghost parts = fix_arms_bodies(
        arms_view(before),
        constructors_view(ctrs@),
        adts_view(adts@),
    );
    let ghost found = Seq::new(parts.len(), |i: int| parts[i].errs);
    let mut i: usize = 0;
    proof {
        assert(found.take(0) =~= Seq::empty());
        lemma_append_assoc(start, Seq::empty(), Seq::empty());
    }
    while i < arms.len()
        invariant
            i <= arms.len(),
            arms.len() == before.len(),
            before == old(arms)@,
            parts == fix_arms_bodies(
                arms_view(before),
                constructors_view(ctrs@),
                adts_view(adts@),
            ),
            found == Seq::new(parts.len(), |i: int| parts[i].errs),
            forall|j: int|
                0 <= j < i ==> arm_view(#[trigger] arms@[j]) == arm_with_body(
                    arm_view(before[j]),
                    parts[j].term,
                ),
            forall|j: int| i <= j < arms.len() ==> arms@[j] == before[j],
            fix_errs_view(errs@) == start + concat(found.take(i as int)),
        decreases arms.len() - i,
    {
        arms[i].2.fix_into(ctrs, adts, errs);
        proof {
            lemma_concat_step(found, i as int);
            lemma_append_assoc(start, concat(found.take(i as int)), found[i as int]);
        }
        i += 1;
    }
    proof {
        assert(found.take(arms.len() as int) =~= found);
        assert(arms_view(arms@) =~= arms_with_bodies(arms_view(before), parts));
    }
}

impl Term {
    /// Elaborates the term and adds to `errs` what the elaboration finds.
    fn fix_into(&mut self, ctrs: &Constructors, adts: &Adts, errs: &mut Vec<FixMatchErr>)
        ensures
            final(self)@ == fix(old(self)@, constructors_view(ctrs@), adts_view(adts@)).term,
            fix_errs_view(final(errs)@) == fix_errs_view(old(errs)@) + fix(
                old(self)@,
                constructors_view(ctrs@),
                adts_view(adts@),
            ).errs,
        decreases *old(self), 0nat,
    {
        let ghost start = fix_errs_view(errs@);
        let ghost cv = constructors_view(ctrs@);
        let ghost av = adts_view(adts@);
        let mut is_match = false;
        let mut is_switch = false;
        let ghost mut below: Seq<FixMatchErrView> = Seq::empty();
        match self {
            Term::Lam { tag: _, nam: _, bod } => {
                bod.fix_into(ctrs, adts, errs);
            },
            Term::Chn { tag: _, nam: _, bod } => {
                bod.fix_into(ctrs, adts, errs);
            },
            Term::Let { nam: _, val, nxt } => {
                let ghost v = fix(val@, cv, av);
                let ghost n = fix(nxt@, cv, av);
                val.fix_into(ctrs, adts, errs);
                nxt.fix_into(ctrs, adts, errs);
                proof {
                    lemma_append_assoc(start, v.errs, n.errs);
                }
            },
            Term::Use { nam: _, val, nxt } => {
                let ghost v = fix(val@, cv, av);
                let ghost n = fix(nxt@, cv, av);
                val.fix_into(ctrs, adts, errs);
                nxt.fix_into(ctrs, adts, errs);
                proof {
                    lemma_append_assoc(start, v.errs, n.errs);
                }
            },
            Term::App { tag: _, fun, arg } => {
                let ghost v = fix(fun@, cv, av);
                let ghost n = fix(arg@, cv, av);
                fun.fix_into(ctrs, adts, errs);
                arg.fix_into(ctrs, adts, errs);
                proof {
                    lemma_append_assoc(start, v.errs, n.errs);
                }
            },
            Term::Ltp { bnd: _, val, nxt } => {
                let ghost v = fix(val@, cv, av);
                let ghost n = fix(nxt@, cv, av);
                val.fix_into(ctrs, adts, errs);
                nxt.fix_into(ctrs, adts, errs);
                proof {
                    lemma_append_assoc(start, v.errs, n.errs);
                }
            },
            Term::Tup { els } => {
                fix_in_terms(els, ctrs, adts, errs);
            },
            Term::Dup { tag: _, bnd: _, val, nxt } => {
                let ghost v = fix(val@, cv, av);
                let ghost n = fix(nxt@, cv, av);
                val.fix_into(ctrs, adts, errs);
                nxt.fix_into(ctrs, adts, errs);
                proof {
                    lemma_append_assoc(start, v.errs, n.errs);
                }
            },
            Term::Sup { tag: _, els } => {
                fix_in_terms(els, ctrs, adts, errs);
            },
            Term::Lst { els } => {
                fix_in_terms(els, ctrs, adts, errs);
            },
            Term::Opx { opr: _, fst, snd } => {
                let ghost v = fix(fst@, cv, av);
                let ghost n = fix(snd@, cv, av);
                fst.fix_into(ctrs, adts, errs);
                snd.fix_into(ctrs, adts, errs);
                proof {
                    lemma_append_assoc(start, v.errs, n.errs);
                }
            },
            Term::Mat { arg, bnd: _, with: _, arms } => {
                let ghost a = fix(arg@, cv, av);
                let ghost parts = fix_arms_bodies(arms_view(arms@), cv, av);
                arg.fix_into(ctrs, adts, errs);
                fix_in_arms(arms, ctrs, adts, errs);
                proof {
                    lemma_append_assoc(start, a.errs, fixed_errs(parts));
                    below = a.errs + fixed_errs(parts);
                }
                is_match = true;
            },
            Term::Swt { arg, bnd: _, with: _, pred: _, arms } => {
                let ghost a = fix(arg@, cv, av);
                let ghost parts = fix_terms(terms_view(arms@), cv, av);
                arg.fix_into(ctrs, adts, errs);
                fix_in_terms(arms, ctrs, adts, errs);
                proof {
                    lemma_append_assoc(start, a.errs, fixed_errs(parts));
                }
                is_switch = true;
            },
            Term::Var { .. } => {
                proof {
                    lemma_append_assoc(start, Seq::empty(), Seq::empty());
                }
            },
            Term::Lnk { .. } => {
                proof {
                    lemma_append_assoc(start, Seq::empty(), Seq::empty());
                }
            },
            Term::Num { .. } => {
                proof {
                    lemma_append_assoc(start, Seq::empty(), Seq::empty());
                }
            },
            Term::Nat { .. } => {
                proof {
                    lemma_append_assoc(start, Seq::empty(), Seq::empty());
                }
            },
            Term::Str { .. } => {
                proof {
                    lemma_append_assoc(start, Seq::empty(), Seq::empty());
                }
            },
            Term::Ref { .. } => {
                proof {
                    lemma_append_assoc(start, Seq::empty(), Seq::empty());
                }
            },
            Term::Era => {
                proof {
                    lemma_append_assoc(start, Seq::empty(), Seq::empty());
                }
            },
            Term::Error => {
                proof {
                    lemma_append_assoc(start, Seq::empty(), Seq::empty());
                }
            },
        }
        if is_match {
            let ghost inner = self@;
            self.fix_match(errs, ctrs, adts);
            proof {
                lemma_append_assoc(start, below, elaborate_match(inner, cv, av).errs);
            }
        } else if is_switch {
            self.fix_switch();
        }
    }

    /// Convert all match and switch expressions to a normalized form.
    /// * For matches, resolve the constructors and create the name of the
    ///   field variables.
    /// * For switches, create the name of the pred variable.
    /// * If the match arg is not a variable, it is separated into a let
    ///   expression and bound to the name of the match.
    /// * Check for redundant arms and non-exhaustive matches.
    ///
    /// Returns what the elaboration found, in the order in which it found
    /// it.
    pub fn fix_match_terms(&mut self, ctrs: &Constructors, adts: &Adts) -> (errs: Vec<FixMatchErr>)
        ensures
            final(self)@ == fix(old(self)@, constructors_view(ctrs@), adts_view(adts@)).term,
            fix_errs_view(errs@) == fix(
                old(self)@,
                constructors_view(ctrs@),
                adts_view(adts@),
            ).errs,
    {
        let mut errs: Vec<FixMatchErr> = Vec::new();
        proof {
            assert(fix_errs_view(errs@) =~= Seq::empty());
        }
        self.fix_into(ctrs, adts, &mut errs);
        proof {
            let found = fix(old(self)@, constructors_view(ctrs@), adts_view(adts@)).errs;
            assert(Seq::<FixMatchErrView>::empty() + found =~= found);
        }
        errs
    }
}

/// The kind of diagnostic that a finding is recorded as: a data type
/// mismatch and a match that is not exhaustive are errors, the others are
/// warnings.
pub open spec fn fix_err_kind(e: FixMatchErrView) -> DiagnosticKind {
    match e {
        FixMatchErrView::AdtMismatch { .. } => DiagnosticKind::AdtMismatch,
        FixMatchErrView::NonExhaustiveMatch { .. } => DiagnosticKind::NonExhaustiveMatch,
        FixMatchErrView::IrrefutableMatch { .. } => DiagnosticKind::IrrefutableMatch,
        FixMatchErrView::UnreachableMatchArms { .. } => DiagnosticKind::UnreachableMatch,
        FixMatchErrView::RedundantArm { .. } => DiagnosticKind::RedundantMatch,
    }
}

/// The record of a finding in the definition `def_name`.
pub open spec fn fix_diagnostic(e: FixMatchErrView, def_name: Ident) -> DiagnosticView {
    DiagnosticView { kind: fix_err_kind(e), rule_name: Some(def_name), message: fix_err_text(e) }
}

/// The records of the findings in a rule of the definition `def_name`.
pub open spec fn rule_fix_diagnostics(
    r: RuleView,
    def_name: Ident,
    ctrs: ConstructorsView,
    adts: AdtsView,
) -> Seq<DiagnosticView> {
    Seq::new(
        fix(r.body, ctrs, adts).errs.len(),
        |k: int| fix_diagnostic(fix(r.body, ctrs, adts).errs[k], def_name),
    )
}

/// The rule with its body elaborated.
pub open spec fn fixed_rule(r: RuleView, ctrs: ConstructorsView, adts: AdtsView) -> RuleView {
    RuleView { pats: r.pats, body: fix(r.body, ctrs, adts).term }
}

/// The definition with the bodies of its rules elaborated.
pub open spec fn fixed_definition(
    d: DefinitionView,
    ctrs: ConstructorsView,
    adts: AdtsView,
) -> DefinitionView {
    DefinitionView {
        name: d.name,
        rules: Seq::new(d.rules.len(), |j: int| fixed_rule(d.rules[j], ctrs, adts)),
        builtin: d.builtin,
    }
}

/// The records of the findings in the rules of a definition, rule after
/// rule.
pub open spec fn definition_fix_diagnostics(
    d: DefinitionView,
    ctrs: ConstructorsView,
    adts: AdtsView,
) -> Seq<DiagnosticView> {
    concat(
        Seq::new(d.rules.len(), |j: int| rule_fix_diagnostics(d.rules[j], d.name, ctrs, adts)),
    )
}

/// The definitions with the bodies of their rules elaborated.
pub open spec fn fixed_definitions(
    defs: Seq<DefinitionView>,
    ctrs: ConstructorsView,
    adts: AdtsView,
) -> Seq<DefinitionView> {
    Seq::new(defs.len(), |i: int| fixed_definition(defs[i], ctrs, adts))
}

/// The records of the findings in all the definitions, definition after
/// definition.
pub open spec fn book_fix_diagnostics(
    defs: Seq<DefinitionView>,
    ctrs: ConstructorsView,
    adts: AdtsView,
) -> Seq<DiagnosticView> {
    concat(Seq::new(defs.len(), |i: int| definition_fix_diagnostics(defs[i], ctrs, adts)))
}

/// Records the findings of the elaboration of a rule of the definition
/// `def_name`.
fn record_fix_errs(info: &mut Diagnostics, errs: &Vec<FixMatchErr>, def_name: &Name)
    ensures
        final(info)@.pass_start == old(info)@.pass_start,
        final(info)@.entries == old(info)@.entries + Seq::new(
            errs.len() as nat,
            |k: int| fix_diagnostic(errs@[k]@, def_name@),
        ),
{
    let ghost start = info@.entries;
    let mut k: usize = 0;
    proof {
        assert(info@.entries =~= start + Seq::new(
            0,
            |k: int| fix_diagnostic(errs@[k]@, def_name@),
        ));
    }
    while k < errs.len()
        invariant
            k <= errs.len(),
            info@.pass_start == old(info)@.pass_start,
            info@.entries == start + Seq::new(
                k as nat,
                |k: int| fix_diagnostic(errs@[k]@, def_name@),
            ),
        decreases errs.len() - k,
    {
        let err = &errs[k];
        let message = err.to_string_verbose(false);
        match err {
            FixMatchErr::AdtMismatch { .. } => {
                info.add_rule_error(ErrorType::AdtMismatch, message, def_name.clone());
            },
            FixMatchErr::NonExhaustiveMatch { .. } => {
                info.add_rule_error(ErrorType::NonExhaustiveMatch, message, def_name.clone());
            },
            FixMatchErr::IrrefutableMatch { .. } => {
                info.add_rule_warning(WarningType::IrrefutableMatch, message, def_name.clone());
            },
            FixMatchErr::UnreachableMatchArms { .. } => {
                info.add_rule_warning(WarningType::UnreachableMatch, message, def_name.clone());
            },
            FixMatchErr::RedundantArm { .. } => {
                info.add_rule_warning(WarningType::RedundantMatch, message, def_name.clone());
            },
        }
        proof {
            assert(info@.entries =~= start + Seq::new(
                (k + 1) as nat,
                |k: int| fix_diagnostic(errs@[k]@, def_name@),
            ));
        }
        k += 1;
    }
}

impl Definition {
    /// Elaborates the bodies of the rules of the definition and records
    /// what the elaboration finds.
    fn fix_match_terms(&mut self, ctrs: &Constructors, adts: &Adts, info: &mut Diagnostics)
        ensures
            final(self)@ == fixed_definition(
                old(self)@,
                constructors_view(ctrs@),
                adts_view(adts@),
            ),
            final(info)@.pass_start == old(info)@.pass_start,
            final(info)@.entries == old(info)@.entries + definition_fix_diagnostics(
                old(self)@,
                constructors_view(ctrs@),
                adts_view(adts@),
            ),
    {
        let ghost before = self@;
        let ghost cv = constructors_view(ctrs@);
        let ghost av = adts_view(adts@);
        let ghost start = info@.entries;
        let ghost parts = Seq::new(
            before.rules.len(),
            |j: int| rule_fix_diagnostics(before.rules[j], before.name, cv, av),
        );
        let mut j: usize = 0;
        proof {
            assert(parts.take(0) =~= Seq::empty());
            lemma_append_assoc(start, Seq::empty(), Seq::empty());
        }
        while j < self.rules.len()
            invariant
                j <= self.rules.len(),
                self.rules.len() == before.rules.len(),
                before == old(self)@,
                cv == constructors_view(ctrs@),
                av == adts_view(adts@),
                self.name@ == before.name,
                self.builtin == before.builtin,
                parts == Seq::new(
                    before.rules.len(),
                    |j: int| rule_fix_diagnostics(before.rules[j], before.name, cv, av),
                ),
                forall|k: int| 0 <= k < j ==>
                    (#[trigger] self.rules@[k])@ == fixed_rule(before.rules[k], cv, av),
                forall|k: int| j <= k < self.rules.len() ==>
                    (#[trigger] self.rules@[k])@ == before.rules[k],
                info@.pass_start == old(info)@.pass_start,
                info@.entries == start + concat(parts.take(j as int)),
            decreases self.rules.len() - j,
        {
            let ghost prior = self.rules@;
            let errs = self.rules[j].body.fix_match_terms(ctrs, adts);
            proof {
                assert forall|k: int| 0 <= k < self.rules.len() && k != j implies (
                    #[trigger] self.rules@[k]) == prior[k] by {}
            }
            record_fix_errs(info, &errs, &self.name);
            proof {
                assert(Seq::new(errs.len() as nat, |k: int| fix_diagnostic(errs@[k]@, self.name@))
                    =~= parts[j as int]);
                lemma_concat_step(parts, j as int);
                lemma_append_assoc(start, concat(parts.take(j as int)), parts[j as int]);
            }
            j += 1;
        }
        proof {
            assert(parts.take(self.rules.len() as int) =~= parts);
            assert(self@.rules =~= fixed_definition(before, cv, av).rules);
        }
    }
}

/// The state of a compilation: the book and the diagnostics recorded so
/// far.
#[derive(Debug)]
pub struct Ctx {
    pub book: Book,
    pub info: Diagnostics,
}

impl Ctx {
    pub fn new(book: Book) -> (ctx: Ctx)
        ensures
            ctx.book == book,
            ctx.info@.entries.len() == 0,
            ctx.info@.pass_start == 0,
    {
        Ctx { book, info: Diagnostics::new() }
    }

    /// Convert all match and switch expressions of the book to a
    /// normalized form, and record what is found on the way. Where an
    /// error was found, the diagnostics are handed out as the failure when
    /// the pass ends.
    pub fn fix_match_terms(&mut self) -> (r: Result<(), Diagnostics>)
        ensures
            final(self).book@.defs == fixed_definitions(
                old(self).book@.defs,
                old(self).book@.ctrs,
                old(self).book@.adts,
            ),
            final(self).book@.adts == old(self).book@.adts,
            final(self).book@.ctrs == old(self).book@.ctrs,
            final(self).book@.entrypoint == old(self).book@.entrypoint,
            ({
                let found = old(self).info@.entries + book_fix_diagnostics(
                    old(self).book@.defs,
                    old(self).book@.ctrs,
                    old(self).book@.adts,
                );
                let pass_start = old(self).info@.entries.len();
                match r {
                    Ok(_) => !has_error_from(found, pass_start)
                        && final(self).info@.entries == found
                        && final(self).info@.pass_start == pass_start,
                    Err(d) => has_error_from(found, pass_start)
                        && d@.entries == found
                        && d@.pass_start == pass_start
                       
                            && final(self).info@.entries.len() == 0
                            && final(self).info@.pass_start == 0,
                }
            }),
    {
        self.info.start_pass();
        let ghost before = self.book@.defs;
        let ghost cv = self.book@.ctrs;
        let ghost av = self.book@.adts;
        let ghost start = self.info@.entries;
        let ghost parts = Seq::new(
            before.len(),
            |i: int| definition_fix_diagnostics(before[i], cv, av),
        );
        let mut i: usize = 0;
        proof {
            assert(parts.take(0) =~= Seq::empty());
            lemma_append_assoc(start, Seq::empty(), Seq::empty());
        }
        while i < self.book.defs.defs.len()
            invariant
                i <= self.book.defs.defs.len(),
                self.book.defs.defs.len() == before.len(),
                before == old(self).book@.defs,
                self.book.adts == old(self).book.adts,
                self.book.ctrs == old(self).book.ctrs,
                self.book.entrypoint == old(self).book.entrypoint,
                cv == constructors_view(self.book.ctrs@),
                av == adts_view(self.book.adts@),
                start == old(self).info@.entries,
                parts == Seq::new(
                    before.len(),
                    |i: int| definition_fix_diagnostics(before[i], cv, av),
                ),
                forall|k: int| 0 <= k < i ==>
                    (#[trigger] self.book.defs.defs@[k])@ == fixed_definition(before[k], cv, av),
                forall|k: int| i <= k < before.len() ==>
                    (#[trigger] self.book.defs.defs@[k])@ == before[k],
                self.info@.pass_start == start.len(),
                self.info@.entries == start + concat(parts.take(i as int)),
            decreases self.book.defs.defs.len() - i,
        {
            let ghost prior = self.book.defs.defs@;
            self.book.defs.defs[i].fix_match_terms(&self.book.ctrs, &self.book.adts, &mut self.info);
            proof {
                assert forall|k: int| 0 <= k < before.len() && k != i implies (
                    #[trigger] self.book.defs.defs@[k]) == prior[k] by {}
                lemma_concat_step(parts, i as int);
                lemma_append_assoc(start, concat(parts.take(i as int)), parts[i as int]);
            }
            i += 1;
        }
        proof {
            assert(parts.take(before.len() as int) =~= parts);
            assert(self.book@.defs =~= fixed_definitions(before, cv, av));
        }
        self.info.fatal()
    }
}

} // verus!
