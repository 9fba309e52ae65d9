//! The passes in their order: the scope analysis, the elaboration of
//! matches and the floating of combinators. A pass that records an error is
//! the last to run.
use vstd::prelude::*;
use crate::diagnostics::{
    has_error_from, severity_of, DiagnosticKind, DiagnosticView, Diagnostics, DiagnosticsView,
    ErrorType, Severity,
};
use crate::term::book::{BookView, DefinitionView};
use crate::term::check::unbound_vars::{
    book_scope_errors, named_errors_view, scope_error_text, ScopeError, ScopeErrorView,
};
use crate::term::transform::fix_match_terms::{book_fix_diagnostics, fixed_definitions, Ctx};
use crate::term::transform::float_combinators::floated_book;
use crate::term::Ident;

verus! {

/// The kind of diagnostic that a failure of the scope analysis is recorded
/// as.
pub open spec fn scope_error_kind(e: ScopeErrorView) -> DiagnosticKind {
    match e {
        ScopeErrorView::UnboundVariable(_) => DiagnosticKind::UnboundVariable,
        ScopeErrorView::UnboundUnscopedVariable(_) => DiagnosticKind::UnboundUnscopedVariable,
    }
}

/// The record of a failure of the scope analysis in a definition.
pub open spec fn scope_diagnostic(def_name: Ident, e: ScopeErrorView) -> DiagnosticView {
    DiagnosticView {
        kind: scope_error_kind(e),
        rule_name: Some(def_name),
        message: scope_error_text(e),
    }
}

/// The records of the failures of the scope analysis on the definitions of
/// a book, in the order in which the analysis finds them.
pub open spec fn scope_diagnostics(defs: Seq<DefinitionView>) -> Seq<DiagnosticView> {
    Seq::new(
        book_scope_errors(defs).len(),
        |k: int| scope_diagnostic(book_scope_errors(defs)[k].0, book_scope_errors(defs)[k].1),
    )
}

/// The state of a compilation after the passes, and whether a pass failed.
pub struct Compiled {
    pub book: BookView,
    pub info: DiagnosticsView,
    pub failure: Option<DiagnosticsView>,
}

/// The diagnostics after a pass that began with the records `before` and
/// recorded `found`, and the failure of the pass, if it recorded an error:
/// the failure takes all records with it and leaves none.
pub open spec fn after_pass(before: Seq<DiagnosticView>, found: Seq<DiagnosticView>) -> (
    DiagnosticsView,
    Option<DiagnosticsView>,
) {
    let all = DiagnosticsView { entries: before + found, pass_start: before.len() };
    if has_error_from(all.entries, all.pass_start) {
        (DiagnosticsView { entries: Seq::empty(), pass_start: 0 }, Some(all))
    } else {
        (all, None)
    }
}

/// The book and the diagnostics after the scope analysis.
pub open spec fn scope_checked(book: BookView, entries: Seq<DiagnosticView>) -> Compiled {
    let (info, failure) = after_pass(entries, scope_diagnostics(book.defs));
    Compiled { book, info, failure }
}

/// The book and the diagnostics after the elaboration of matches.
pub open spec fn match_fixed(book: BookView, entries: Seq<DiagnosticView>) -> Compiled {
    let (info, failure) = after_pass(
        entries,
        book_fix_diagnostics(book.defs, book.ctrs, book.adts),
    );
    Compiled {
        book: BookView { defs: fixed_definitions(book.defs, book.ctrs, book.adts), ..book },
        info,
        failure,
    }
}

/// The book and the diagnostics after the passes: the scope analysis, the
/// elaboration of matches, and the floating of combinators, each on what
/// the pass before it left. The first pass that records an error is the last
/// to run.
pub open spec fn compiled(book: BookView, entries: Seq<DiagnosticView>) -> Compiled {
    let checked = scope_checked(book, entries);
    if checked.failure is Some {
        checked
    } else {
        let fixed = match_fixed(checked.book, checked.info.entries);
        if fixed.failure is Some {
            fixed
        } else {
            Compiled {
                book: BookView {
                    defs: floated_book(fixed.book.defs, fixed.book.entrypoint),
                    ..fixed.book
                },
                info: fixed.info,
                failure: None,
            }
        }
    }
}

impl Ctx {
    /// Runs the scope analysis on the book and records its failures. Where
    /// there is one, the diagnostics are handed out as the failure when the
    /// pass ends.
    pub fn check_unbound_vars(&mut self) -> (r: Result<(), Diagnostics>)
        ensures
            final(self).book == old(self).book,
            ({
                let out = scope_checked(old(self).book@, old(self).info@.entries);
                &&& final(self).info@ == out.info
                &&& match r {
                    Ok(_) => out.failure is None,
                    Err(d) => out.failure == Some(d@),
                }
            }),
    {
        self.info.start_pass();
        let ghost before = self.info@.entries;
        let ghost found = scope_diagnostics(self.book@.defs);
        match self.book.defs.check_unbound_vars() {
            Ok(_) => {
                proof {
                    assert(found =~= Seq::empty());
                    assert(before + found =~= before);
                }
            },
            Err(errs) => {
                let ghost all = named_errors_view(errs@);
                let mut k: usize = 0;
                proof {
                    assert(self.info@.entries =~= before + found.take(0));
                }
                while k < errs.len()
                    invariant
                        k <= errs.len(),
                        self.book == old(self).book,
                        all == named_errors_view(errs@),
                        all == book_scope_errors(self.book@.defs),
                        found == scope_diagnostics(self.book@.defs),
                        self.info@.pass_start == before.len(),
                        self.info@.entries == before + found.take(k as int),
                    decreases errs.len() - k,
                {
                    let name = errs[k].0.clone();
                    let message = errs[k].1.message();
                    proof {
                        assert(all[k as int] == (errs@[k as int].0@, errs@[k as int].1@));
                    }
                    match &errs[k].1 {
                        ScopeError::UnboundVariable(_) => {
                            self.info.add_rule_error(ErrorType::UnboundVariable, message, name);
                        },
                        ScopeError::UnboundUnscopedVariable(_) => {
                            self.info.add_rule_error(
                                ErrorType::UnboundUnscopedVariable,
                                message,
                                name,
                            );
                        },
                    }
                    proof {
                        assert(found.take(k + 1) =~= found.take(k as int).push(found[k as int]));
                        assert(self.info@.entries =~= before + found.take(k + 1));
                    }
                    k += 1;
                }
                proof {
                    assert(found.take(errs.len() as int) =~= found);
                }
            },
        }
        proof {
            assert forall|k: int| 0 <= k < found.len() implies severity_of(
                (#[trigger] found[k]).kind,
            ) == Severity::Error by {}
            lemma_scope_diagnostics_fail(before, found);
        }
        let r = self.info.fatal();
        proof {
            if r is Err {
                assert(self.info@.entries =~= Seq::empty());
            }
        }
        r
    }

    /// Runs the passes on the book, in their order: the scope analysis,
    /// the elaboration of matches, and the floating of combinators. After a
    /// pass that recorded an error no other pass is run, and the
    /// diagnostics are handed out as the failure.
    pub fn desugar(&mut self) -> (r: Result<(), Diagnostics>)
        ensures
            ({
                let out = compiled(old(self).book@, old(self).info@.entries);
                &&& final(self).book@ == out.book
                &&& final(self).info@ == out.info
                &&& match r {
                    Ok(_) => out.failure is None,
                    Err(d) => out.failure == Some(d@),
                }
            }),
    {
        let ghost checked = scope_checked(self.book@, self.info@.entries);
        match self.check_unbound_vars() {
            Ok(_) => {},
            Err(d) => {
                return Err(d);
            },
        }
        let ghost fixed = match_fixed(self.book@, self.info@.entries);
        let fixing = self.fix_match_terms();
        proof {
            assert(self.book@ == fixed.book);
            if fixing is Err {
                assert(self.info@.entries =~= Seq::empty());
            }
            assert(self.info@ == fixed.info);
        }
        match fixing {
            Ok(_) => {},
            Err(d) => {
                return Err(d);
            },
        }
        self.book.float_combinators();
        Ok(())
    }
}

/// Every record of the scope analysis is an error: the pass fails exactly
/// if it records anything.
proof fn lemma_scope_diagnostics_fail(before: Seq<DiagnosticView>, found: Seq<DiagnosticView>)
    requires
        forall|k: int|
            0 <= k < found.len() ==> severity_of((#[trigger] found[k]).kind) == Severity::Error,
    ensures
        has_error_from(before + found, before.len()) <==> found.len() > 0,
{
    let all = before + found;
    if found.len() > 0 {
        assert(all[before.len() as int] == found[0]);
        assert(severity_of(all[before.len() as int].kind) == Severity::Error);
    }
}

} // verus!
