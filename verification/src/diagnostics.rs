//! The diagnostics that the passes record: errors, which stop the pipeline
//! at the end of the pass that records them, and warnings, which never do.
use vstd::prelude::*;
use crate::term::{opt_ident, Ident, Name};

verus! {

#[derive(Debug, Clone, Copy, PartialEq, Eq, Structural)]
pub enum Severity {
    Error,
    Warning,
}

/// What a diagnostic is about.
#[derive(Debug, Clone, Copy, PartialEq, Eq, Structural)]
pub enum DiagnosticKind {
    UnboundVariable,
    UnboundUnscopedVariable,
    AdtMismatch,
    NonExhaustiveMatch,
    IrrefutableMatch,
    UnreachableMatch,
    RedundantMatch,
    UnusedDefinition,
    RepeatedBind,
}

/// The kinds of warnings.
#[derive(Debug, Clone, Copy, PartialEq, Eq, Structural)]
pub enum WarningType {
    IrrefutableMatch,
    UnreachableMatch,
    RedundantMatch,
    UnusedDefinition,
    RepeatedBind,
}

/// The kinds of errors.
#[derive(Debug, Clone, Copy, PartialEq, Eq, Structural)]
pub enum ErrorType {
    UnboundVariable,
    UnboundUnscopedVariable,
    AdtMismatch,
    NonExhaustiveMatch,
}

pub open spec fn warning_kind(w: WarningType) -> DiagnosticKind {
    match w {
        WarningType::IrrefutableMatch => DiagnosticKind::IrrefutableMatch,
        WarningType::UnreachableMatch => DiagnosticKind::UnreachableMatch,
        WarningType::RedundantMatch => DiagnosticKind::RedundantMatch,
        WarningType::UnusedDefinition => DiagnosticKind::UnusedDefinition,
        WarningType::RepeatedBind => DiagnosticKind::RepeatedBind,
    }
}

pub open spec fn error_kind(e: ErrorType) -> DiagnosticKind {
    match e {
        ErrorType::UnboundVariable => DiagnosticKind::UnboundVariable,
        ErrorType::UnboundUnscopedVariable => DiagnosticKind::UnboundUnscopedVariable,
        ErrorType::AdtMismatch => DiagnosticKind::AdtMismatch,
        ErrorType::NonExhaustiveMatch => DiagnosticKind::NonExhaustiveMatch,
    }
}

/// The severity that goes with a kind: the four kinds of errors are errors,
/// the others are warnings.
pub open spec fn severity_of(kind: DiagnosticKind) -> Severity {
    match kind {
        DiagnosticKind::UnboundVariable => Severity::Error,
        DiagnosticKind::UnboundUnscopedVariable => Severity::Error,
        DiagnosticKind::AdtMismatch => Severity::Error,
        DiagnosticKind::NonExhaustiveMatch => Severity::Error,
        _ => Severity::Warning,
    }
}

/// One record: its kind, the definition it was found in, if any, and its
/// message.
#[derive(Debug, PartialEq, Eq)]
pub struct Diagnostic {
    pub kind: DiagnosticKind,
    pub rule_name: Option<Name>,
    pub message: String,
}

pub struct DiagnosticView {
    pub kind: DiagnosticKind,
    pub rule_name: Option<Ident>,
    pub message: Seq<char>,
}

impl View for Diagnostic {
    type V = DiagnosticView;

    open spec fn view(&self) -> DiagnosticView {
        DiagnosticView {
            kind: self.kind,
            rule_name: opt_ident(self.rule_name),
            message: self.message@,
        }
    }
}

impl Diagnostic {
    pub fn severity(&self) -> (s: Severity)
        ensures
            s == severity_of(self@.kind),
    {
        match self.kind {
            DiagnosticKind::UnboundVariable => Severity::Error,
            DiagnosticKind::UnboundUnscopedVariable => Severity::Error,
            DiagnosticKind::AdtMismatch => Severity::Error,
            DiagnosticKind::NonExhaustiveMatch => Severity::Error,
            _ => Severity::Warning,
        }
    }
}

/// The records of a compilation, in the order in which they were added, and
/// the number of records that were there when the pass that is running
/// began.
#[derive(Debug, PartialEq, Eq)]
pub struct Diagnostics {
    pub entries: Vec<Diagnostic>,
    pub pass_start: usize,
}

pub struct DiagnosticsView {
    pub entries: Seq<DiagnosticView>,
    pub pass_start: nat,
}

pub open spec fn diagnostics_view(entries: Seq<Diagnostic>) -> Seq<DiagnosticView> {
    Seq::new(entries.len(), |i: int| entries[i]@)
}

impl View for Diagnostics {
    type V = DiagnosticsView;

    open spec fn view(&self) -> DiagnosticsView {
        DiagnosticsView { entries: diagnostics_view(self.entries@), pass_start: self.pass_start as nat }
    }
}

/// Whether one of the records from `from` on is an error.
pub open spec fn has_error_from(entries: Seq<DiagnosticView>, from: nat) -> bool {
    exists|i: int|
        from <= i < entries.len() && severity_of(#[trigger] entries[i].kind) == Severity::Error
}

impl Diagnostics {
    pub fn new() -> (d: Diagnostics)
        ensures
            d@.entries == Seq::<DiagnosticView>::empty(),
            d@.pass_start == 0,
    {
        let d = Diagnostics { entries: Vec::new(), pass_start: 0 };
        assert(d@.entries =~= Seq::empty());
        d
    }

    /// Begins a pass: the records that are there belong to earlier passes.
    pub fn start_pass(&mut self)
        ensures
            final(self)@.entries == old(self)@.entries,
            final(self)@.pass_start == old(self)@.entries.len(),
    {
        self.pass_start = self.entries.len();
    }

    /// Records an error found in a definition.
    pub fn add_rule_error(&mut self, kind: ErrorType, message: String, def_name: Name)
        ensures
            final(self)@.pass_start == old(self)@.pass_start,
            final(self)@.entries == old(self)@.entries.push(
                DiagnosticView {
                    kind: error_kind(kind),
                    rule_name: Some(def_name@),
                    message: message@,
                },
            ),
    {
        let kind = match kind {
            ErrorType::UnboundVariable => DiagnosticKind::UnboundVariable,
            ErrorType::UnboundUnscopedVariable => DiagnosticKind::UnboundUnscopedVariable,
            ErrorType::AdtMismatch => DiagnosticKind::AdtMismatch,
            ErrorType::NonExhaustiveMatch => DiagnosticKind::NonExhaustiveMatch,
        };
        self.entries.push(Diagnostic { kind, rule_name: Some(def_name), message });
        assert(self@.entries =~= old(self)@.entries.push(
            DiagnosticView { kind, rule_name: Some(def_name@), message: message@ },
        ));
    }

    /// Records a warning found in a definition.
    pub fn add_rule_warning(&mut self, kind: WarningType, message: String, def_name: Name)
        ensures
            final(self)@.pass_start == old(self)@.pass_start,
            final(self)@.entries == old(self)@.entries.push(
                DiagnosticView {
                    kind: warning_kind(kind),
                    rule_name: Some(def_name@),
                    message: message@,
                },
            ),
    {
        let kind = match kind {
            WarningType::IrrefutableMatch => DiagnosticKind::IrrefutableMatch,
            WarningType::UnreachableMatch => DiagnosticKind::UnreachableMatch,
            WarningType::RedundantMatch => DiagnosticKind::RedundantMatch,
            WarningType::UnusedDefinition => DiagnosticKind::UnusedDefinition,
            WarningType::RepeatedBind => DiagnosticKind::RepeatedBind,
        };
        self.entries.push(Diagnostic { kind, rule_name: Some(def_name), message });
        assert(self@.entries =~= old(self)@.entries.push(
            DiagnosticView { kind, rule_name: Some(def_name@), message: message@ },
        ));
    }

    /// Whether an error was recorded since the pass began.
    pub fn has_errors(&self) -> (r: bool)
        ensures
            r == has_error_from(self@.entries, self@.pass_start),
    {
        let mut i: usize = self.pass_start;
        while i < self.entries.len()
            invariant
                self.pass_start <= i,
                forall|j: int|
                    self.pass_start <= j < i && j < self.entries.len() ==> severity_of(
                        #[trigger] self@.entries[j].kind,
                    ) != Severity::Error,
            decreases self.entries.len() - i,
        {
            match self.entries[i].severity() {
                Severity::Error => {
                    assert(severity_of(self@.entries[i as int].kind) == Severity::Error);
                    return true;
                },
                Severity::Warning => {},
            }
            i += 1;
        }
        false
    }

    /// Ends a pass. Where an error was recorded since the pass began, the
    /// records are handed out as the failure and none are
    /// left here; otherwise nothing changes.
    pub fn fatal(&mut self) -> (r: Result<(), Diagnostics>)
        ensures
            match r {
                Ok(_) => !has_error_from(old(self)@.entries, old(self)@.pass_start) && final(self)@
                    == old(self)@,
                Err(d) => has_error_from(old(self)@.entries, old(self)@.pass_start)
                    && d@ == old(self)@
                    && final(self)@.entries.len() == 0 && final(self)@.pass_start == 0,
            },
    {
        if self.has_errors() {
            let mut taken = Diagnostics::new();
            std::mem::swap(self, &mut taken);
            Err(taken)
        } else {
            Ok(())
        }
    }
}

} // verus!
