//! The term language: names, tags, terms, rules, definitions and the book,
//! each with the mathematical value that the contracts speak of.
use vstd::prelude::*;
use vstd::string::StrSliceExecFns;

pub mod book;
pub mod book_display;
pub mod check;
pub mod children;
pub mod display;
pub mod subst;
pub mod text;
pub mod transform;

verus! {

/// The mathematical value of a name: its characters.
pub type Ident = Seq<char>;

/// An immutable string that names a variable, a definition, a constructor or
/// a data type. Two names are the same when their characters are.
#[derive(Debug, PartialEq, Eq, Hash)]
pub struct Name(pub String);

impl View for Name {
    type V = Ident;

    open spec fn view(&self) -> Ident {
        self.0@
    }
}

impl Clone for Name {
    fn clone(&self) -> (r: Name)
        ensures
            r@ == self@,
    {
        Name(self.0.clone())
    }
}

impl Name {
    pub fn new(s: &str) -> (r: Name)
        ensures
            r@ == s@,
    {
        Name(s.to_owned())
    }

    /// Whether two names have the same characters.
    pub fn same(&self, other: &Name) -> (r: bool)
        ensures
            r == (self@ == other@),
    {
        self.0 == other.0
    }

    pub fn as_str(&self) -> (r: &str)
        ensures
            r@ == self@,
    {
        self.0.as_str()
    }

    /// Whether the name comes before the other or is the same, in the
    /// order of names.
    pub fn le(&self, other: &Name) -> (r: bool)
        ensures
            r == name_le(self@, other@),
    {
        let a = self.0.as_str();
        let b = other.0.as_str();
        let len_a = a.unicode_len();
        let len_b = b.unicode_len();
        let mut i: usize = 0;
        while i < len_a
            invariant
                i <= len_a,
                len_a == a@.len(),
                len_b == b@.len(),
                a@ == self@,
                b@ == other@,
                name_le(self@, other@) == name_le_from(self@, other@, i as int),
            decreases len_a - i,
        {
            if i >= len_b {
                return false;
            }
            let x = a.get_char(i);
            let y = b.get_char(i);
            if x != y {
                return (x as u32) < (y as u32);
            }
            i += 1;
        }
        true
    }
}

/// Whether, from the position `i` on, the first name comes before the
/// second or is the same, the names being the same before `i`.
pub open spec fn name_le_from(a: Ident, b: Ident, i: int) -> bool
    decreases a.len() - i,
{
    if i < 0 || i >= a.len() {
        true
    } else if i >= b.len() {
        false
    } else if a[i] != b[i] {
        (a[i] as u32) < (b[i] as u32)
    } else {
        name_le_from(a, b, i + 1)
    }
}

/// The order of names: whether the first name comes before the second or
/// is the same. Names are ordered by the first character in which they
/// differ, the lower character first; a name comes before the names that
/// it begins.
pub open spec fn name_le(a: Ident, b: Ident) -> bool {
    name_le_from(a, b, 0)
}

pub open spec fn opt_ident(n: Option<Name>) -> Option<Ident> {
    match n {
        Some(n) => Some(n@),
        None => None,
    }
}

pub open spec fn idents(s: Seq<Name>) -> Seq<Ident> {
    Seq::new(s.len(), |i: int| s[i]@)
}

pub open spec fn opt_idents(s: Seq<Option<Name>>) -> Seq<Option<Ident>> {
    Seq::new(s.len(), |i: int| opt_ident(s[i]))
}

pub fn clone_opt_name(n: &Option<Name>) -> (r: Option<Name>)
    ensures
        opt_ident(r) == opt_ident(*n),
{
    match n {
        Some(n) => Some(n.clone()),
        None => None,
    }
}

pub fn clone_names(v: &Vec<Name>) -> (r: Vec<Name>)
    ensures
        idents(r@) == idents(v@),
{
    let mut out: Vec<Name> = Vec::new();
    let mut i: usize = 0;
    while i < v.len()
        invariant
            i <= v.len(),
            out.len() == i,
            forall|j: int| 0 <= j < i ==> (#[trigger] out@[j])@ == v@[j]@,
        decreases v.len() - i,
    {
        out.push(v[i].clone());
        i += 1;
    }
    assert(idents(out@) =~= idents(v@));
    out
}

pub fn clone_opt_names(v: &Vec<Option<Name>>) -> (r: Vec<Option<Name>>)
    ensures
        opt_idents(r@) == opt_idents(v@),
{
    let mut out: Vec<Option<Name>> = Vec::new();
    let mut i: usize = 0;
    while i < v.len()
        invariant
            i <= v.len(),
            out.len() == i,
            forall|j: int| 0 <= j < i ==> opt_ident(#[trigger] out@[j]) == opt_ident(v@[j]),
        decreases v.len() - i,
    {
        out.push(clone_opt_name(&v[i]));
        i += 1;
    }
    assert(opt_idents(out@) =~= opt_idents(v@));
    out
}

/// The label of a lambda, an application, a duplication or a superposition:
/// one that the user wrote, by name or by number, or one that the compiler
/// puts in.
#[derive(Debug, PartialEq, Eq)]
pub enum Tag {
    Named(Name),
    Numeric(u32),
    Auto,
    Static,
}

pub enum TagView {
    Named(Ident),
    Numeric(u32),
    Auto,
    Static,
}

impl View for Tag {
    type V = TagView;

    open spec fn view(&self) -> TagView {
        match self {
            Tag::Named(n) => TagView::Named(n@),
            Tag::Numeric(k) => TagView::Numeric(*k),
            Tag::Auto => TagView::Auto,
            Tag::Static => TagView::Static,
        }
    }
}

impl Clone for Tag {
    fn clone(&self) -> (r: Tag)
        ensures
            r@ == self@,
    {
        match self {
            Tag::Named(n) => Tag::Named(n.clone()),
            Tag::Numeric(k) => Tag::Numeric(*k),
            Tag::Auto => Tag::Auto,
            Tag::Static => Tag::Static,
        }
    }
}

impl Tag {
    /// Whether two tags are the same label.
    pub fn same(&self, other: &Tag) -> (r: bool)
        ensures
            r == (self@ == other@),
    {
        match (self, other) {
            (Tag::Named(a), Tag::Named(b)) => a.same(b),
            (Tag::Numeric(a), Tag::Numeric(b)) => *a == *b,
            (Tag::Auto, Tag::Auto) => true,
            (Tag::Static, Tag::Static) => true,
            _ => false,
        }
    }
}

/// A binary numeric primitive.
#[derive(Debug, Clone, Copy, PartialEq, Eq, Structural)]
pub enum Op {
    Add,
    Sub,
    Mul,
    Div,
    Rem,
    Eql,
    Neq,
    Ltn,
    Gtn,
    Lte,
    Gte,
    And,
    Or,
    Xor,
    Shl,
    Shr,
}

/// One arm of a match: the constructor it names (or a variable, or nothing),
/// the binders of the constructor's fields, and the body.
pub type MatchRule = (Option<Name>, Vec<Option<Name>>, Term);

/// A term of the surface language.
#[allow(inconsistent_fields)]
#[derive(Debug, PartialEq, Eq)]
pub enum Term {
    /// A lambda; without a name it binds nothing.
    Lam { tag: Tag, nam: Option<Name>, bod: Box<Term> },
    /// A use of a variable that a binder around it declares.
    Var { nam: Name },
    /// The declaration of an unscoped channel.
    Chn { tag: Tag, nam: Name, bod: Box<Term> },
    /// The use of an unscoped channel.
    Lnk { nam: Name },
    Let { nam: Option<Name>, val: Box<Term>, nxt: Box<Term> },
    Use { nam: Name, val: Box<Term>, nxt: Box<Term> },
    App { tag: Tag, fun: Box<Term>, arg: Box<Term> },
    /// A let that takes a tuple apart.
    Ltp { bnd: Vec<Option<Name>>, val: Box<Term>, nxt: Box<Term> },
    Tup { els: Vec<Term> },
    Dup { tag: Tag, bnd: Vec<Option<Name>>, val: Box<Term>, nxt: Box<Term> },
    Sup { tag: Tag, els: Vec<Term> },
    Num { val: u64 },
    Nat { val: u64 },
    Str { val: String },
    Lst { els: Vec<Term> },
    Opx { opr: Op, fst: Box<Term>, snd: Box<Term> },
    /// A match on the constructors of a data type.
    Mat { arg: Box<Term>, bnd: Name, with: Vec<Name>, arms: Vec<MatchRule> },
    /// A switch on a number: the arms `0`, `1`, ... and, last, the default,
    /// which sees the predecessor under the name `pred`.
    Swt { arg: Box<Term>, bnd: Name, with: Vec<Name>, pred: Option<Name>, arms: Vec<Term> },
    /// A reference to a definition of the book.
    Ref { nam: Name },
    Era,
    /// What a pass leaves where it could not go on.
    Error,
}

/// The mathematical value of a match arm.
pub struct ArmView {
    pub ctr: Option<Ident>,
    pub fields: Seq<Option<Ident>>,
    pub body: TermView,
}

/// The mathematical value of a term: the same tree over sequences of
/// characters.
#[allow(inconsistent_fields)]
pub enum TermView {
    Lam { tag: TagView, nam: Option<Ident>, bod: Box<TermView> },
    Var { nam: Ident },
    Chn { tag: TagView, nam: Ident, bod: Box<TermView> },
    Lnk { nam: Ident },
    Let { nam: Option<Ident>, val: Box<TermView>, nxt: Box<TermView> },
    Use { nam: Ident, val: Box<TermView>, nxt: Box<TermView> },
    App { tag: TagView, fun: Box<TermView>, arg: Box<TermView> },
    Ltp { bnd: Seq<Option<Ident>>, val: Box<TermView>, nxt: Box<TermView> },
    Tup { els: Seq<TermView> },
    Dup { tag: TagView, bnd: Seq<Option<Ident>>, val: Box<TermView>, nxt: Box<TermView> },
    Sup { tag: TagView, els: Seq<TermView> },
    Num { val: u64 },
    Nat { val: u64 },
    Str { val: Seq<char> },
    Lst { els: Seq<TermView> },
    Opx { opr: Op, fst: Box<TermView>, snd: Box<TermView> },
    Mat { arg: Box<TermView>, bnd: Ident, with: Seq<Ident>, arms: Seq<ArmView> },
    Swt { arg: Box<TermView>, bnd: Ident, with: Seq<Ident>, pred: Option<Ident>, arms: Seq<TermView> },
    Ref { nam: Ident },
    Era,
    Error,
}

pub open spec fn term_view(t: Term) -> TermView
    decreases t, 0nat,
{
    match t {
        Term::Lam { tag, nam, bod } => TermView::Lam {
            tag: tag@,
            nam: opt_ident(nam),
            bod: Box::new(term_view(*bod)),
        },
        Term::Var { nam } => TermView::Var { nam: nam@ },
        Term::Chn { tag, nam, bod } => TermView::Chn {
            tag: tag@,
            nam: nam@,
            bod: Box::new(term_view(*bod)),
        },
        Term::Lnk { nam } => TermView::Lnk { nam: nam@ },
        Term::Let { nam, val, nxt } => TermView::Let {
            nam: opt_ident(nam),
            val: Box::new(term_view(*val)),
            nxt: Box::new(term_view(*nxt)),
        },
        Term::Use { nam, val, nxt } => TermView::Use {
            nam: nam@,
            val: Box::new(term_view(*val)),
            nxt: Box::new(term_view(*nxt)),
        },
        Term::App { tag, fun, arg } => TermView::App {
            tag: tag@,
            fun: Box::new(term_view(*fun)),
            arg: Box::new(term_view(*arg)),
        },
        Term::Ltp { bnd, val, nxt } => TermView::Ltp {
            bnd: opt_idents(bnd@),
            val: Box::new(term_view(*val)),
            nxt: Box::new(term_view(*nxt)),
        },
        Term::Tup { els } => TermView::Tup { els: terms_view(els@) },
        Term::Dup { tag, bnd, val, nxt } => TermView::Dup {
            tag: tag@,
            bnd: opt_idents(bnd@),
            val: Box::new(term_view(*val)),
            nxt: Box::new(term_view(*nxt)),
        },
        Term::Sup { tag, els } => TermView::Sup { tag: tag@, els: terms_view(els@) },
        Term::Num { val } => TermView::Num { val },
        Term::Nat { val } => TermView::Nat { val },
        Term::Str { val } => TermView::Str { val: val@ },
        Term::Lst { els } => TermView::Lst { els: terms_view(els@) },
        Term::Opx { opr, fst, snd } => TermView::Opx {
            opr,
            fst: Box::new(term_view(*fst)),
            snd: Box::new(term_view(*snd)),
        },
        Term::Mat { arg, bnd, with, arms } => TermView::Mat {
            arg: Box::new(term_view(*arg)),
            bnd: bnd@,
            with: idents(with@),
            arms: arms_view(arms@),
        },
        Term::Swt { arg, bnd, with, pred, arms } => TermView::Swt {
            arg: Box::new(term_view(*arg)),
            bnd: bnd@,
            with: idents(with@),
            pred: opt_ident(pred),
            arms: terms_view(arms@),
        },
        Term::Ref { nam } => TermView::Ref { nam: nam@ },
        Term::Era => TermView::Era,
        Term::Error => TermView::Error,
    }
}

/// The values of a sequence of terms, one for one.
pub open spec fn terms_view(ts: Seq<Term>) -> Seq<TermView>
    decreases ts, 1nat,
{
    Seq::new(
        ts.len(),
        |i: int|
            if 0 <= i < ts.len() {
                term_view(ts[i])
            } else {
                TermView::Error
            },
    )
}

pub open spec fn arm_view(arm: MatchRule) -> ArmView
    decreases arm, 0nat,
{
    ArmView { ctr: opt_ident(arm.0), fields: opt_idents(arm.1@), body: term_view(arm.2) }
}

/// The values of the arms of a match, one for one.
pub open spec fn arms_view(arms: Seq<MatchRule>) -> Seq<ArmView>
    decreases arms, 1nat,
{
    Seq::new(
        arms.len(),
        |i: int|
            if 0 <= i < arms.len() {
                arm_view(arms[i])
            } else {
                ArmView { ctr: None, fields: Seq::empty(), body: TermView::Error }
            },
    )
}

impl View for Term {
    type V = TermView;

    open spec fn view(&self) -> TermView {
        term_view(*self)
    }
}

/// A copy of each term of a list, in order.
pub fn clone_terms(v: &Vec<Term>) -> (r: Vec<Term>)
    ensures
        terms_view(r@) == terms_view(v@),
    decreases v,
{
    let mut out: Vec<Term> = Vec::new();
    let mut i: usize = 0;
    while i < v.len()
        invariant
            i <= v.len(),
            out.len() == i,
            forall|j: int| 0 <= j < i ==> term_view(#[trigger] out@[j]) == term_view(v@[j]),
        decreases v.len() - i,
    {
        out.push(v[i].clone());
        i += 1;
    }
    assert(terms_view(out@) =~= terms_view(v@));
    out
}

/// A copy of each arm of a match, in order.
pub fn clone_arms(v: &Vec<MatchRule>) -> (r: Vec<MatchRule>)
    ensures
        arms_view(r@) == arms_view(v@),
    decreases v,
{
    let mut out: Vec<MatchRule> = Vec::new();
    let mut i: usize = 0;
    while i < v.len()
        invariant
            i <= v.len(),
            out.len() == i,
            forall|j: int| 0 <= j < i ==> arm_view(#[trigger] out@[j]) == arm_view(v@[j]),
        decreases v.len() - i,
    {
        let arm = &v[i];
        out.push((clone_opt_name(&arm.0), clone_opt_names(&arm.1), arm.2.clone()));
        i += 1;
    }
    assert(arms_view(out@) =~= arms_view(v@));
    out
}

impl Clone for Term {
    fn clone(&self) -> (r: Term)
        ensures
            r@ == self@,
        decreases self,
    {
        match self {
            Term::Lam { tag, nam, bod } => Term::Lam {
                tag: tag.clone(),
                nam: clone_opt_name(nam),
                bod: Box::new((**bod).clone()),
            },
            Term::Var { nam } => Term::Var { nam: nam.clone() },
            Term::Chn { tag, nam, bod } => Term::Chn {
                tag: tag.clone(),
                nam: nam.clone(),
                bod: Box::new((**bod).clone()),
            },
            Term::Lnk { nam } => Term::Lnk { nam: nam.clone() },
            Term::Let { nam, val, nxt } => Term::Let {
                nam: clone_opt_name(nam),
                val: Box::new((**val).clone()),
                nxt: Box::new((**nxt).clone()),
            },
            Term::Use { nam, val, nxt } => Term::Use {
                nam: nam.clone(),
                val: Box::new((**val).clone()),
                nxt: Box::new((**nxt).clone()),
            },
            Term::App { tag, fun, arg } => Term::App {
                tag: tag.clone(),
                fun: Box::new((**fun).clone()),
                arg: Box::new((**arg).clone()),
            },
            Term::Ltp { bnd, val, nxt } => Term::Ltp {
                bnd: clone_opt_names(bnd),
                val: Box::new((**val).clone()),
                nxt: Box::new((**nxt).clone()),
            },
            Term::Tup { els } => Term::Tup { els: clone_terms(els) },
            Term::Dup { tag, bnd, val, nxt } => Term::Dup {
                tag: tag.clone(),
                bnd: clone_opt_names(bnd),
                val: Box::new((**val).clone()),
                nxt: Box::new((**nxt).clone()),
            },
            Term::Sup { tag, els } => Term::Sup { tag: tag.clone(), els: clone_terms(els) },
            Term::Num { val } => Term::Num { val: *val },
            Term::Nat { val } => Term::Nat { val: *val },
            Term::Str { val } => Term::Str { val: val.clone() },
            Term::Lst { els } => Term::Lst { els: clone_terms(els) },
            Term::Opx { opr, fst, snd } => Term::Opx {
                opr: *opr,
                fst: Box::new((**fst).clone()),
                snd: Box::new((**snd).clone()),
            },
            Term::Mat { arg, bnd, with, arms } => Term::Mat {
                arg: Box::new((**arg).clone()),
                bnd: bnd.clone(),
                with: clone_names(with),
                arms: clone_arms(arms),
            },
            Term::Swt { arg, bnd, with, pred, arms } => Term::Swt {
                arg: Box::new((**arg).clone()),
                bnd: bnd.clone(),
                with: clone_names(with),
                pred: clone_opt_name(pred),
                arms: clone_terms(arms),
            },
            Term::Ref { nam } => Term::Ref { nam: nam.clone() },
            Term::Era => Term::Era,
            Term::Error => Term::Error,
        }
    }
}

} // verus!
