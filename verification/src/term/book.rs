//! Patterns, rules, definitions, data types and the book that holds them.
use vstd::prelude::*;
use crate::term::{
    clone_opt_name, idents, name_le, opt_ident, Ident, Name, Term, TermView,
};

verus! {

/// A pattern on the left side of a rule.
#[derive(Debug, PartialEq, Eq)]
pub enum Pattern {
    Var(Option<Name>),
    Ctr(Name, Vec<Pattern>),
    Num(u64),
    Tup(Vec<Pattern>),
    Lst(Vec<Pattern>),
    Str(String),
}

pub enum PatternView {
    Var(Option<Ident>),
    Ctr(Ident, Seq<PatternView>),
    Num(u64),
    Tup(Seq<PatternView>),
    Lst(Seq<PatternView>),
    Str(Seq<char>),
}

pub open spec fn pattern_view(p: Pattern) -> PatternView
    decreases p, 0nat,
{
    match p {
        Pattern::Var(nam) => PatternView::Var(opt_ident(nam)),
        Pattern::Ctr(nam, pats) => PatternView::Ctr(nam@, patterns_view(pats@)),
        Pattern::Num(val) => PatternView::Num(val),
        Pattern::Tup(pats) => PatternView::Tup(patterns_view(pats@)),
        Pattern::Lst(pats) => PatternView::Lst(patterns_view(pats@)),
        Pattern::Str(val) => PatternView::Str(val@),
    }
}

pub open spec fn patterns_view(ps: Seq<Pattern>) -> Seq<PatternView>
    decreases ps, 1nat,
{
    Seq::new(
        ps.len(),
        |i: int|
            if 0 <= i < ps.len() {
                pattern_view(ps[i])
            } else {
                PatternView::Var(None)
            },
    )
}

impl View for Pattern {
    type V = PatternView;

    open spec fn view(&self) -> PatternView {
        pattern_view(*self)
    }
}

/// A copy of each pattern of a list, in order.
pub fn clone_patterns(v: &Vec<Pattern>) -> (r: Vec<Pattern>)
    ensures
        patterns_view(r@) == patterns_view(v@),
    decreases v,
{
    let mut out: Vec<Pattern> = Vec::new();
    let mut i: usize = 0;
    while i < v.len()
        invariant
            i <= v.len(),
            out.len() == i,
            forall|j: int| 0 <= j < i ==> pattern_view(#[trigger] out@[j]) == pattern_view(v@[j]),
        decreases v.len() - i,
    {
        out.push(v[i].clone());
        i += 1;
    }
    assert(patterns_view(out@) =~= patterns_view(v@));
    out
}

impl Clone for Pattern {
    fn clone(&self) -> (r: Pattern)
        ensures
            r@ == self@,
        decreases self,
    {
        match self {
            Pattern::Var(nam) => Pattern::Var(clone_opt_name(nam)),
            Pattern::Ctr(nam, pats) => Pattern::Ctr(nam.clone(), clone_patterns(pats)),
            Pattern::Num(val) => Pattern::Num(*val),
            Pattern::Tup(pats) => Pattern::Tup(clone_patterns(pats)),
            Pattern::Lst(pats) => Pattern::Lst(clone_patterns(pats)),
            Pattern::Str(val) => Pattern::Str(val.clone()),
        }
    }
}

/// One rule of a definition: the patterns of its arguments and its body.
#[derive(Debug, PartialEq, Eq)]
pub struct Rule {
    pub pats: Vec<Pattern>,
    pub body: Term,
}

pub struct RuleView {
    pub pats: Seq<PatternView>,
    pub body: TermView,
}

impl View for Rule {
    type V = RuleView;

    open spec fn view(&self) -> RuleView {
        RuleView { pats: patterns_view(self.pats@), body: self.body@ }
    }
}

pub open spec fn rules_view(rules: Seq<Rule>) -> Seq<RuleView> {
    Seq::new(rules.len(), |i: int| rules[i]@)
}

impl Clone for Rule {
    fn clone(&self) -> (r: Rule)
        ensures
            r@ == self@,
    {
        Rule { pats: clone_patterns(&self.pats), body: self.body.clone() }
    }
}

/// A definition of the book: its name and its rules.
#[derive(Debug, PartialEq, Eq)]
pub struct Definition {
    pub name: Name,
    pub rules: Vec<Rule>,
    pub builtin: bool,
}

pub struct DefinitionView {
    pub name: Ident,
    pub rules: Seq<RuleView>,
    pub builtin: bool,
}

impl View for Definition {
    type V = DefinitionView;

    open spec fn view(&self) -> DefinitionView {
        DefinitionView { name: self.name@, rules: rules_view(self.rules@), builtin: self.builtin }
    }
}

pub open spec fn definitions_view(defs: Seq<Definition>) -> Seq<DefinitionView> {
    Seq::new(defs.len(), |i: int| defs[i]@)
}

impl Clone for Definition {
    fn clone(&self) -> (r: Definition)
        ensures
            r@ == self@,
    {
        let mut rules: Vec<Rule> = Vec::new();
        let mut i: usize = 0;
        while i < self.rules.len()
            invariant
                i <= self.rules.len(),
                rules.len() == i,
                forall|j: int| 0 <= j < i ==> (#[trigger] rules@[j])@ == self.rules@[j]@,
            decreases self.rules.len() - i,
        {
            rules.push(self.rules[i].clone());
            i += 1;
        }
        assert(rules_view(rules@) =~= rules_view(self.rules@));
        Definition { name: self.name.clone(), rules, builtin: self.builtin }
    }
}

/// The definitions of a program, in the order in which they were added.
/// A name is looked up from the front: the first definition of a name is the
/// one that counts.
#[derive(Debug, PartialEq, Eq)]
pub struct DefinitionBook {
    pub defs: Vec<Definition>,
}

impl View for DefinitionBook {
    type V = Seq<DefinitionView>;

    open spec fn view(&self) -> Seq<DefinitionView> {
        definitions_view(self.defs@)
    }
}

impl Clone for DefinitionBook {
    fn clone(&self) -> (r: DefinitionBook)
        ensures
            r@ == self@,
    {
        let mut defs: Vec<Definition> = Vec::new();
        let mut i: usize = 0;
        while i < self.defs.len()
            invariant
                i <= self.defs.len(),
                defs.len() == i,
                forall|j: int| 0 <= j < i ==> (#[trigger] defs@[j])@ == self.defs@[j]@,
            decreases self.defs.len() - i,
        {
            defs.push(self.defs[i].clone());
            i += 1;
        }
        assert(definitions_view(defs@) =~= definitions_view(self.defs@));
        DefinitionBook { defs }
    }
}

/// The position of the first key that equals `k`, if there is one.
pub open spec fn position<A>(keys: Seq<A>, k: A) -> Option<int>
    decreases keys.len(),
{
    if keys.len() == 0 {
        None
    } else {
        match position(keys.drop_last(), k) {
            Some(i) => Some(i),
            None => if keys.last() == k {
                Some(keys.len() - 1)
            } else {
                None
            },
        }
    }
}

/// `position` gives the least index that holds the key, and none only
/// where no index holds it.
pub proof fn lemma_position<A>(keys: Seq<A>, k: A)
    ensures
        match position(keys, k) {
            Some(i) => 0 <= i < keys.len() && keys[i] == k && forall|j: int|
                0 <= j < i ==> keys[j] != k,
            None => forall|j: int| 0 <= j < keys.len() ==> keys[j] != k,
        },
    decreases keys.len(),
{
    if keys.len() > 0 {
        let front = keys.drop_last();
        lemma_position(front, k);
        assert forall|j: int| 0 <= j < front.len() implies front[j] == keys[j] by {}
        match position(front, k) {
            Some(i) => {
                assert forall|j: int| 0 <= j < i implies keys[j] != k by {
                    assert(front[j] == keys[j]);
                }
            },
            None => {
                assert forall|j: int| 0 <= j < keys.len() - 1 implies keys[j] != k by {
                    assert(front[j] == keys[j]);
                }
            },
        }
    }
}

/// The index at which a scan from the front first finds the key is its
/// position.
pub proof fn lemma_position_found<A>(keys: Seq<A>, k: A, i: int)
    requires
        0 <= i < keys.len(),
        keys[i] == k,
        forall|j: int| 0 <= j < i ==> keys[j] != k,
    ensures
        position(keys, k) == Some(i),
{
    lemma_position(keys, k);
}

/// A scan that finds the key nowhere shows that it has no position.
pub proof fn lemma_position_absent<A>(keys: Seq<A>, k: A)
    requires
        forall|j: int| 0 <= j < keys.len() ==> keys[j] != k,
    ensures
        position(keys, k) is None,
{
    lemma_position(keys, k);
}

/// The names of the definitions, in order.
pub open spec fn def_names(defs: Seq<DefinitionView>) -> Seq<Ident> {
    Seq::new(defs.len(), |i: int| defs[i].name)
}

/// The position of the first definition of a name, if there is one.
pub open spec fn find_def(defs: Seq<DefinitionView>, nam: Ident) -> Option<int> {
    position(def_names(defs), nam)
}

/// A data type: its constructors in the order of their declaration, each
/// with the names of its fields.
#[derive(Debug, Clone, PartialEq, Eq)]
pub struct Adt {
    pub ctrs: Vec<(Name, Vec<Name>)>,
    pub builtin: bool,
}

/// The constructors of a data type, as plain values.
pub type CtrsView = Seq<(Ident, Seq<Ident>)>;

pub open spec fn ctrs_view(ctrs: Seq<(Name, Vec<Name>)>) -> CtrsView {
    Seq::new(ctrs.len(), |i: int| (ctrs[i].0@, idents(ctrs[i].1@)))
}

impl View for Adt {
    type V = CtrsView;

    open spec fn view(&self) -> CtrsView {
        ctrs_view(self.ctrs@)
    }
}

/// The data types, each under its name.
pub type Adts = Vec<(Name, Adt)>;

/// For each constructor, the name of the data type that it belongs to.
pub type Constructors = Vec<(Name, Name)>;

pub type AdtsView = Seq<(Ident, CtrsView)>;

pub type ConstructorsView = Seq<(Ident, Ident)>;

pub open spec fn adts_view(adts: Seq<(Name, Adt)>) -> AdtsView {
    Seq::new(adts.len(), |i: int| (adts[i].0@, adts[i].1@))
}

pub open spec fn constructors_view(ctrs: Seq<(Name, Name)>) -> ConstructorsView {
    Seq::new(ctrs.len(), |i: int| (ctrs[i].0@, ctrs[i].1@))
}

/// A program: its definitions, its data types, the table from constructors
/// to data types, and the name of the definition where it starts.
#[derive(Debug, Clone, PartialEq, Eq)]
pub struct Book {
    pub defs: DefinitionBook,
    pub adts: Adts,
    pub ctrs: Constructors,
    pub entrypoint: Option<Name>,
}

pub struct BookView {
    pub defs: Seq<DefinitionView>,
    pub adts: AdtsView,
    pub ctrs: ConstructorsView,
    pub entrypoint: Option<Ident>,
}

impl View for Book {
    type V = BookView;

    open spec fn view(&self) -> BookView {
        BookView {
            defs: self.defs@,
            adts: adts_view(self.adts@),
            ctrs: constructors_view(self.ctrs@),
            entrypoint: opt_ident(self.entrypoint),
        }
    }
}

/// The names of the constructors of the table, in order.
pub open spec fn ctr_keys(ctrs: ConstructorsView) -> Seq<Ident> {
    Seq::new(ctrs.len(), |i: int| ctrs[i].0)
}

/// The data type that the table gives for a constructor: that of the first
/// entry with the constructor's name.
pub open spec fn lookup_ctr(ctrs: ConstructorsView, c: Ident) -> Option<Ident> {
    match position(ctr_keys(ctrs), c) {
        Some(i) => Some(ctrs[i].1),
        None => None,
    }
}

/// The names of the data types, in order.
pub open spec fn adt_keys(adts: AdtsView) -> Seq<Ident> {
    Seq::new(adts.len(), |i: int| adts[i].0)
}

/// The constructors of a data type: those of the first entry with the
/// type's name.
pub open spec fn lookup_adt(adts: AdtsView, a: Ident) -> Option<CtrsView> {
    match position(adt_keys(adts), a) {
        Some(i) => Some(adts[i].1),
        None => None,
    }
}

/// Looks up the data type of a constructor.
pub fn find_ctr<'a>(ctrs: &'a Constructors, c: &Name) -> (r: Option<&'a Name>)
    ensures
        match r {
            Some(a) => lookup_ctr(constructors_view(ctrs@), c@) == Some(a@),
            None => lookup_ctr(constructors_view(ctrs@), c@) is None,
        },
{
    let ghost keys = ctr_keys(constructors_view(ctrs@));
    let mut i: usize = 0;
    while i < ctrs.len()
        invariant
            i <= ctrs.len(),
            keys == ctr_keys(constructors_view(ctrs@)),
            forall|j: int| 0 <= j < i ==> keys[j] != c@,
        decreases ctrs.len() - i,
    {
        if ctrs[i].0.same(c) {
            proof {
                lemma_position_found(keys, c@, i as int);
            }
            return Some(&ctrs[i].1);
        }
        i += 1;
    }
    proof {
        lemma_position_absent(keys, c@);
    }
    None
}

/// Looks up a data type by its name.
pub fn find_adt<'a>(adts: &'a Adts, a: &Name) -> (r: Option<&'a Adt>)
    ensures
        match r {
            Some(adt) => lookup_adt(adts_view(adts@), a@) == Some(adt@),
            None => lookup_adt(adts_view(adts@), a@) is None,
        },
{
    let ghost keys = adt_keys(adts_view(adts@));
    let mut i: usize = 0;
    while i < adts.len()
        invariant
            i <= adts.len(),
            keys == adt_keys(adts_view(adts@)),
            forall|j: int| 0 <= j < i ==> keys[j] != a@,
        decreases adts.len() - i,
    {
        if adts[i].0.same(a) {
            proof {
                lemma_position_found(keys, a@, i as int);
            }
            return Some(&adts[i].1);
        }
        i += 1;
    }
    proof {
        lemma_position_absent(keys, a@);
    }
    None
}

impl DefinitionBook {
    /// Looks up a definition by its name.
    pub fn get(&self, nam: &Name) -> (r: Option<&Definition>)
        ensures
            match r {
                Some(d) => match find_def(self@, nam@) {
                    Some(i) => self@[i] == d@,
                    None => false,
                },
                None => find_def(self@, nam@) is None,
            },
    {
        let ghost keys = def_names(self@);
        let mut i: usize = 0;
        while i < self.defs.len()
            invariant
                i <= self.defs.len(),
                keys == def_names(self@),
                forall|j: int| 0 <= j < i ==> keys[j] != nam@,
            decreases self.defs.len() - i,
        {
            if self.defs[i].name.same(nam) {
                proof {
                    lemma_position_found(keys, nam@, i as int);
                }
                return Some(&self.defs[i]);
            }
            i += 1;
        }
        proof {
            lemma_position_absent(keys, nam@);
        }
        None
    }
}

/// The definitions with one more: it takes the place of the definition of
/// the same name, if there is one, and comes last otherwise.
pub open spec fn insert_def(defs: Seq<DefinitionView>, d: DefinitionView) -> Seq<DefinitionView> {
    match find_def(defs, d.name) {
        Some(i) => defs.update(i, d),
        None => defs.push(d),
    }
}

/// The definitions with the first `n` of `more` inserted, one after
/// another.
pub open spec fn insert_defs(defs: Seq<DefinitionView>, more: Seq<DefinitionView>, n: int) -> Seq<
    DefinitionView,
>
    decreases n,
{
    if n <= 0 {
        defs
    } else {
        insert_def(insert_defs(defs, more, n - 1), more[n - 1])
    }
}

impl DefinitionBook {
    pub fn new() -> (r: DefinitionBook)
        ensures
            r@ == Seq::<DefinitionView>::empty(),
    {
        let r = DefinitionBook { defs: Vec::new() };
        assert(r@ =~= Seq::empty());
        r
    }

    /// Inserts a definition: it takes the place of the definition of the
    /// same name, if there is one, and comes last otherwise.
    pub fn insert(&mut self, def: Definition)
        ensures
            final(self)@ == insert_def(old(self)@, def@),
    {
        let ghost keys = def_names(self@);
        let mut i: usize = 0;
        while i < self.defs.len()
            invariant
                i <= self.defs.len(),
                self.defs == old(self).defs,
                keys == def_names(self@),
                forall|j: int| 0 <= j < i ==> keys[j] != def@.name,
            decreases self.defs.len() - i,
        {
            if self.defs[i].name.same(&def.name) {
                proof {
                    lemma_position_found(keys, def@.name, i as int);
                }
                self.defs.set(i, def);
                assert(self@ =~= old(self)@.update(i as int, def@));
                return ;
            }
            i += 1;
        }
        proof {
            lemma_position_absent(keys, def@.name);
        }
        self.defs.push(def);
        assert(self@ =~= old(self)@.push(def@));
    }
}

/// The first position from `i` on that holds a definition whose name does
/// not come before `name`; the length of the list where all come before.
pub open spec fn sorted_position_from(defs: Seq<DefinitionView>, name: Ident, i: int) -> int
    decreases defs.len() - i,
{
    if i < 0 || i >= defs.len() {
        defs.len() as int
    } else if name_le(name, defs[i].name) {
        i
    } else {
        sorted_position_from(defs, name, i + 1)
    }
}

/// A list of definitions that is ordered by name, with one more: it takes
/// the place of the definition of the same name, if there is one, and goes
/// in before the first definition that its name comes before otherwise.
pub open spec fn sorted_insert(
    defs: Seq<DefinitionView>,
    d: DefinitionView,
) -> Seq<DefinitionView> {
    let p = sorted_position_from(defs, d.name, 0);
    if 0 <= p < defs.len() && defs[p].name == d.name {
        defs.update(p, d)
    } else if 0 <= p <= defs.len() {
        defs.insert(p, d)
    } else {
        defs
    }
}

/// The first `n` definitions of a list put in the order of their names,
/// one after another.
pub open spec fn sorted_defs(defs: Seq<DefinitionView>, n: int) -> Seq<DefinitionView>
    decreases n,
{
    if n <= 0 {
        Seq::empty()
    } else {
        sorted_insert(sorted_defs(defs, n - 1), defs[n - 1])
    }
}

/// The definitions of a list in the opposite order.
pub fn reversed(defs: Vec<Definition>) -> (r: Vec<Definition>)
    ensures
        r.len() == defs.len(),
        forall|i: int| 0 <= i < r.len() ==> #[trigger] r@[i] == defs@[defs.len() - 1 - i],
{
    let ghost all = defs@;
    let mut defs = defs;
    let mut out: Vec<Definition> = Vec::new();
    while defs.len() > 0
        invariant
            defs.len() + out.len() == all.len(),
            forall|k: int| 0 <= k < defs.len() ==> #[trigger] defs@[k] == all[k],
            forall|k: int| 0 <= k < out.len() ==> #[trigger] out@[k] == all[all.len() - 1 - k],
        decreases defs.len(),
    {
        let d = defs.pop().unwrap();
        out.push(d);
    }
    out
}

/// Puts a definition into a list that is ordered by name.
pub fn insert_sorted(defs: &mut Vec<Definition>, d: Definition)
    ensures
        definitions_view(final(defs)@) == sorted_insert(definitions_view(old(defs)@), d@),
{
    let ghost views = definitions_view(defs@);
    let mut i: usize = 0;
    let mut found = false;
    while !found && i < defs.len()
        invariant
            i <= defs.len(),
            defs@ == old(defs)@,
            views == definitions_view(defs@),
            sorted_position_from(views, d@.name, 0) == sorted_position_from(views, d@.name, i as int),
            found ==> i < defs.len() && name_le(d@.name, views[i as int].name),
        decreases defs.len() - i, if found { 0int } else { 1int },
    {
        if d.name.le(&defs[i].name) {
            found = true;
        } else {
            i += 1;
        }
    }
    if found && defs[i].name.same(&d.name) {
        defs.set(i, d);
        assert(definitions_view(defs@) =~= views.update(i as int, d@));
    } else {
        defs.insert(i, d);
        assert(definitions_view(defs@) =~= views.insert(i as int, d@));
    }
}

} // verus!
