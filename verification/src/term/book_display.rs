//! The printer for patterns, rules, definitions and the book.
use vstd::prelude::*;
use vstd::string::StringExecFns;
use crate::term::book::{
    patterns_view, Book, Definition, DefinitionBook, DefinitionView,
    Pattern, PatternView, Rule, RuleView,
};
use crate::term::display::{pretty_text, term_text, var_as_str, var_text};
use crate::term::text::{
    concat, decimal, join, lemma_cat2, lemma_cat3, lemma_cat4, lemma_cat5, lemma_concat_step,
    lemma_join_step, write_decimal,
};
use crate::term::{Ident, Name};

verus! {

/// The text of a pattern.
pub open spec fn pattern_text(p: PatternView) -> Seq<char>
    decreases p, 0nat,
{
    match p {
        PatternView::Var(nam) => var_text(nam),
        PatternView::Ctr(nam, pats) => "("@ + nam + concat(spaced_pattern_texts(pats)) + ")"@,
        PatternView::Num(val) => decimal(val as nat),
        PatternView::Tup(pats) => "("@ + join(pattern_texts(pats), ", "@) + ")"@,
        PatternView::Lst(pats) => "["@ + join(pattern_texts(pats), ", "@) + "]"@,
        PatternView::Str(val) => "\""@ + val + "\""@,
    }
}

/// The texts of a list of patterns.
pub open spec fn pattern_texts(ps: Seq<PatternView>) -> Seq<Seq<char>>
    decreases ps, 1nat,
{
    Seq::new(
        ps.len(),
        |i: int|
            if 0 <= i < ps.len() {
                pattern_text(ps[i])
            } else {
                Seq::empty()
            },
    )
}

/// The texts of a list of patterns, each with a space before it.
pub open spec fn spaced_pattern_texts(ps: Seq<PatternView>) -> Seq<Seq<char>>
    decreases ps, 1nat,
{
    Seq::new(
        ps.len(),
        |i: int|
            if 0 <= i < ps.len() {
                " "@ + pattern_text(ps[i])
            } else {
                Seq::empty()
            },
    )
}

/// The dense form of a rule of the definition `def_name`.
pub open spec fn rule_text(r: RuleView, def_name: Ident) -> Seq<char> {
    "("@ + def_name + concat(spaced_pattern_texts(r.pats)) + ") = "@ + term_text(r.body)
}

/// The indented form of a rule of the definition `def_name`: the body on a
/// line of its own, two columns in.
pub open spec fn rule_pretty_text(r: RuleView, def_name: Ident) -> Seq<char> {
    "("@ + def_name + concat(spaced_pattern_texts(r.pats)) + ") =\n  "@ + pretty_text(r.body, 2)
}

pub open spec fn rule_texts(rules: Seq<RuleView>, def_name: Ident) -> Seq<Seq<char>> {
    Seq::new(rules.len(), |i: int| rule_text(rules[i], def_name))
}

pub open spec fn rule_pretty_texts(rules: Seq<RuleView>, def_name: Ident) -> Seq<Seq<char>> {
    Seq::new(rules.len(), |i: int| rule_pretty_text(rules[i], def_name))
}

/// The dense form of a definition: its rules, one on each line.
pub open spec fn definition_text(d: DefinitionView) -> Seq<char> {
    join(rule_texts(d.rules, d.name), "\n"@)
}

/// The indented form of a definition.
pub open spec fn definition_pretty_text(d: DefinitionView) -> Seq<char> {
    join(rule_pretty_texts(d.rules, d.name), "\n"@)
}

pub open spec fn definition_texts(defs: Seq<DefinitionView>) -> Seq<Seq<char>> {
    Seq::new(defs.len(), |i: int| definition_text(defs[i]))
}

pub open spec fn definition_pretty_texts(defs: Seq<DefinitionView>) -> Seq<Seq<char>> {
    Seq::new(defs.len(), |i: int| definition_pretty_text(defs[i]))
}

/// The dense form of the definitions, in the order in which they were added,
/// with an empty line between each two.
pub open spec fn book_text(defs: Seq<DefinitionView>) -> Seq<char> {
    join(definition_texts(defs), "\n\n"@)
}

/// The indented form of the definitions.
pub open spec fn book_pretty_text(defs: Seq<DefinitionView>) -> Seq<char> {
    join(definition_pretty_texts(defs), "\n\n"@)
}

fn write_patterns(ps: &Vec<Pattern>, out: &mut String)
    ensures
        final(out)@ == old(out)@ + join(pattern_texts(patterns_view(ps@)), ", "@),
    decreases ps, 2nat,
{
    let ghost parts = pattern_texts(patterns_view(ps@));
    let mut i: usize = 0;
    while i < ps.len()
        invariant
            i <= ps.len(),
            parts == pattern_texts(patterns_view(ps@)),
            out@ == old(out)@ + join(parts.take(i as int), ", "@),
        decreases ps.len() - i,
    {
        if i != 0 {
            out.append(", ");
        }
        ps[i].write(out);
        proof {
            lemma_join_step(parts, ", "@, i as int);
            assert(out@ =~= old(out)@ + join(parts.take(i + 1), ", "@));
        }
        i += 1;
    }
    proof {
        assert(parts.take(ps.len() as int) =~= parts);
    }
}

fn write_spaced_patterns(ps: &Vec<Pattern>, out: &mut String)
    ensures
        final(out)@ == old(out)@ + concat(spaced_pattern_texts(patterns_view(ps@))),
    decreases ps, 2nat,
{
    let ghost parts = spaced_pattern_texts(patterns_view(ps@));
    let mut i: usize = 0;
    proof {
        assert(out@ =~= old(out)@ + concat(parts.take(0)));
    }
    while i < ps.len()
        invariant
            i <= ps.len(),
            parts == spaced_pattern_texts(patterns_view(ps@)),
            out@ == old(out)@ + concat(parts.take(i as int)),
        decreases ps.len() - i,
    {
        let ghost mid = out@;
        out.append(" ");
        ps[i].write(out);
        proof {
            lemma_cat2(mid, " "@, pattern_text(ps@[i as int]@));
            lemma_concat_step(parts, i as int);
            lemma_cat2(old(out)@, concat(parts.take(i as int)), parts[i as int]);
        }
        i += 1;
    }
    proof {
        assert(parts.take(ps.len() as int) =~= parts);
    }
}

impl Pattern {
    /// Appends the text of the pattern.
    pub fn write(&self, out: &mut String)
        ensures
            final(out)@ == old(out)@ + pattern_text(self@),
        decreases self, 0nat,
    {
        match self {
            Pattern::Var(nam) => {
                out.append(var_as_str(nam));
            },
            Pattern::Ctr(nam, pats) => {
                out.append("(");
                out.append(nam.as_str());
                write_spaced_patterns(pats, out);
                out.append(")");
                proof {
                    lemma_cat4(
                        old(out)@,
                        "("@,
                        nam@,
                        concat(spaced_pattern_texts(patterns_view(pats@))),
                        ")"@,
                    );
                }
            },
            Pattern::Num(val) => {
                write_decimal(out, *val);
            },
            Pattern::Tup(pats) => {
                out.append("(");
                write_patterns(pats, out);
                out.append(")");
                proof {
                    lemma_cat3(
                        old(out)@,
                        "("@,
                        join(pattern_texts(patterns_view(pats@)), ", "@),
                        ")"@,
                    );
                }
            },
            Pattern::Lst(pats) => {
                out.append("[");
                write_patterns(pats, out);
                out.append("]");
                proof {
                    lemma_cat3(
                        old(out)@,
                        "["@,
                        join(pattern_texts(patterns_view(pats@)), ", "@),
                        "]"@,
                    );
                }
            },
            Pattern::Str(val) => {
                out.append("\"");
                out.append(val.as_str());
                out.append("\"");
                proof {
                    lemma_cat3(old(out)@, "\""@, val@, "\""@);
                }
            },
        }
    }

    /// The text of the pattern.
    pub fn display(&self) -> (r: String)
        ensures
            r@ == pattern_text(self@),
    {
        let mut out = String::new();
        self.write(&mut out);
        assert(out@ =~= pattern_text(self@));
        out
    }
}

impl Rule {
    fn write(&self, def_name: &Name, out: &mut String)
        ensures
            final(out)@ == old(out)@ + rule_text(self@, def_name@),
    {
        out.append("(");
        out.append(def_name.as_str());
        write_spaced_patterns(&self.pats, out);
        out.append(") = ");
        self.body.write(out);
        proof {
            lemma_cat5(
                old(out)@,
                "("@,
                def_name@,
                concat(spaced_pattern_texts(patterns_view(self.pats@))),
                ") = "@,
                term_text(self.body@),
            );
        }
    }

    fn write_pretty(&self, def_name: &Name, out: &mut String)
        ensures
            final(out)@ == old(out)@ + rule_pretty_text(self@, def_name@),
    {
        out.append("(");
        out.append(def_name.as_str());
        write_spaced_patterns(&self.pats, out);
        out.append(") =\n  ");
        self.body.write_pretty(2, out);
        proof {
            lemma_cat5(
                old(out)@,
                "("@,
                def_name@,
                concat(spaced_pattern_texts(patterns_view(self.pats@))),
                ") =\n  "@,
                pretty_text(self.body@, 2),
            );
        }
    }

    /// The dense form of the rule, as a rule of the definition `def_name`.
    pub fn display(&self, def_name: &Name) -> (r: String)
        ensures
            r@ == rule_text(self@, def_name@),
    {
        let mut out = String::new();
        self.write(def_name, &mut out);
        assert(out@ =~= rule_text(self@, def_name@));
        out
    }

    /// The indented form of the rule, as a rule of the definition
    /// `def_name`.
    pub fn display_pretty(&self, def_name: &Name) -> (r: String)
        ensures
            r@ == rule_pretty_text(self@, def_name@),
    {
        let mut out = String::new();
        self.write_pretty(def_name, &mut out);
        assert(out@ =~= rule_pretty_text(self@, def_name@));
        out
    }
}

impl Definition {
    fn write(&self, out: &mut String)
        ensures
            final(out)@ == old(out)@ + definition_text(self@),
    {
        let ghost parts = rule_texts(self@.rules, self@.name);
        let mut i: usize = 0;
        while i < self.rules.len()
            invariant
                i <= self.rules.len(),
                parts == rule_texts(self@.rules, self@.name),
                parts.len() == self.rules.len(),
                out@ == old(out)@ + join(parts.take(i as int), "\n"@),
            decreases self.rules.len() - i,
        {
            if i != 0 {
                out.append("\n");
            }
            self.rules[i].write(&self.name, out);
            proof {
                lemma_join_step(parts, "\n"@, i as int);
                assert(out@ =~= old(out)@ + join(parts.take(i + 1), "\n"@));
            }
            i += 1;
        }
        proof {
            assert(parts.take(self.rules.len() as int) =~= parts);
        }
    }

    fn write_pretty(&self, out: &mut String)
        ensures
            final(out)@ == old(out)@ + definition_pretty_text(self@),
    {
        let ghost parts = rule_pretty_texts(self@.rules, self@.name);
        let mut i: usize = 0;
        while i < self.rules.len()
            invariant
                i <= self.rules.len(),
                parts == rule_pretty_texts(self@.rules, self@.name),
                parts.len() == self.rules.len(),
                out@ == old(out)@ + join(parts.take(i as int), "\n"@),
            decreases self.rules.len() - i,
        {
            if i != 0 {
                out.append("\n");
            }
            self.rules[i].write_pretty(&self.name, out);
            proof {
                lemma_join_step(parts, "\n"@, i as int);
                assert(out@ =~= old(out)@ + join(parts.take(i + 1), "\n"@));
            }
            i += 1;
        }
        proof {
            assert(parts.take(self.rules.len() as int) =~= parts);
        }
    }

    /// The dense form of the definition.
    pub fn display(&self) -> (r: String)
        ensures
            r@ == definition_text(self@),
    {
        let mut out = String::new();
        self.write(&mut out);
        assert(out@ =~= definition_text(self@));
        out
    }

    /// The indented form of the definition.
    pub fn display_pretty(&self) -> (r: String)
        ensures
            r@ == definition_pretty_text(self@),
    {
        let mut out = String::new();
        self.write_pretty(&mut out);
        assert(out@ =~= definition_pretty_text(self@));
        out
    }
}

impl DefinitionBook {
    /// The dense form of the definitions.
    pub fn display(&self) -> (r: String)
        ensures
            r@ == book_text(self@),
    {
        let mut out = String::new();
        let ghost parts = definition_texts(self@);
        let mut i: usize = 0;
        proof {
            assert(out@ =~= join(parts.take(0), "\n\n"@));
        }
        while i < self.defs.len()
            invariant
                i <= self.defs.len(),
                parts == definition_texts(self@),
                parts.len() == self.defs.len(),
                out@ == join(parts.take(i as int), "\n\n"@),
            decreases self.defs.len() - i,
        {
            if i != 0 {
                out.append("\n\n");
            }
            self.defs[i].write(&mut out);
            proof {
                lemma_join_step(parts, "\n\n"@, i as int);
                assert(out@ =~= join(parts.take(i + 1), "\n\n"@));
            }
            i += 1;
        }
        proof {
            assert(parts.take(self.defs.len() as int) =~= parts);
        }
        out
    }

    /// The indented form of the definitions.
    pub fn display_pretty(&self) -> (r: String)
        ensures
            r@ == book_pretty_text(self@),
    {
        let mut out = String::new();
        let ghost parts = definition_pretty_texts(self@);
        let mut i: usize = 0;
        proof {
            assert(out@ =~= join(parts.take(0), "\n\n"@));
        }
        while i < self.defs.len()
            invariant
                i <= self.defs.len(),
                parts == definition_pretty_texts(self@),
                parts.len() == self.defs.len(),
                out@ == join(parts.take(i as int), "\n\n"@),
            decreases self.defs.len() - i,
        {
            if i != 0 {
                out.append("\n\n");
            }
            self.defs[i].write_pretty(&mut out);
            proof {
                lemma_join_step(parts, "\n\n"@, i as int);
                assert(out@ =~= join(parts.take(i + 1), "\n\n"@));
            }
            i += 1;
        }
        proof {
            assert(parts.take(self.defs.len() as int) =~= parts);
        }
        out
    }
}

impl Book {
    /// The dense form of the book: its definitions, in the order in which
    /// they were added.
    pub fn display(&self) -> (r: String)
        ensures
            r@ == book_text(self@.defs),
    {
        self.defs.display()
    }

    /// The indented form of the book.
    pub fn display_pretty(&self) -> (r: String)
        ensures
            r@ == book_pretty_text(self@.defs),
    {
        self.defs.display_pretty()
    }
}

} // verus!
