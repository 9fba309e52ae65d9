//! The printer: a dense form on one line and an indented form on several.
//!
//! Each form is given as a function from the value of a term to its text;
//! the executable printers append exactly that text.
use vstd::prelude::*;
use vstd::string::StringExecFns;
use crate::term::text::{
    concat, decimal, indent, indented, join, lemma_cat2, lemma_cat3, lemma_cat4, lemma_cat5, lemma_cat6, lemma_cat7,
    lemma_cat8, lemma_cat9, lemma_concat_step, lemma_join_step, spaces, write_decimal, write_spaces,
};
use crate::term::{
    arms_view, idents, opt_ident, opt_idents, terms_view, ArmView, Ident,
    MatchRule, Name, Op, Tag, TagView, Term, TermView,
};

verus! {

/// The name of a binder, or `*` for one that binds nothing.
pub open spec fn var_text(nam: Option<Ident>) -> Seq<char> {
    match nam {
        Some(n) => n,
        None => "*"@,
    }
}

/// A tag as the user writes it: `#` and the name or the number; nothing for
/// the tags that the compiler puts in.
pub open spec fn tag_text(tag: TagView) -> Seq<char> {
    match tag {
        TagView::Named(n) => "#"@ + n,
        TagView::Numeric(k) => "#"@ + decimal(k as nat),
        TagView::Auto => Seq::empty(),
        TagView::Static => Seq::empty(),
    }
}

/// A tag followed by a space, where the tag has any text.
pub open spec fn tag_padded_text(tag: TagView) -> Seq<char> {
    match tag {
        TagView::Named(n) => "#"@ + n + " "@,
        TagView::Numeric(k) => "#"@ + decimal(k as nat) + " "@,
        TagView::Auto => Seq::empty(),
        TagView::Static => Seq::empty(),
    }
}

pub open spec fn op_text(opr: Op) -> Seq<char> {
    match opr {
        Op::Add => "+"@,
        Op::Sub => "-"@,
        Op::Mul => "*"@,
        Op::Div => "/"@,
        Op::Rem => "%"@,
        Op::Eql => "=="@,
        Op::Neq => "!="@,
        Op::Ltn => "<"@,
        Op::Gtn => ">"@,
        Op::Lte => "<="@,
        Op::Gte => ">="@,
        Op::And => "&"@,
        Op::Or => "|"@,
        Op::Xor => "^"@,
        Op::Shl => "<<"@,
        Op::Shr => ">>"@,
    }
}

/// The text of a string literal: what the standard library's `Debug`
/// formatting of strings gives for these characters.
pub uninterp spec fn debug_text(s: Seq<char>) -> Seq<char>;

/// The names of binders, each as `var_text` gives it.
pub open spec fn var_texts(bnd: Seq<Option<Ident>>) -> Seq<Seq<char>> {
    Seq::new(bnd.len(), |i: int| var_text(bnd[i]))
}

/// The clause that lists the variables a match or switch carries along, with
/// its leading space; nothing where there are none.
pub open spec fn with_text(with: Seq<Ident>) -> Seq<char> {
    if with.len() == 0 {
        Seq::empty()
    } else {
        " with "@ + join(with, ", "@)
    }
}

/// The label of the arm of a switch at a position: its number, or `_` for
/// the last.
pub open spec fn case_text(i: int, len: int) -> Seq<char> {
    if i == len - 1 {
        "_"@
    } else {
        decimal(i as nat)
    }
}

/// The dense form of a term.
pub open spec fn term_text(t: TermView) -> Seq<char>
    decreases t, 0nat,
{
    match t {
        TermView::Lam { tag, nam, bod } => tag_padded_text(tag) + "\u{3bb}"@ + var_text(nam) + " "@
            + term_text(*bod),
        TermView::Var { nam } => nam,
        TermView::Chn { tag, nam, bod } => tag_padded_text(tag) + "\u{3bb}$"@ + nam + " "@
            + term_text(*bod),
        TermView::Lnk { nam } => "$"@ + nam,
        TermView::Let { nam, val, nxt } => "let "@ + var_text(nam) + " = "@ + term_text(*val)
            + "; "@ + term_text(*nxt),
        TermView::Use { nam, val, nxt } => "use "@ + nam + " = "@ + term_text(*val) + "; "@
            + term_text(*nxt),
        TermView::Ref { nam } => nam,
        TermView::App { tag, fun, arg } => tag_padded_text(tag) + "("@ + app_text(*fun, tag) + " "@
            + term_text(*arg) + ")"@,
        TermView::Mat { arg, bnd, with, arms } => "match "@ + bnd + " = "@ + term_text(*arg)
            + with_text(with) + " { "@ + join(arm_texts(arms), "; "@) + " }"@,
        TermView::Swt { arg, bnd, with, pred, arms } => "switch "@ + bnd + " = "@ + term_text(*arg)
            + with_text(with) + " { "@ + join(case_texts(arms), "; "@) + " }"@,
        TermView::Ltp { bnd, val, nxt } => "let ("@ + join(var_texts(bnd), ", "@) + ") = "@
            + term_text(*val) + "; "@ + term_text(*nxt),
        TermView::Tup { els } => "("@ + join(term_texts(els), ", "@) + ")"@,
        TermView::Dup { tag, bnd, val, nxt } => "let "@ + tag_text(tag) + "{"@ + join(
            var_texts(bnd),
            " "@,
        ) + "} = "@ + term_text(*val) + "; "@ + term_text(*nxt),
        TermView::Sup { tag, els } => tag_text(tag) + "{"@ + join(term_texts(els), " "@) + "}"@,
        TermView::Era => "*"@,
        TermView::Num { val } => decimal(val as nat),
        TermView::Nat { val } => "#"@ + decimal(val as nat),
        TermView::Str { val } => debug_text(val),
        TermView::Opx { opr, fst, snd } => "("@ + op_text(opr) + " "@ + term_text(*fst) + " "@
            + term_text(*snd) + ")"@,
        TermView::Lst { els } => "["@ + join(term_texts(els), ", "@) + "]"@,
        TermView::Error => "<Invalid>"@,
    }
}

/// The function side of an application under a tag: a chain of applications
/// with that same tag is written flat, without brackets of its own.
pub open spec fn app_text(t: TermView, tag: TagView) -> Seq<char>
    decreases t, 1nat,
{
    match t {
        TermView::App { tag: tag2, fun, arg } => if tag2 == tag {
            app_text(*fun, tag) + " "@ + term_text(*arg)
        } else {
            term_text(t)
        },
        _ => term_text(t),
    }
}

/// The dense forms of a list of terms.
pub open spec fn term_texts(ts: Seq<TermView>) -> Seq<Seq<char>>
    decreases ts, 2nat,
{
    Seq::new(
        ts.len(),
        |i: int|
            if 0 <= i < ts.len() {
                term_text(ts[i])
            } else {
                Seq::empty()
            },
    )
}

/// The dense forms of the arms of a match: the pattern, a colon, the body.
pub open spec fn arm_texts(arms: Seq<ArmView>) -> Seq<Seq<char>>
    decreases arms, 2nat,
{
    Seq::new(
        arms.len(),
        |i: int|
            if 0 <= i < arms.len() {
                var_text(arms[i].ctr) + ": "@ + term_text(arms[i].body)
            } else {
                Seq::empty()
            },
    )
}

/// The dense forms of the arms of a switch: the label, a colon, the body.
pub open spec fn case_texts(arms: Seq<TermView>) -> Seq<Seq<char>>
    decreases arms, 2nat,
{
    Seq::new(
        arms.len(),
        |i: int|
            if 0 <= i < arms.len() {
                case_text(i, arms.len() as int) + ": "@ + term_text(arms[i])
            } else {
                Seq::empty()
            },
    )
}

/// The standard library's `Debug` formatting of a string (`format!` with
/// `{:?}`): the text between double quotes, with the escapes that the
/// standard library chooses. The contract names that text and claims no more
/// of it.
#[verifier::external_body]
fn debug_string(s: &String) -> (r: String)
    ensures
        r@ == debug_text(s@),
{
    format!("{:?}", s)
}

pub(crate) fn var_as_str(nam: &Option<Name>) -> (r: &str)
    ensures
        r@ == var_text(opt_ident(*nam)),
{
    match nam {
        Some(n) => n.as_str(),
        None => "*",
    }
}

fn op_as_str(opr: Op) -> (r: &'static str)
    ensures
        r@ == op_text(opr),
{
    match opr {
        Op::Add => "+",
        Op::Sub => "-",
        Op::Mul => "*",
        Op::Div => "/",
        Op::Rem => "%",
        Op::Eql => "==",
        Op::Neq => "!=",
        Op::Ltn => "<",
        Op::Gtn => ">",
        Op::Lte => "<=",
        Op::Gte => ">=",
        Op::And => "&",
        Op::Or => "|",
        Op::Xor => "^",
        Op::Shl => "<<",
        Op::Shr => ">>",
    }
}

impl Tag {
    fn write(&self, out: &mut String)
        ensures
            final(out)@ == old(out)@ + tag_text(self@),
    {
        match self {
            Tag::Named(name) => {
                out.append("#");
                out.append(name.as_str());
            },
            Tag::Numeric(num) => {
                out.append("#");
                write_decimal(out, *num as u64);
            },
            Tag::Auto => {},
            Tag::Static => {},
        }
        assert(out@ =~= old(out)@ + tag_text(self@));
    }

    fn write_padded(&self, out: &mut String)
        ensures
            final(out)@ == old(out)@ + tag_padded_text(self@),
    {
        match self {
            Tag::Named(name) => {
                out.append("#");
                out.append(name.as_str());
                out.append(" ");
            },
            Tag::Numeric(num) => {
                out.append("#");
                write_decimal(out, *num as u64);
                out.append(" ");
            },
            Tag::Auto => {},
            Tag::Static => {},
        }
        assert(out@ =~= old(out)@ + tag_padded_text(self@));
    }

    /// The tag as the user writes it.
    pub fn display(&self) -> (r: String)
        ensures
            r@ == tag_text(self@),
    {
        let mut out = String::new();
        self.write(&mut out);
        assert(out@ =~= tag_text(self@));
        out
    }

    /// The tag followed by a space, where the tag has any text.
    pub fn display_padded(&self) -> (r: String)
        ensures
            r@ == tag_padded_text(self@),
    {
        let mut out = String::new();
        self.write_padded(&mut out);
        assert(out@ =~= tag_padded_text(self@));
        out
    }
}

/// Appends the names, with the separator between each two.
fn write_names(names: &Vec<Name>, sep: &str, out: &mut String)
    ensures
        final(out)@ == old(out)@ + join(idents(names@), sep@),
{
    let ghost parts = idents(names@);
    let mut i: usize = 0;
    while i < names.len()
        invariant
            i <= names.len(),
            parts == idents(names@),
            out@ == old(out)@ + join(parts.take(i as int), sep@),
        decreases names.len() - i,
    {
        if i != 0 {
            out.append(sep);
        }
        out.append(names[i].as_str());
        proof {
            lemma_join_step(parts, sep@, i as int);
            assert(out@ =~= old(out)@ + join(parts.take(i + 1), sep@));
        }
        i += 1;
    }
    proof {
        assert(parts.take(names.len() as int) =~= parts);
    }
}

/// Appends the binders, with the separator between each two.
fn write_binds(bnd: &Vec<Option<Name>>, sep: &str, out: &mut String)
    ensures
        final(out)@ == old(out)@ + join(var_texts(opt_idents(bnd@)), sep@),
{
    let ghost parts = var_texts(opt_idents(bnd@));
    let mut i: usize = 0;
    while i < bnd.len()
        invariant
            i <= bnd.len(),
            parts == var_texts(opt_idents(bnd@)),
            out@ == old(out)@ + join(parts.take(i as int), sep@),
        decreases bnd.len() - i,
    {
        if i != 0 {
            out.append(sep);
        }
        out.append(var_as_str(&bnd[i]));
        proof {
            lemma_join_step(parts, sep@, i as int);
            assert(out@ =~= old(out)@ + join(parts.take(i + 1), sep@));
        }
        i += 1;
    }
    proof {
        assert(parts.take(bnd.len() as int) =~= parts);
    }
}

fn write_with(with: &Vec<Name>, out: &mut String)
    ensures
        final(out)@ == old(out)@ + with_text(idents(with@)),
{
    if with.len() != 0 {
        out.append(" with ");
        write_names(with, ", ", out);
    }
    assert(out@ =~= old(out)@ + with_text(idents(with@)));
}

fn write_case_label(i: usize, len: usize, out: &mut String)
    requires
        i < len,
    ensures
        final(out)@ == old(out)@ + case_text(i as int, len as int),
{
    if i == len - 1 {
        out.append("_");
    } else {
        write_decimal(out, i as u64);
    }
}

/// Appends the dense forms of the terms, with the separator between each
/// two.
fn write_terms(ts: &Vec<Term>, sep: &str, out: &mut String)
    ensures
        final(out)@ == old(out)@ + join(term_texts(terms_view(ts@)), sep@),
    decreases ts, 3nat,
{
    let ghost parts = term_texts(terms_view(ts@));
    let mut i: usize = 0;
    while i < ts.len()
        invariant
            i <= ts.len(),
            parts == term_texts(terms_view(ts@)),
            out@ == old(out)@ + join(parts.take(i as int), sep@),
        decreases ts.len() - i,
    {
        if i != 0 {
            out.append(sep);
        }
        ts[i].write(out);
        proof {
            lemma_join_step(parts, sep@, i as int);
            assert(out@ =~= old(out)@ + join(parts.take(i + 1), sep@));
        }
        i += 1;
    }
    proof {
        assert(parts.take(ts.len() as int) =~= parts);
    }
}

fn write_arms(arms: &Vec<MatchRule>, out: &mut String)
    ensures
        final(out)@ == old(out)@ + join(arm_texts(arms_view(arms@)), "; "@),
    decreases arms, 3nat,
{
    let ghost parts = arm_texts(arms_view(arms@));
    let mut i: usize = 0;
    while i < arms.len()
        invariant
            i <= arms.len(),
            parts == arm_texts(arms_view(arms@)),
            out@ == old(out)@ + join(parts.take(i as int), "; "@),
        decreases arms.len() - i,
    {
        if i != 0 {
            out.append("; ");
        }
        let ghost mid = out@;
        let arm = &arms[i];
        out.append(var_as_str(&arm.0));
        out.append(": ");
        arm.2.write(out);
        proof {
            assert(out@ =~= mid + parts[i as int]);
            lemma_join_step(parts, "; "@, i as int);
            assert(out@ =~= old(out)@ + join(parts.take(i + 1), "; "@));
        }
        i += 1;
    }
    proof {
        assert(parts.take(arms.len() as int) =~= parts);
    }
}

fn write_cases(arms: &Vec<Term>, out: &mut String)
    ensures
        final(out)@ == old(out)@ + join(case_texts(terms_view(arms@)), "; "@),
    decreases arms, 3nat,
{
    let ghost parts = case_texts(terms_view(arms@));
    let mut i: usize = 0;
    while i < arms.len()
        invariant
            i <= arms.len(),
            parts == case_texts(terms_view(arms@)),
            out@ == old(out)@ + join(parts.take(i as int), "; "@),
        decreases arms.len() - i,
    {
        if i != 0 {
            out.append("; ");
        }
        let ghost mid = out@;
        write_case_label(i, arms.len(), out);
        out.append(": ");
        arms[i].write(out);
        proof {
            assert(out@ =~= mid + parts[i as int]);
            lemma_join_step(parts, "; "@, i as int);
            assert(out@ =~= old(out)@ + join(parts.take(i + 1), "; "@));
        }
        i += 1;
    }
    proof {
        assert(parts.take(arms.len() as int) =~= parts);
    }
}

impl Term {
    /// Appends the dense form of the term.
    pub fn write(&self, out: &mut String)
        ensures
            final(out)@ == old(out)@ + term_text(self@),
        decreases self, 0nat,
    {
        match self {
            Term::Lam { tag, nam, bod } => {
                tag.write_padded(out);
                out.append("\u{3bb}");
                out.append(var_as_str(nam));
                out.append(" ");
                bod.write(out);
                proof {
                    lemma_cat5(
                        old(out)@,
                        tag_padded_text(tag@),
                        "\u{3bb}"@,
                        var_text(opt_ident(*nam)),
                        " "@,
                        term_text(bod@),
                    );
                }
            },
            Term::Var { nam } => {
                out.append(nam.as_str());
            },
            Term::Chn { tag, nam, bod } => {
                tag.write_padded(out);
                out.append("\u{3bb}$");
                out.append(nam.as_str());
                out.append(" ");
                bod.write(out);
                proof {
                    lemma_cat5(
                        old(out)@,
                        tag_padded_text(tag@),
                        "\u{3bb}$"@,
                        nam@,
                        " "@,
                        term_text(bod@),
                    );
                }
            },
            Term::Lnk { nam } => {
                out.append("$");
                out.append(nam.as_str());
                proof {
                    lemma_cat2(old(out)@, "$"@, nam@);
                }
            },
            Term::Let { nam, val, nxt } => {
                out.append("let ");
                out.append(var_as_str(nam));
                out.append(" = ");
                val.write(out);
                out.append("; ");
                nxt.write(out);
                proof {
                    lemma_cat6(
                        old(out)@,
                        "let "@,
                        var_text(opt_ident(*nam)),
                        " = "@,
                        term_text(val@),
                        "; "@,
                        term_text(nxt@),
                    );
                }
            },
            Term::Use { nam, val, nxt } => {
                out.append("use ");
                out.append(nam.as_str());
                out.append(" = ");
                val.write(out);
                out.append("; ");
                nxt.write(out);
                proof {
                    lemma_cat6(
                        old(out)@,
                        "use "@,
                        nam@,
                        " = "@,
                        term_text(val@),
                        "; "@,
                        term_text(nxt@),
                    );
                }
            },
            Term::Ref { nam } => {
                out.append(nam.as_str());
            },
            Term::App { tag, fun, arg } => {
                tag.write_padded(out);
                out.append("(");
                fun.write_app(tag, out);
                out.append(" ");
                arg.write(out);
                out.append(")");
                proof {
                    lemma_cat6(
                        old(out)@,
                        tag_padded_text(tag@),
                        "("@,
                        app_text(fun@, tag@),
                        " "@,
                        term_text(arg@),
                        ")"@,
                    );
                }
            },
            Term::Mat { arg, bnd, with, arms } => {
                out.append("match ");
                out.append(bnd.as_str());
                out.append(" = ");
                arg.write(out);
                write_with(with, out);
                out.append(" { ");
                write_arms(arms, out);
                out.append(" }");
                proof {
                    lemma_cat8(
                        old(out)@,
                        "match "@,
                        bnd@,
                        " = "@,
                        term_text(arg@),
                        with_text(idents(with@)),
                        " { "@,
                        join(arm_texts(arms_view(arms@)), "; "@),
                        " }"@,
                    );
                }
            },
            Term::Swt { arg, bnd, with, pred: _, arms } => {
                out.append("switch ");
                out.append(bnd.as_str());
                out.append(" = ");
                arg.write(out);
                write_with(with, out);
                out.append(" { ");
                write_cases(arms, out);
                out.append(" }");
                proof {
                    lemma_cat8(
                        old(out)@,
                        "switch "@,
                        bnd@,
                        " = "@,
                        term_text(arg@),
                        with_text(idents(with@)),
                        " { "@,
                        join(case_texts(terms_view(arms@)), "; "@),
                        " }"@,
                    );
                }
            },
            Term::Ltp { bnd, val, nxt } => {
                out.append("let (");
                write_binds(bnd, ", ", out);
                out.append(") = ");
                val.write(out);
                out.append("; ");
                nxt.write(out);
                proof {
                    lemma_cat6(
                        old(out)@,
                        "let ("@,
                        join(var_texts(opt_idents(bnd@)), ", "@),
                        ") = "@,
                        term_text(val@),
                        "; "@,
                        term_text(nxt@),
                    );
                }
            },
            Term::Tup { els } => {
                out.append("(");
                write_terms(els, ", ", out);
                out.append(")");
                proof {
                    lemma_cat3(old(out)@, "("@, join(term_texts(terms_view(els@)), ", "@), ")"@);
                }
            },
            Term::Dup { tag, bnd, val, nxt } => {
                out.append("let ");
                tag.write(out);
                out.append("{");
                write_binds(bnd, " ", out);
                out.append("} = ");
                val.write(out);
                out.append("; ");
                nxt.write(out);
                proof {
                    lemma_cat8(
                        old(out)@,
                        "let "@,
                        tag_text(tag@),
                        "{"@,
                        join(var_texts(opt_idents(bnd@)), " "@),
                        "} = "@,
                        term_text(val@),
                        "; "@,
                        term_text(nxt@),
                    );
                }
            },
            Term::Sup { tag, els } => {
                tag.write(out);
                out.append("{");
                write_terms(els, " ", out);
                out.append("}");
                proof {
                    lemma_cat4(
                        old(out)@,
                        tag_text(tag@),
                        "{"@,
                        join(term_texts(terms_view(els@)), " "@),
                        "}"@,
                    );
                }
            },
            Term::Era => {
                out.append("*");
            },
            Term::Num { val } => {
                write_decimal(out, *val);
            },
            Term::Nat { val } => {
                out.append("#");
                write_decimal(out, *val);
                proof {
                    lemma_cat2(old(out)@, "#"@, decimal(*val as nat));
                }
            },
            Term::Str { val } => {
                let text = debug_string(val);
                out.append(text.as_str());
            },
            Term::Opx { opr, fst, snd } => {
                out.append("(");
                out.append(op_as_str(*opr));
                out.append(" ");
                fst.write(out);
                out.append(" ");
                snd.write(out);
                out.append(")");
                proof {
                    lemma_cat7(
                        old(out)@,
                        "("@,
                        op_text(*opr),
                        " "@,
                        term_text(fst@),
                        " "@,
                        term_text(snd@),
                        ")"@,
                    );
                }
            },
            Term::Lst { els } => {
                out.append("[");
                write_terms(els, ", ", out);
                out.append("]");
                proof {
                    lemma_cat3(old(out)@, "["@, join(term_texts(terms_view(els@)), ", "@), "]"@);
                }
            },
            Term::Error => {
                out.append("<Invalid>");
            },
        }
    }

    /// Appends the term as the function side of an application under `tag`.
    fn write_app(&self, tag: &Tag, out: &mut String)
        ensures
            final(out)@ == old(out)@ + app_text(self@, tag@),
        decreases self, 1nat,
    {
        match self {
            Term::App { tag: tag2, fun, arg } => {
                if tag2.same(tag) {
                    fun.write_app(tag, out);
                    out.append(" ");
                    arg.write(out);
                    proof {
                        lemma_cat3(old(out)@, app_text(fun@, tag@), " "@, term_text(arg@));
                    }
                } else {
                    self.write(out);
                }
            },
            _ => {
                self.write(out);
            },
        }
    }

    /// The dense form of the term, on one line.
    pub fn display(&self) -> (r: String)
        ensures
            r@ == term_text(self@),
    {
        let mut out = String::new();
        self.write(&mut out);
        assert(out@ =~= term_text(self@));
        out
    }
}

/// The clause that lists the variables a match carries along, in the
/// indented form: without a space before it or after it.
pub open spec fn pretty_with_text(with: Seq<Ident>) -> Seq<char> {
    if with.len() == 0 {
        Seq::empty()
    } else {
        "with "@ + join(with, ", "@)
    }
}

/// The indented form of a term, for a term that starts at the indentation
/// `tab`.
pub open spec fn pretty_text(t: TermView, tab: usize) -> Seq<char>
    decreases t, 0nat,
{
    match t {
        TermView::Lam { tag, nam, bod } => tag_padded_text(tag) + "\u{3bb}"@ + var_text(nam) + " "@
            + pretty_text(*bod, tab),
        TermView::Var { nam } => nam,
        TermView::Chn { tag, nam, bod } => tag_text(tag) + "\u{3bb}$"@ + nam + " "@ + pretty_text(
            *bod,
            tab,
        ),
        TermView::Lnk { nam } => "$"@ + nam,
        TermView::Let { nam, val, nxt } => "let "@ + var_text(nam) + " = "@ + pretty_text(*val, tab)
            + ";\n"@ + spaces(tab as nat) + pretty_text(*nxt, tab),
        TermView::Use { nam, val, nxt } => "use "@ + nam + " = "@ + pretty_text(*val, tab) + ";\n"@
            + spaces(tab as nat) + pretty_text(*nxt, tab),
        TermView::App { tag, fun, arg } => tag_padded_text(tag) + "("@ + pretty_app_text(
            *fun,
            tag,
            tab,
        ) + " "@ + pretty_text(*arg, tab) + ")"@,
        TermView::Ltp { bnd, val, nxt } => "let ("@ + join(var_texts(bnd), ", "@) + ") = "@
            + pretty_text(*val, tab) + ";\n"@ + spaces(tab as nat) + pretty_text(*nxt, tab),
        TermView::Tup { els } => "("@ + join(pretty_texts(els, tab), " "@) + ")"@,
        TermView::Dup { tag, bnd, val, nxt } => "let "@ + tag_padded_text(tag) + "{"@ + join(
            var_texts(bnd),
            " "@,
        ) + "} = "@ + pretty_text(*val, tab) + ";\n"@ + spaces(tab as nat) + pretty_text(*nxt, tab),
        TermView::Sup { tag, els } => tag_padded_text(tag) + "{"@ + join(
            pretty_texts(els, tab),
            " "@,
        ) + "}"@,
        TermView::Lst { els } => "["@ + join(pretty_texts(els, tab), " "@) + "]"@,
        TermView::Opx { opr, fst, snd } => "("@ + op_text(opr) + " "@ + pretty_text(*fst, tab)
            + " "@ + pretty_text(*snd, tab) + ")"@,
        TermView::Mat { arg, bnd, with, arms } => "match "@ + bnd + " = "@ + pretty_text(*arg, tab)
            + " "@ + pretty_with_text(with) + "{\n"@ + concat(pretty_arm_lines(arms, tab)) + spaces(
            tab as nat,
        ) + "}"@,
        TermView::Swt { arg, bnd, with, pred, arms } => "switch "@ + bnd + " = "@ + pretty_text(
            *arg,
            tab,
        ) + " "@ + with_text(with) + "{\n"@ + concat(pretty_case_lines(arms, tab)) + spaces(
            tab as nat,
        ) + "}"@,
        TermView::Nat { val } => "#"@ + decimal(val as nat),
        TermView::Num { val } => decimal(val as nat),
        TermView::Str { val } => debug_text(val),
        TermView::Ref { nam } => nam,
        TermView::Era => "*"@,
        TermView::Error => "<Error>"@,
    }
}

/// The function side of an application under a tag, in the indented form.
pub open spec fn pretty_app_text(t: TermView, tag: TagView, tab: usize) -> Seq<char>
    decreases t, 1nat,
{
    match t {
        TermView::App { tag: tag2, fun, arg } => if tag2 == tag {
            pretty_app_text(*fun, tag, tab) + " "@ + pretty_text(*arg, tab)
        } else {
            pretty_text(t, tab)
        },
        _ => pretty_text(t, tab),
    }
}

/// The indented forms of a list of terms.
pub open spec fn pretty_texts(ts: Seq<TermView>, tab: usize) -> Seq<Seq<char>>
    decreases ts, 2nat,
{
    Seq::new(
        ts.len(),
        |i: int|
            if 0 <= i < ts.len() {
                pretty_text(ts[i], tab)
            } else {
                Seq::empty()
            },
    )
}

/// The lines of the arms of a match: each arm two columns deeper than the
/// match, its body four columns deeper, a semicolon and a line break.
pub open spec fn pretty_arm_lines(arms: Seq<ArmView>, tab: usize) -> Seq<Seq<char>>
    decreases arms, 2nat,
{
    Seq::new(
        arms.len(),
        |i: int|
            if 0 <= i < arms.len() {
                spaces(indent(tab, 2) as nat) + var_text(arms[i].ctr) + ": "@ + pretty_text(
                    arms[i].body,
                    indent(tab, 4),
                ) + ";\n"@
            } else {
                Seq::empty()
            },
    )
}

/// The lines of the arms of a switch.
pub open spec fn pretty_case_lines(arms: Seq<TermView>, tab: usize) -> Seq<Seq<char>>
    decreases arms, 2nat,
{
    Seq::new(
        arms.len(),
        |i: int|
            if 0 <= i < arms.len() {
                spaces(indent(tab, 2) as nat) + case_text(i, arms.len() as int) + ": "@
                    + pretty_text(arms[i], indent(tab, 4)) + ";\n"@
            } else {
                Seq::empty()
            },
    )
}

fn write_pretty_with(with: &Vec<Name>, out: &mut String)
    ensures
        final(out)@ == old(out)@ + pretty_with_text(idents(with@)),
{
    if with.len() != 0 {
        out.append("with ");
        write_names(with, ", ", out);
    }
    assert(out@ =~= old(out)@ + pretty_with_text(idents(with@)));
}

fn write_pretty_terms(ts: &Vec<Term>, tab: usize, out: &mut String)
    ensures
        final(out)@ == old(out)@ + join(pretty_texts(terms_view(ts@), tab), " "@),
    decreases ts, 3nat,
{
    let ghost parts = pretty_texts(terms_view(ts@), tab);
    let mut i: usize = 0;
    while i < ts.len()
        invariant
            i <= ts.len(),
            parts == pretty_texts(terms_view(ts@), tab),
            out@ == old(out)@ + join(parts.take(i as int), " "@),
        decreases ts.len() - i,
    {
        if i != 0 {
            out.append(" ");
        }
        ts[i].write_pretty(tab, out);
        proof {
            lemma_join_step(parts, " "@, i as int);
            assert(out@ =~= old(out)@ + join(parts.take(i + 1), " "@));
        }
        i += 1;
    }
    proof {
        assert(parts.take(ts.len() as int) =~= parts);
    }
}

fn write_pretty_arms(arms: &Vec<MatchRule>, tab: usize, out: &mut String)
    ensures
        final(out)@ == old(out)@ + concat(pretty_arm_lines(arms_view(arms@), tab)),
    decreases arms, 3nat,
{
    let ghost parts = pretty_arm_lines(arms_view(arms@), tab);
    let mut i: usize = 0;
    proof {
        assert(out@ =~= old(out)@ + concat(parts.take(0)));
    }
    while i < arms.len()
        invariant
            i <= arms.len(),
            parts == pretty_arm_lines(arms_view(arms@), tab),
            out@ == old(out)@ + concat(parts.take(i as int)),
        decreases arms.len() - i,
    {
        let ghost mid = out@;
        let arm = &arms[i];
        write_spaces(out, indented(tab, 2));
        out.append(var_as_str(&arm.0));
        out.append(": ");
        arm.2.write_pretty(indented(tab, 4), out);
        out.append(";\n");
        proof {
            lemma_cat5(
                mid,
                spaces(indent(tab, 2) as nat),
                var_text(opt_ident(arm.0)),
                ": "@,
                pretty_text(arm.2@, indent(tab, 4)),
                ";\n"@,
            );
            assert(out@ == mid + parts[i as int]);
            lemma_concat_step(parts, i as int);
            lemma_cat2(old(out)@, concat(parts.take(i as int)), parts[i as int]);
        }
        i += 1;
    }
    proof {
        assert(parts.take(arms.len() as int) =~= parts);
    }
}

fn write_pretty_cases(arms: &Vec<Term>, tab: usize, out: &mut String)
    ensures
        final(out)@ == old(out)@ + concat(pretty_case_lines(terms_view(arms@), tab)),
    decreases arms, 3nat,
{
    let ghost parts = pretty_case_lines(terms_view(arms@), tab);
    let mut i: usize = 0;
    proof {
        assert(out@ =~= old(out)@ + concat(parts.take(0)));
    }
    while i < arms.len()
        invariant
            i <= arms.len(),
            parts == pretty_case_lines(terms_view(arms@), tab),
            out@ == old(out)@ + concat(parts.take(i as int)),
        decreases arms.len() - i,
    {
        let ghost mid = out@;
        write_spaces(out, indented(tab, 2));
        write_case_label(i, arms.len(), out);
        out.append(": ");
        arms[i].write_pretty(indented(tab, 4), out);
        out.append(";\n");
        proof {
            lemma_cat5(
                mid,
                spaces(indent(tab, 2) as nat),
                case_text(i as int, arms.len() as int),
                ": "@,
                pretty_text(arms@[i as int]@, indent(tab, 4)),
                ";\n"@,
            );
            assert(out@ == mid + parts[i as int]);
            lemma_concat_step(parts, i as int);
            lemma_cat2(old(out)@, concat(parts.take(i as int)), parts[i as int]);
        }
        i += 1;
    }
    proof {
        assert(parts.take(arms.len() as int) =~= parts);
    }
}

impl Term {
    /// Appends the indented form of the term, for a term that starts at the
    /// indentation `tab`.
    pub fn write_pretty(&self, tab: usize, out: &mut String)
        ensures
            final(out)@ == old(out)@ + pretty_text(self@, tab),
        decreases self, 0nat,
    {
        match self {
            Term::Lam { tag, nam, bod } => {
                tag.write_padded(out);
                out.append("\u{3bb}");
                out.append(var_as_str(nam));
                out.append(" ");
                bod.write_pretty(tab, out);
                proof {
                    lemma_cat5(
                        old(out)@,
                        tag_padded_text(tag@),
                        "\u{3bb}"@,
                        var_text(opt_ident(*nam)),
                        " "@,
                        pretty_text(bod@, tab),
                    );
                }
            },
            Term::Var { nam } => {
                out.append(nam.as_str());
            },
            Term::Chn { tag, nam, bod } => {
                tag.write(out);
                out.append("\u{3bb}$");
                out.append(nam.as_str());
                out.append(" ");
                bod.write_pretty(tab, out);
                proof {
                    lemma_cat5(
                        old(out)@,
                        tag_text(tag@),
                        "\u{3bb}$"@,
                        nam@,
                        " "@,
                        pretty_text(bod@, tab),
                    );
                }
            },
            Term::Lnk { nam } => {
                out.append("$");
                out.append(nam.as_str());
                proof {
                    lemma_cat2(old(out)@, "$"@, nam@);
                }
            },
            Term::Let { nam, val, nxt } => {
                out.append("let ");
                out.append(var_as_str(nam));
                out.append(" = ");
                val.write_pretty(tab, out);
                out.append(";\n");
                write_spaces(out, tab);
                nxt.write_pretty(tab, out);
                proof {
                    lemma_cat7(
                        old(out)@,
                        "let "@,
                        var_text(opt_ident(*nam)),
                        " = "@,
                        pretty_text(val@, tab),
                        ";\n"@,
                        spaces(tab as nat),
                        pretty_text(nxt@, tab),
                    );
                }
            },
            Term::Use { nam, val, nxt } => {
                out.append("use ");
                out.append(nam.as_str());
                out.append(" = ");
                val.write_pretty(tab, out);
                out.append(";\n");
                write_spaces(out, tab);
                nxt.write_pretty(tab, out);
                proof {
                    lemma_cat7(
                        old(out)@,
                        "use "@,
                        nam@,
                        " = "@,
                        pretty_text(val@, tab),
                        ";\n"@,
                        spaces(tab as nat),
                        pretty_text(nxt@, tab),
                    );
                }
            },
            Term::App { tag, fun, arg } => {
                tag.write_padded(out);
                out.append("(");
                fun.write_app_pretty(tag, tab, out);
                out.append(" ");
                arg.write_pretty(tab, out);
                out.append(")");
                proof {
                    lemma_cat6(
                        old(out)@,
                        tag_padded_text(tag@),
                        "("@,
                        pretty_app_text(fun@, tag@, tab),
                        " "@,
                        pretty_text(arg@, tab),
                        ")"@,
                    );
                }
            },
            Term::Ltp { bnd, val, nxt } => {
                out.append("let (");
                write_binds(bnd, ", ", out);
                out.append(") = ");
                val.write_pretty(tab, out);
                out.append(";\n");
                write_spaces(out, tab);
                nxt.write_pretty(tab, out);
                proof {
                    lemma_cat7(
                        old(out)@,
                        "let ("@,
                        join(var_texts(opt_idents(bnd@)), ", "@),
                        ") = "@,
                        pretty_text(val@, tab),
                        ";\n"@,
                        spaces(tab as nat),
                        pretty_text(nxt@, tab),
                    );
                }
            },
            Term::Tup { els } => {
                out.append("(");
                write_pretty_terms(els, tab, out);
                out.append(")");
                proof {
                    lemma_cat3(
                        old(out)@,
                        "("@,
                        join(pretty_texts(terms_view(els@), tab), " "@),
                        ")"@,
                    );
                }
            },
            Term::Dup { tag, bnd, val, nxt } => {
                out.append("let ");
                tag.write_padded(out);
                out.append("{");
                write_binds(bnd, " ", out);
                out.append("} = ");
                val.write_pretty(tab, out);
                out.append(";\n");
                write_spaces(out, tab);
                nxt.write_pretty(tab, out);
                proof {
                    lemma_cat9(
                        old(out)@,
                        "let "@,
                        tag_padded_text(tag@),
                        "{"@,
                        join(var_texts(opt_idents(bnd@)), " "@),
                        "} = "@,
                        pretty_text(val@, tab),
                        ";\n"@,
                        spaces(tab as nat),
                        pretty_text(nxt@, tab),
                    );
                }
            },
            Term::Sup { tag, els } => {
                tag.write_padded(out);
                out.append("{");
                write_pretty_terms(els, tab, out);
                out.append("}");
                proof {
                    lemma_cat4(
                        old(out)@,
                        tag_padded_text(tag@),
                        "{"@,
                        join(pretty_texts(terms_view(els@), tab), " "@),
                        "}"@,
                    );
                }
            },
            Term::Lst { els } => {
                out.append("[");
                write_pretty_terms(els, tab, out);
                out.append("]");
                proof {
                    lemma_cat3(
                        old(out)@,
                        "["@,
                        join(pretty_texts(terms_view(els@), tab), " "@),
                        "]"@,
                    );
                }
            },
            Term::Opx { opr, fst, snd } => {
                out.append("(");
                out.append(op_as_str(*opr));
                out.append(" ");
                fst.write_pretty(tab, out);
                out.append(" ");
                snd.write_pretty(tab, out);
                out.append(")");
                proof {
                    lemma_cat7(
                        old(out)@,
                        "("@,
                        op_text(*opr),
                        " "@,
                        pretty_text(fst@, tab),
                        " "@,
                        pretty_text(snd@, tab),
                        ")"@,
                    );
                }
            },
            Term::Mat { arg, bnd, with, arms } => {
                out.append("match ");
                out.append(bnd.as_str());
                out.append(" = ");
                arg.write_pretty(tab, out);
                out.append(" ");
                write_pretty_with(with, out);
                out.append("{\n");
                write_pretty_arms(arms, tab, out);
                write_spaces(out, tab);
                out.append("}");
                proof {
                    lemma_cat9(
                        old(out)@,
                        "match "@,
                        bnd@,
                        " = "@,
                        pretty_text(arg@, tab),
                        " "@,
                        pretty_with_text(idents(with@)),
                        "{\n"@,
                        concat(pretty_arm_lines(arms_view(arms@), tab)),
                        spaces(tab as nat),
                    );
                    lemma_cat2(
                        old(out)@,
                        "match "@ + bnd@ + " = "@ + pretty_text(arg@, tab) + " "@
                            + pretty_with_text(idents(with@)) + "{\n"@ + concat(
                            pretty_arm_lines(arms_view(arms@), tab),
                        ) + spaces(tab as nat),
                        "}"@,
                    );
                }
            },
            Term::Swt { arg, bnd, with, pred: _, arms } => {
                out.append("switch ");
                out.append(bnd.as_str());
                out.append(" = ");
                arg.write_pretty(tab, out);
                out.append(" ");
                write_with(with, out);
                out.append("{\n");
                write_pretty_cases(arms, tab, out);
                write_spaces(out, tab);
                out.append("}");
                proof {
                    lemma_cat9(
                        old(out)@,
                        "switch "@,
                        bnd@,
                        " = "@,
                        pretty_text(arg@, tab),
                        " "@,
                        with_text(idents(with@)),
                        "{\n"@,
                        concat(pretty_case_lines(terms_view(arms@), tab)),
                        spaces(tab as nat),
                    );
                    lemma_cat2(
                        old(out)@,
                        "switch "@ + bnd@ + " = "@ + pretty_text(arg@, tab) + " "@ + with_text(
                            idents(with@),
                        ) + "{\n"@ + concat(pretty_case_lines(terms_view(arms@), tab)) + spaces(
                            tab as nat,
                        ),
                        "}"@,
                    );
                }
            },
            Term::Nat { val } => {
                out.append("#");
                write_decimal(out, *val);
                proof {
                    lemma_cat2(old(out)@, "#"@, decimal(*val as nat));
                }
            },
            Term::Num { val } => {
                write_decimal(out, *val);
            },
            Term::Str { val } => {
                let text = debug_string(val);
                out.append(text.as_str());
            },
            Term::Ref { nam } => {
                out.append(nam.as_str());
            },
            Term::Era => {
                out.append("*");
            },
            Term::Error => {
                out.append("<Error>");
            },
        }
    }

    /// Appends the term as the function side of an application under `tag`,
    /// in the indented form.
    fn write_app_pretty(&self, tag: &Tag, tab: usize, out: &mut String)
        ensures
            final(out)@ == old(out)@ + pretty_app_text(self@, tag@, tab),
        decreases self, 1nat,
    {
        match self {
            Term::App { tag: tag2, fun, arg } => {
                if tag2.same(tag) {
                    fun.write_app_pretty(tag, tab, out);
                    out.append(" ");
                    arg.write_pretty(tab, out);
                    proof {
                        lemma_cat3(
                            old(out)@,
                            pretty_app_text(fun@, tag@, tab),
                            " "@,
                            pretty_text(arg@, tab),
                        );
                    }
                } else {
                    self.write_pretty(tab, out);
                }
            },
            _ => {
                self.write_pretty(tab, out);
            },
        }
    }

    /// The indented form of the term, for a term that starts at the
    /// indentation `tab`.
    pub fn display_pretty(&self, tab: usize) -> (r: String)
        ensures
            r@ == pretty_text(self@, tab),
    {
        let mut out = String::new();
        self.write_pretty(tab, &mut out);
        assert(out@ =~= pretty_text(self@, tab));
        out
    }
}

} // verus!
