//! Pieces of text that the printer and the synthesized names are built from.
use vstd::prelude::*;
use vstd::string::StringExecFns;

verus! {

/// The parts, in order, with the separator between each two of them.
pub open spec fn join(parts: Seq<Seq<char>>, sep: Seq<char>) -> Seq<char>
    decreases parts.len(),
{
    if parts.len() == 0 {
        Seq::empty()
    } else if parts.len() == 1 {
        parts[0]
    } else {
        join(parts.drop_last(), sep) + sep + parts.last()
    }
}

/// Joining one part more: the separator comes first, unless the part is the
/// first.
pub proof fn lemma_join_step(parts: Seq<Seq<char>>, sep: Seq<char>, i: int)
    requires
        0 <= i < parts.len(),
    ensures
        join(parts.take(i + 1), sep) == if i == 0 {
            parts[0]
        } else {
            join(parts.take(i), sep) + sep + parts[i]
        },
        join(parts.take(0), sep) == Seq::<char>::empty(),
        parts.take(parts.len() as int) == parts,
{
    assert(parts.take(i + 1).drop_last() =~= parts.take(i));
    assert(parts.take(i + 1).last() == parts[i]);
    assert(parts.take(parts.len() as int) =~= parts);
}

/// The parts, in order, with nothing between them.
pub open spec fn concat<A>(parts: Seq<Seq<A>>) -> Seq<A>
    decreases parts.len(),
{
    if parts.len() == 0 {
        Seq::empty()
    } else {
        concat(parts.drop_last()) + parts.last()
    }
}

/// Concatenating one part more appends it.
pub proof fn lemma_concat_step<A>(parts: Seq<Seq<A>>, i: int)
    requires
        0 <= i < parts.len(),
    ensures
        concat(parts.take(i + 1)) == concat(parts.take(i)) + parts[i],
        concat(parts.take(0)) == Seq::<A>::empty(),
        parts.take(parts.len() as int) == parts,
{
    assert(parts.take(i + 1).drop_last() =~= parts.take(i));
    assert(parts.take(i + 1).last() == parts[i]);
    assert(parts.take(parts.len() as int) =~= parts);
}

/// Appending two sequences one after the other appends their concatenation.
pub proof fn lemma_append_assoc<A>(o: Seq<A>, a: Seq<A>, b: Seq<A>)
    ensures
        o + a + b == o + (a + b),
        o + Seq::<A>::empty() == o,
{
    assert(o + a + b =~= o + (a + b));
    assert(o + Seq::<A>::empty() =~= o);
}

/// An indentation made deeper. One that would not fit the machine's word
/// stays at the largest value.
pub open spec fn indent(tab: usize, by: usize) -> usize {
    if tab + by > usize::MAX {
        usize::MAX
    } else {
        (tab + by) as usize
    }
}

pub fn indented(tab: usize, by: usize) -> (r: usize)
    ensures
        r == indent(tab, by),
{
    if tab > usize::MAX - by {
        usize::MAX
    } else {
        tab + by
    }
}

/// The character of a decimal digit.
pub open spec fn digit(d: nat) -> char {
    if d == 0 {
        '0'
    } else if d == 1 {
        '1'
    } else if d == 2 {
        '2'
    } else if d == 3 {
        '3'
    } else if d == 4 {
        '4'
    } else if d == 5 {
        '5'
    } else if d == 6 {
        '6'
    } else if d == 7 {
        '7'
    } else if d == 8 {
        '8'
    } else {
        '9'
    }
}

/// A number in decimal, without leading zeros.
pub open spec fn decimal(n: nat) -> Seq<char>
    decreases n,
{
    if n < 10 {
        seq![digit(n)]
    } else {
        decimal(n / 10).push(digit(n % 10))
    }
}

/// That many spaces.
pub open spec fn spaces(n: nat) -> Seq<char> {
    Seq::new(n, |i: int| ' ')
}

fn digit_str(d: u64) -> (r: &'static str)
    requires
        d < 10,
    ensures
        r@ == seq![digit(d as nat)],
{
    proof {
        reveal_strlit("0");
        reveal_strlit("1");
        reveal_strlit("2");
        reveal_strlit("3");
        reveal_strlit("4");
        reveal_strlit("5");
        reveal_strlit("6");
        reveal_strlit("7");
        reveal_strlit("8");
        reveal_strlit("9");
    }
    let r = if d == 0 {
        "0"
    } else if d == 1 {
        "1"
    } else if d == 2 {
        "2"
    } else if d == 3 {
        "3"
    } else if d == 4 {
        "4"
    } else if d == 5 {
        "5"
    } else if d == 6 {
        "6"
    } else if d == 7 {
        "7"
    } else if d == 8 {
        "8"
    } else {
        "9"
    };
    assert(r@ =~= seq![digit(d as nat)]);
    r
}

/// Appends a number in decimal.
pub fn write_decimal(out: &mut String, n: u64)
    ensures
        final(out)@ == old(out)@ + decimal(n as nat),
    decreases n,
{
    if n >= 10 {
        write_decimal(out, n / 10);
    }
    out.append(digit_str(n % 10));
    assert(out@ =~= old(out)@ + decimal(n as nat));
}

/// Appends that many spaces.
pub fn write_spaces(out: &mut String, n: usize)
    ensures
        final(out)@ == old(out)@ + spaces(n as nat),
{
    let mut i: usize = 0;
    while i < n
        invariant
            i <= n,
            out@ == old(out)@ + spaces(i as nat),
        decreases n - i,
    {
        proof {
            reveal_strlit(" ");
        }
        out.append(" ");
        i += 1;
        assert(out@ =~= old(out)@ + spaces(i as nat));
    }
}

/// A number in decimal, as a string of its own.
pub fn decimal_string(n: u64) -> (r: String)
    ensures
        r@ == decimal(n as nat),
{
    let mut out = String::new();
    write_decimal(&mut out, n);
    assert(out@ =~= decimal(n as nat));
    out
}

/// Two numbers with the same decimal text are the same number.
pub proof fn lemma_decimal_injective(a: nat, b: nat)
    requires
        decimal(a) == decimal(b),
    ensures
        a == b,
    decreases a,
{
    lemma_decimal_len(a);
    lemma_decimal_len(b);
    if a < 10 || b < 10 {
        assert(decimal(a).len() == 1);
        assert(a < 10 && b < 10);
        assert(decimal(a)[0] == digit(a));
        assert(decimal(b)[0] == digit(b));
    } else {
        let da = decimal(a / 10);
        let db = decimal(b / 10);
        assert(decimal(a).last() == digit(a % 10));
        assert(decimal(b).last() == digit(b % 10));
        assert(decimal(a).drop_last() =~= da);
        assert(decimal(b).drop_last() =~= db);
        lemma_decimal_injective(a / 10, b / 10);
    }
}

/// A number below ten has one digit, any other has more.
pub proof fn lemma_decimal_len(n: nat)
    ensures
        decimal(n).len() >= 1,
        n < 10 <==> decimal(n).len() == 1,
    decreases n,
{
    if n >= 10 {
        lemma_decimal_len(n / 10);
    }
}

/// Appending 2 pieces one after another appends their concatenation.
pub proof fn lemma_cat2(o: Seq<char>, a: Seq<char>, b: Seq<char>)
    ensures
        o + a + b == o + (a + b),
{
    assert(o + a + b =~= o + (a + b));
}

/// Appending 3 pieces one after another appends their concatenation.
pub proof fn lemma_cat3(o: Seq<char>, a: Seq<char>, b: Seq<char>, c: Seq<char>)
    ensures
        o + a + b + c == o + (a + b + c),
{
    assert(o + a + b + c =~= o + (a + b + c));
}

/// Appending 4 pieces one after another appends their concatenation.
pub proof fn lemma_cat4(o: Seq<char>, a: Seq<char>, b: Seq<char>, c: Seq<char>, d: Seq<char>)
    ensures
        o + a + b + c + d == o + (a + b + c + d),
{
    assert(o + a + b + c + d =~= o + (a + b + c + d));
}

/// Appending 5 pieces one after another appends their concatenation.
pub proof fn lemma_cat5(
    o: Seq<char>,
    a: Seq<char>,
    b: Seq<char>,
    c: Seq<char>,
    d: Seq<char>,
    e: Seq<char>,
)
    ensures
        o + a + b + c + d + e == o + (a + b + c + d + e),
{
    assert(o + a + b + c + d + e =~= o + (a + b + c + d + e));
}

/// Appending 6 pieces one after another appends their concatenation.
pub proof fn lemma_cat6(
    o: Seq<char>,
    a: Seq<char>,
    b: Seq<char>,
    c: Seq<char>,
    d: Seq<char>,
    e: Seq<char>,
    f: Seq<char>,
)
    ensures
        o + a + b + c + d + e + f == o + (a + b + c + d + e + f),
{
    assert(o + a + b + c + d + e + f =~= o + (a + b + c + d + e + f));
}

/// Appending 7 pieces one after another appends their concatenation.
pub proof fn lemma_cat7(
    o: Seq<char>,
    a: Seq<char>,
    b: Seq<char>,
    c: Seq<char>,
    d: Seq<char>,
    e: Seq<char>,
    f: Seq<char>,
    g: Seq<char>,
)
    ensures
        o + a + b + c + d + e + f + g == o + (a + b + c + d + e + f + g),
{
    assert(o + a + b + c + d + e + f + g =~= o + (a + b + c + d + e + f + g));
}

/// Appending 8 pieces one after another appends their concatenation.
pub proof fn lemma_cat8(
    o: Seq<char>,
    a: Seq<char>,
    b: Seq<char>,
    c: Seq<char>,
    d: Seq<char>,
    e: Seq<char>,
    f: Seq<char>,
    g: Seq<char>,
    h: Seq<char>,
)
    ensures
        o + a + b + c + d + e + f + g + h == o + (a + b + c + d + e + f + g + h),
{
    assert(o + a + b + c + d + e + f + g + h =~= o + (a + b + c + d + e + f + g + h));
}

/// Appending 9 pieces one after another appends their concatenation.
pub proof fn lemma_cat9(
    o: Seq<char>,
    a: Seq<char>,
    b: Seq<char>,
    c: Seq<char>,
    d: Seq<char>,
    e: Seq<char>,
    f: Seq<char>,
    g: Seq<char>,
    h: Seq<char>,
    i: Seq<char>,
)
    ensures
        o + a + b + c + d + e + f + g + h + i == o + (a + b + c + d + e + f + g + h + i),
{
    assert(o + a + b + c + d + e + f + g + h + i =~= o + (a + b + c + d + e + f + g + h + i));
}

} // verus!
