//! The file names that the samples of one run are written to.

use vstd::prelude::*;

verus! {

pub open spec fn digit_char(d: nat) -> char {
    if d == 0 {
        '0'
    } else if d == 1 {
        '1'
    } else if d == 2 {
        '2'
    } else if d == 3 {
        '3'
    } else if d == 4 {
        '4'
    } else if d == 5 {
        '5'
    } else if d == 6 {
        '6'
    } else if d == 7 {
        '7'
    } else if d == 8 {
        '8'
    } else {
        '9'
    }
}

/// The decimal digits of `n`, most significant first, without leading zeros.
pub open spec fn decimal(n: nat) -> Seq<char>
    decreases n,
{
    if n < 10 {
        seq![digit_char(n)]
    } else {
        decimal(n / 10).push(digit_char(n % 10))
    }
}

/// The file that sample `n` (counted from one) is written to: the first one
/// to `output` itself, each later one to its number, an underscore, and
/// `output`.
pub open spec fn sample_name(n: nat, output: Seq<char>) -> Seq<char> {
    if n <= 1 {
        output
    } else {
        decimal(n) + "_"@ + output
    }
}

proof fn lemma_decimal_len(n: nat)
    ensures
        decimal(n).len() >= 1,
        n >= 10 ==> decimal(n).len() >= 2,
    decreases n,
{
    if n >= 10 {
        lemma_decimal_len(n / 10);
    }
}

proof fn lemma_digit_char_injective(a: nat, b: nat)
    requires
        a < 10,
        b < 10,
        digit_char(a) == digit_char(b),
    ensures
        a == b,
{
}

proof fn lemma_decimal_injective(a: nat, b: nat)
    requires
        decimal(a) == decimal(b),
    ensures
        a == b,
    decreases a,
{
    lemma_decimal_len(a);
    lemma_decimal_len(b);
    if a < 10 && b < 10 {
        assert(decimal(a) == seq![digit_char(a)]);
        assert(decimal(b) == seq![digit_char(b)]);
        assert(seq![digit_char(a)][0] == digit_char(a));
        assert(seq![digit_char(b)][0] == digit_char(b));
        assert(decimal(a)[0] == decimal(b)[0]);
        lemma_digit_char_injective(a, b);
    } else if a >= 10 && b >= 10 {
        let da = decimal(a);
        assert(da.last() == digit_char(a % 10));
        assert(decimal(b).last() == digit_char(b % 10));
        lemma_digit_char_injective(a % 10, b % 10);
        assert(decimal(a / 10) =~= da.drop_last());
        assert(decimal(b / 10) =~= decimal(b).drop_last());
        lemma_decimal_injective(a / 10, b / 10);
    }
}

/// The samples of a run are written to as many distinct files: the names of
/// two different samples differ.
pub proof fn sample_names_distinct(i: nat, j: nat, output: Seq<char>)
    requires
        1 <= i < j,
    ensures
        sample_name(i, output) != sample_name(j, output),
{
    lemma_decimal_len(i);
    lemma_decimal_len(j);
    reveal_strlit("_");
    if i > 1 && sample_name(i, output) == sample_name(j, output) {
        let a = decimal(i) + "_"@;
        let b = decimal(j) + "_"@;
        assert(sample_name(i, output) == a + output);
        assert(sample_name(j, output) == b + output);
        assert((a + output).len() == a.len() + output.len());
        assert((b + output).len() == b.len() + output.len());
        assert(a.len() == b.len());
        assert(a =~= sample_name(i, output).subrange(0, a.len() as int));
        assert(b =~= sample_name(j, output).subrange(0, b.len() as int));
        assert(decimal(i) =~= a.drop_last());
        assert(decimal(j) =~= b.drop_last());
        lemma_decimal_injective(i, j);
    }
}

fn digit_str(d: u32) -> (r: &'static str)
    requires
        d < 10,
    ensures
        r@ == seq![digit_char(d as nat)],
{
    proof {
        reveal_strlit("0");
        reveal_strlit("1");
        reveal_strlit("2");
        reveal_strlit("3");
        reveal_strlit("4");
        reveal_strlit("5");
        reveal_strlit("6");
        reveal_strlit("7");
        reveal_strlit("8");
        reveal_strlit("9");
    }
    if d == 0 {
        "0"
    } else if d == 1 {
        "1"
    } else if d == 2 {
        "2"
    } else if d == 3 {
        "3"
    } else if d == 4 {
        "4"
    } else if d == 5 {
        "5"
    } else if d == 6 {
        "6"
    } else if d == 7 {
        "7"
    } else if d == 8 {
        "8"
    } else {
        "9"
    }
}

fn append_decimal(s: &mut String, n: u32)
    ensures
        final(s)@ == old(s)@ + decimal(n as nat),
    decreases n,
{
    if n >= 10 {
        append_decimal(s, n / 10);
    }
    let d = digit_str(n % 10);
    s.append(d);
    assert(final(s)@ =~= old(s)@ + decimal(n as nat));
}

/// The file that sample `n` (counted from one) of a run is written to.
pub fn sample_path(n: u32, output: &str) -> (r: String)
    ensures
        r@ == sample_name(n as nat, output@),
{
    if n <= 1 {
        String::from_str(output)
    } else {
        let mut r = String::new();
        append_decimal(&mut r, n);
        r.append("_");
        r.append(output);
        assert(r@ =~= sample_name(n as nat, output@));
        r
    }
}

/// The files that the `samples` samples of a run are written to, in order:
/// `output` for the first, then `2_output`, `3_output` and so on.
pub fn sample_paths(samples: u32, output: &str) -> (r: Vec<String>)
    ensures
        r@.len() == samples,
        forall|i: int| 0 <= i < samples ==> #[trigger] r@[i]@ == sample_name((i + 1) as nat, output@),
{
    let mut r: Vec<String> = Vec::new();
    let mut i: u32 = 0;
    while i < samples
        invariant
            i <= samples,
            r@.len() == i,
            forall|j: int| 0 <= j < i ==> #[trigger] r@[j]@ == sample_name((j + 1) as nat, output@),
        decreases samples - i,
    {
        r.push(sample_path(i + 1, output));
        i = i + 1;
    }
    r
}

} // verus!
