//! Text helpers: comparing strings, splitting lines, and writing numbers out
//! in binary and decimal.

use vstd::prelude::*;
use vstd::string::{StrSliceExecFns, StringExecFns};

verus! {

/// Whether two strings hold the same characters.
pub fn str_eq(a: &str, b: &str) -> (r: bool)
    ensures
        r == (a@ == b@),
{
    let n = a.unicode_len();
    if n != b.unicode_len() {
        return false;
    }
    let mut i: usize = 0;
    while i < n
        invariant
            n == a@.len() == b@.len(),
            i <= n,
            forall|k: int| 0 <= k < i ==> a@[k] == b@[k],
        decreases n - i,
    {
        if a.get_char(i) != b.get_char(i) {
            return false;
        }
        i = i + 1;
    }
    assert(a@ =~= b@);
    true
}

/// The character of a digit below ten.
pub open spec fn digit_char(d: nat) -> char {
    if d == 0 { '0' } else if d == 1 { '1' } else if d == 2 { '2' } else if d == 3 { '3' }
    else if d == 4 { '4' } else if d == 5 { '5' } else if d == 6 { '6' } else if d == 7 { '7' }
    else if d == 8 { '8' } else { '9' }
}

/// The digits of `v` in base `radix` (2 to 10), most significant first,
/// without leading zeros; zero is the single digit `0`.
pub open spec fn digits(v: nat, radix: nat) -> Seq<char>
    decreases v,
{
    if radix < 2 || v < radix {
        seq![digit_char(v % 10)]
    } else {
        proof {
            lemma_div_shrinks(v as int, radix as int);
        }
        digits(v / radix, radix).push(digit_char(v % radix))
    }
}

/// Dividing by a radix of at least two makes a number of at least the radix smaller.
pub proof fn lemma_div_shrinks(v: int, radix: int)
    requires
        2 <= radix <= v,
    ensures
        0 <= v / radix < v,
        v / radix + 1 <= v,
        2 * (v / radix) <= v,
{
    assert(0 <= v / radix < v) by (nonlinear_arith)
        requires 2 <= radix <= v;
    assert(2 * (v / radix) <= v) by (nonlinear_arith)
        requires 2 <= radix <= v;
}

/// `width` zeros in front of `s`, fewer when `s` is already that long.
pub open spec fn zero_padded(s: Seq<char>, width: nat) -> Seq<char> {
    if s.len() >= width {
        s
    } else {
        Seq::new((width - s.len()) as nat, |_i: int| '0') + s
    }
}

/// Appends the digit `d` (below `radix`, at most 10).
fn append_digit(s: &mut String, d: u64)
    requires
        d < 10,
    ensures
        final(s)@ == old(s)@.push(digit_char(d as nat)),
{
    proof {
        reveal_strlit("0");
        reveal_strlit("1");
        reveal_strlit("2");
        reveal_strlit("3");
        reveal_strlit("4");
        reveal_strlit("5");
        reveal_strlit("6");
        reveal_strlit("7");
        reveal_strlit("8");
        reveal_strlit("9");
    }
    let digit = if d == 0 { "0" } else if d == 1 { "1" } else if d == 2 { "2" } else if d == 3 {
        "3"
    } else if d == 4 { "4" } else if d == 5 { "5" } else if d == 6 { "6" } else if d == 7 {
        "7"
    } else if d == 8 { "8" } else { "9" };
    s.append(digit);
}

/// Appends the digits of `v` in base `radix`.
fn append_digits(s: &mut String, v: u64, radix: u64)
    requires
        2 <= radix <= 10,
    ensures
        final(s)@ == old(s)@ + digits(v as nat, radix as nat),
    decreases v,
{
    if v >= radix {
        proof {
            lemma_div_shrinks(v as int, radix as int);
        }
        append_digits(s, v / radix, radix);
    }
    append_digit(s, v % radix);
    proof {
        if v < radix {
            vstd::arithmetic::div_mod::lemma_small_mod(v as nat, radix as nat);
            vstd::arithmetic::div_mod::lemma_small_mod(v as nat, 10);
        }
    }
}

/// Number of digits of `v` in base `radix`.
fn digit_count(v: u64, radix: u64) -> (n: u64)
    requires
        2 <= radix <= 10,
    ensures
        n == digits(v as nat, radix as nat).len(),
        n <= v as int + 1,
    decreases v,
{
    if v >= radix {
        proof {
            lemma_div_shrinks(v as int, radix as int);
        }
        1 + digit_count(v / radix, radix)
    } else {
        1
    }
}

/// `v` in decimal, as `Display` writes an unsigned integer.
pub fn decimal_text(v: u64) -> (s: String)
    ensures
        s@ == digits(v as nat, 10),
{
    let mut s = String::new();
    append_digits(&mut s, v, 10);
    s
}

/// `value` in binary, padded with zeros to at least `bit_width` digits and
/// followed by `b` (as `format!("{:0width$b}b", ..)` writes it).
pub fn format_binary_value(value: u64, bit_width: usize) -> (s: String)
    ensures
        s@ == zero_padded(digits(value as nat, 2), bit_width as nat).push('b'),
{
    proof {
        reveal_strlit("0");
        reveal_strlit("b");
    }
    let n = digit_count(value, 2);
    let mut s = String::new();
    let mut pad: usize = 0;
    let ghost ds = digits(value as nat, 2);
    let target: usize = if bit_width as u64 > n {
        (bit_width as u64 - n) as usize
    } else {
        0
    };
    while pad < target
        invariant
            pad <= target,
            s@ == Seq::new(pad as nat, |_i: int| '0'),
        decreases target - pad,
    {
        proof {
            reveal_strlit("0");
        }
        s.append("0");
        pad = pad + 1;
        assert(s@ =~= Seq::new(pad as nat, |_i: int| '0'));
    }
    append_digits(&mut s, value, 2);
    s.append("b");
    proof {
        if ds.len() >= bit_width {
            assert(s@ =~= ds.push('b'));
        } else {
            assert(s@ =~= (Seq::new((bit_width - ds.len()) as nat, |_i: int| '0') + ds).push('b'));
        }
    }
    s
}

/// Index of the first `c` in `s` at or after `from`, or `s.len()` when there is none.
pub open spec fn find_char_from(s: Seq<char>, c: char, from: int) -> int
    decreases s.len() - from,
{
    if from >= s.len() {
        s.len() as int
    } else if s[from] == c {
        from
    } else {
        find_char_from(s, c, from + 1)
    }
}

/// A line that ended with a line feed loses a carriage return before it.
pub open spec fn without_cr(line: Seq<char>) -> Seq<char> {
    if line.len() > 0 && line.last() == '\r' {
        line.drop_last()
    } else {
        line
    }
}

/// The lines of `s`, as `str::lines` gives them: split after each `\n`,
/// the `\n` (and a `\r` right before it) dropped; no line after a final `\n`.
pub open spec fn split_lines(s: Seq<char>) -> Seq<Seq<char>>
    decreases s.len(),
{
    if s.len() == 0 {
        Seq::empty()
    } else {
        let i = find_char_from(s, '\n', 0);
        if i >= s.len() {
            seq![s]
        } else {
            proof {
                lemma_find_char_bounds(s, '\n', 0);
            }
            seq![without_cr(s.subrange(0, i))] + split_lines(s.subrange(i + 1, s.len() as int))
        }
    }
}

pub proof fn lemma_find_char_bounds(s: Seq<char>, c: char, from: int)
    requires
        0 <= from <= s.len(),
    ensures
        from <= find_char_from(s, c, from) <= s.len(),
        find_char_from(s, c, from) < s.len() ==> s[find_char_from(s, c, from)] == c,
        forall|k: int| from <= k < find_char_from(s, c, from) ==> s[k] != c,
    decreases s.len() - from,
{
    if from < s.len() && s[from] != c {
        lemma_find_char_bounds(s, c, from + 1);
    }
}

/// A first occurrence found from the start of a suffix is found from the
/// same place in the whole string, shifted.
proof fn lemma_find_char_shift(s: Seq<char>, c: char, from: int, base: int)
    requires
        0 <= base <= from <= s.len(),
    ensures
        find_char_from(s.subrange(base, s.len() as int), c, from - base) + base == find_char_from(
            s,
            c,
            from,
        ),
    decreases s.len() - from,
{
    if from < s.len() && s[from] != c {
        lemma_find_char_shift(s, c, from + 1, base);
    }
}

/// The lines of `s`, as `str::lines` gives them.
pub fn lines(s: &str) -> (r: Vec<String>)
    ensures
        r.deep_view() == split_lines(s@),
{
    let n = s.unicode_len();
    let mut r: Vec<String> = Vec::new();
    let mut start: usize = 0;
    assert(s@.subrange(0, n as int) =~= s@);
    assert(r.deep_view() + split_lines(s@) =~= split_lines(s@));
    while start < n
        invariant
            n == s@.len(),
            start <= n,
            split_lines(s@) == r.deep_view() + split_lines(s@.subrange(start as int, n as int)),
        decreases n - start,
    {
        let ghost rest = s@.subrange(start as int, n as int);
        let mut i: usize = start;
        while i < n && s.get_char(i) != '\n'
            invariant
                n == s@.len(),
                start <= i <= n,
                forall|k: int| start <= k < i ==> s@[k] != '\n',
            decreases n - i,
        {
            i = i + 1;
        }
        proof {
            lemma_find_char_bounds(rest, '\n', 0);
            lemma_find_char_shift(s@, '\n', start as int, start as int);
            lemma_find_char_bounds(s@, '\n', start as int);
            assert(find_char_from(s@, '\n', start as int) == i);
        }
        let ghost before = r.deep_view();
        if i >= n {
            r.push(String::from_str(s.substring_char(start, n)));
            proof {
                assert(split_lines(rest) == seq![rest]);
                assert(r.deep_view() =~= before + split_lines(rest));
                assert(s@.subrange(n as int, n as int) =~= Seq::<char>::empty());
                assert(split_lines(s@.subrange(n as int, n as int)) =~= Seq::<Seq<char>>::empty());
                assert(r.deep_view() + split_lines(s@.subrange(n as int, n as int)) =~= r.deep_view());
            }
            start = n;
        } else {
            let mut end = i;
            if end > start && s.get_char(end - 1) == '\r' {
                end = end - 1;
            }
            r.push(String::from_str(s.substring_char(start, end)));
            proof {
                let line = rest.subrange(0, i - start);
                assert(line =~= s@.subrange(start as int, i as int));
                assert(without_cr(line) =~= s@.subrange(start as int, end as int));
                assert(rest.subrange(i - start + 1, rest.len() as int) =~= s@.subrange(
                    i + 1,
                    n as int,
                ));
                assert(r.deep_view() =~= before.push(without_cr(line)));
            }
            start = i + 1;
        }
    }
    proof {
        assert(s@.subrange(n as int, n as int) =~= Seq::<char>::empty());
        assert(r.deep_view() + Seq::<Seq<char>>::empty() =~= r.deep_view());
    }
    r
}

} // verus!
