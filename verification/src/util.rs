//! Small shared helpers: decimal formatting of integers, and rendering an
//! integer-keyed map as one line per entry, sorted by key.

use vstd::prelude::*;
use vstd::multiset::Multiset;

verus! {

/// The character of one decimal digit.
pub open spec fn digit_char(d: int) -> char {
    if d == 0 {
        '0'
    } else if d == 1 {
        '1'
    } else if d == 2 {
        '2'
    } else if d == 3 {
        '3'
    } else if d == 4 {
        '4'
    } else if d == 5 {
        '5'
    } else if d == 6 {
        '6'
    } else if d == 7 {
        '7'
    } else if d == 8 {
        '8'
    } else {
        '9'
    }
}

/// The decimal digits of a non-negative number, most significant first.
pub open spec fn spec_decimal(n: int) -> Seq<char>
    recommends
        n >= 0,
    decreases n,
{
    if n < 10 {
        seq![digit_char(n)]
    } else {
        spec_decimal(n / 10).push(digit_char(n % 10))
    }
}

/// The decimal rendering of a signed number: a minus sign before the digits
/// of its magnitude.
pub open spec fn spec_decimal_i64(n: int) -> Seq<char> {
    if n < 0 {
        seq!['-'] + spec_decimal(-n)
    } else {
        spec_decimal(n)
    }
}

fn digit_str(d: u64) -> (r: &'static str)
    requires
        d < 10,
    ensures
        r@ == seq![digit_char(d as int)],
{
    proof {
        reveal_strlit("0");
        reveal_strlit("1");
        reveal_strlit("2");
        reveal_strlit("3");
        reveal_strlit("4");
        reveal_strlit("5");
        reveal_strlit("6");
        reveal_strlit("7");
        reveal_strlit("8");
        reveal_strlit("9");
    }
    let r = match d {
        0 => "0",
        1 => "1",
        2 => "2",
        3 => "3",
        4 => "4",
        5 => "5",
        6 => "6",
        7 => "7",
        8 => "8",
        _ => "9",
    };
    proof {
        assert(r@ =~= seq![digit_char(d as int)]);
    }
    r
}

/// The decimal digits of `n`, most significant first.
pub fn u64_to_string(n: u64) -> (r: String)
    ensures
        r@ == spec_decimal(n as int),
    decreases n,
{
    if n < 10 {
        String::from_str(digit_str(n))
    } else {
        let mut s = u64_to_string(n / 10);
        s.append(digit_str(n % 10));
        proof {
            assert(s@ =~= spec_decimal(n as int));
        }
        s
    }
}

/// The decimal rendering of `n`, with a leading minus sign when negative.
pub fn i64_to_string(n: i64) -> (r: String)
    ensures
        r@ == spec_decimal_i64(n as int),
{
    if n < 0 {
        let magnitude: u64 = (-(n as i128)) as u64;
        proof {
            reveal_strlit("-");
        }
        let mut s = String::from_str("-");
        let digits = u64_to_string(magnitude);
        s.append(digits.as_str());
        proof {
            assert(s@ =~= spec_decimal_i64(n as int));
        }
        s
    } else {
        u64_to_string(n as u64)
    }
}

/// A number in two digits, zero-padded.
pub open spec fn spec_pad2(n: int) -> Seq<char> {
    if n < 10 {
        seq!['0', digit_char(n)]
    } else {
        spec_decimal(n)
    }
}

/// A calendar day in its serialized form: four-digit year, two-digit month
/// and day, dash-separated.
pub open spec fn spec_date_string(y: int, m: int, d: int) -> Seq<char> {
    spec_decimal(y) + seq!['-'] + spec_pad2(m) + seq!['-'] + spec_pad2(d)
}

fn pad2(n: u64) -> (r: String)
    requires
        n <= 99,
    ensures
        r@ == spec_pad2(n as int),
{
    if n < 10 {
        proof {
            reveal_strlit("0");
        }
        let mut s = String::from_str("0");
        s.append(digit_str(n));
        proof {
            assert(s@ =~= spec_pad2(n as int));
        }
        s
    } else {
        u64_to_string(n)
    }
}

/// The "YYYY-MM-DD" form of a civil date.
pub fn format_ymd(y: i64, m: i64, d: i64) -> (r: String)
    requires
        1000 <= y <= 9999,
        1 <= m <= 12,
        1 <= d <= 31,
    ensures
        r@ == spec_date_string(y as int, m as int, d as int),
{
    proof {
        reveal_strlit("-");
    }
    let mut s = u64_to_string(y as u64);
    s.append("-");
    let month = pad2(m as u64);
    s.append(month.as_str());
    s.append("-");
    let day = pad2(d as u64);
    s.append(day.as_str());
    proof {
        assert(s@ =~= spec_date_string(y as int, m as int, d as int));
    }
    s
}

/// The line an entry is rendered to: the key's digits, a separator, the
/// value.
pub open spec fn spec_entry_line(e: (i64, String)) -> Seq<char> {
    spec_decimal_i64(e.0 as int) + ": "@ + e.1@
}

/// Keys never decrease along the sequence.
pub open spec fn sorted_by_key(s: Seq<(i64, String)>) -> bool {
    forall|i: int, j: int| 0 <= i < j < s.len() ==> (#[trigger] s[i]).0 <= (#[trigger] s[j]).0
}

/// The entries rearranged so the keys never decrease: the same entries (as a
/// multiset), sorted.
pub fn sort_by_key(entries: &Vec<(i64, String)>) -> (r: Vec<(i64, String)>)
    ensures
        r@.to_multiset() == entries@.to_multiset(),
        sorted_by_key(r@),
        r@.len() == entries@.len(),
{
    broadcast use vstd::seq_lib::group_to_multiset_ensures;

    let mut rest: Vec<(i64, String)> = Vec::new();
    let mut i: usize = 0;
    while i < entries.len()
        invariant
            0 <= i <= entries@.len(),
            rest@ =~= entries@.subrange(0, i as int),
        decreases entries@.len() - i,
    {
        rest.push((entries[i].0, entries[i].1.clone()));
        i = i + 1;
    }
    proof {
        assert(rest@ =~= entries@);
    }
    let mut out: Vec<(i64, String)> = Vec::new();
    while rest.len() > 0
        invariant
            out@.to_multiset().add(rest@.to_multiset()) =~= entries@.to_multiset(),
            out@.len() + rest@.len() == entries@.len(),
            sorted_by_key(out@),
            forall|a: int, b: int|
                0 <= a < out@.len() && 0 <= b < rest@.len() ==> (#[trigger] out@[a]).0 <= (
                #[trigger] rest@[b]).0,
        decreases rest@.len(),
    {
        let mut m: usize = 0;
        let mut k: usize = 1;
        while k < rest.len()
            invariant
                0 <= m < rest@.len(),
                m < k <= rest@.len() || (k <= rest@.len() && m < rest@.len()),
                0 <= k <= rest@.len(),
                forall|j: int| 0 <= j < k ==> (#[trigger] rest@[j]).0 >= rest@[m as int].0,
            decreases rest@.len() - k,
        {
            if rest[k].0 < rest[m].0 {
                m = k;
            }
            k = k + 1;
        }
        let ghost oldrest = rest@;
        let ghost oldout = out@;
        let x = rest.remove(m);
        out.push(x);
        proof {
            broadcast use vstd::seq_lib::group_to_multiset_ensures;

            assert(x == oldrest[m as int]);
            assert(rest@ == oldrest.remove(m as int));
            assert(out@ == oldout.push(x));
            assert(rest@.to_multiset() =~= oldrest.to_multiset().remove(x));
            assert(out@.to_multiset() =~= oldout.to_multiset().insert(x));
            assert(oldrest.to_multiset().count(x) >= 1) by {
                assert(oldrest.contains(x));
            }
            assert(out@.to_multiset().add(rest@.to_multiset()) =~= oldout.to_multiset().add(
                oldrest.to_multiset(),
            ));
            assert(forall|j: int|
                0 <= j < rest@.len() ==> (#[trigger] rest@[j]) == oldrest[j] || rest@[j] == oldrest[
                    j + 1
                ]);
            assert(forall|a: int|
                0 <= a < oldout.len() ==> (#[trigger] out@[a]) == oldout[a]);
            assert(out@[out@.len() - 1] == x);
        }
    }
    proof {
        broadcast use vstd::seq_lib::group_to_multiset_ensures;

        assert(rest@.to_multiset() =~= Multiset::<(i64, String)>::empty());
        assert(out@.to_multiset().add(Multiset::<(i64, String)>::empty()) =~= out@.to_multiset());
    }
    out
}

/// One line per entry, keys ascending: the rendering the engine logs a map
/// with.  Line 0 carries the label; line `i + 1` renders the `i`-th entry of
/// the sorted order.
pub fn print_map(label: &str, entries: &Vec<(i64, String)>) -> (r: Vec<String>)
    ensures
        r@.len() == entries@.len() + 1,
        r@[0]@ == label@,
        ({
            exists|sorted: Seq<(i64, String)>|
                {
                    &&& #[trigger] sorted.to_multiset() == entries@.to_multiset()
                    &&& sorted_by_key(sorted)
                    &&& sorted.len() == entries@.len()
                    &&& forall|i: int|
                        0 <= i < sorted.len() ==> (#[trigger] r@[i + 1])@ == spec_entry_line(
                            sorted[i],
                        )
                }
        }),
{
    let sorted = sort_by_key(entries);
    let mut out: Vec<String> = Vec::new();
    out.push(String::from_str(label));
    let mut i: usize = 0;
    while i < sorted.len()
        invariant
            0 <= i <= sorted@.len(),
            out@.len() == i + 1,
            out@[0]@ == label@,
            forall|j: int|
                0 <= j < i ==> (#[trigger] out@[j + 1])@ == spec_entry_line(sorted@[j]),
        decreases sorted@.len() - i,
    {
        let mut line = i64_to_string(sorted[i].0);
        proof {
            reveal_strlit(": ");
        }
        line.append(": ");
        line.append(sorted[i].1.as_str());
        proof {
            assert(line@ =~= spec_entry_line(sorted@[i as int]));
        }
        out.push(line);
        i = i + 1;
    }
    out
}

} // verus!
