//! The character-level model of the input format: whitespace, decimal digits,
//! trimming, splitting a line on semicolons, and the decimal-number grammar
//! that a price field must satisfy.

use vstd::prelude::*;

verus! {

/// The Unicode `White_Space` code points, as `str::trim` removes them.
pub open spec fn is_ws_code(u: u32) -> bool {
    u == 0x09 || u == 0x0A || u == 0x0B || u == 0x0C || u == 0x0D || u == 0x20 || u == 0x85
        || u == 0xA0 || u == 0x1680 || (0x2000 <= u && u <= 0x200A) || u == 0x2028 || u == 0x2029
        || u == 0x202F || u == 0x205F || u == 0x3000
}

/// Whether `c` counts as whitespace for field trimming.
pub open spec fn is_ws(c: char) -> bool {
    is_ws_code(c as u32)
}

/// Whether `c` is an ASCII decimal digit.
pub open spec fn is_digit(c: char) -> bool {
    0x30 <= (c as u32) && (c as u32) <= 0x39
}

pub fn is_ws_char(c: char) -> (b: bool)
    ensures
        b == is_ws(c),
{
    let u = c as u32;
    u == 0x09 || u == 0x0A || u == 0x0B || u == 0x0C || u == 0x0D || u == 0x20 || u == 0x85
        || u == 0xA0 || u == 0x1680 || (0x2000 <= u && u <= 0x200A) || u == 0x2028 || u == 0x2029
        || u == 0x202F || u == 0x205F || u == 0x3000
}

pub fn is_digit_char(c: char) -> (b: bool)
    ensures
        b == is_digit(c),
{
    let u = c as u32;
    0x30 <= u && u <= 0x39
}

/// `s` with leading whitespace removed.
pub open spec fn trim_start(s: Seq<char>) -> Seq<char>
    decreases s.len(),
{
    if s.len() > 0 && is_ws(s[0]) {
        trim_start(s.drop_first())
    } else {
        s
    }
}

/// `s` with trailing whitespace removed.
pub open spec fn trim_end(s: Seq<char>) -> Seq<char>
    decreases s.len(),
{
    if s.len() > 0 && is_ws(s.last()) {
        trim_end(s.drop_last())
    } else {
        s
    }
}

/// `s` with both leading and trailing whitespace removed.
pub open spec fn trim(s: Seq<char>) -> Seq<char> {
    trim_end(trim_start(s))
}

/// When the first `k` characters of `s` are whitespace and the next one (if
/// any) is not, trimming the start drops exactly those `k` characters.
pub proof fn lemma_trim_start_skip(s: Seq<char>, k: int)
    requires
        0 <= k <= s.len(),
        forall|j: int| 0 <= j < k ==> is_ws(s[j]),
        k < s.len() ==> !is_ws(s[k]),
    ensures
        trim_start(s) == s.skip(k),
    decreases k,
{
    if k == 0 {
        assert(s.skip(0) =~= s);
    } else {
        assert(is_ws(s[0]));
        lemma_trim_start_skip(s.drop_first(), k - 1);
        assert(s.drop_first().skip(k - 1) =~= s.skip(k));
    }
}

/// When every character of `s` from position `k` on is whitespace and the one
/// before (if any) is not, trimming the end keeps exactly the first `k`.
pub proof fn lemma_trim_end_take(s: Seq<char>, k: int)
    requires
        0 <= k <= s.len(),
        forall|j: int| k <= j < s.len() ==> is_ws(s[j]),
        k > 0 ==> !is_ws(s[k - 1]),
    ensures
        trim_end(s) == s.take(k),
    decreases s.len() - k,
{
    if k == s.len() {
        assert(s.take(k) =~= s);
    } else {
        assert(is_ws(s.last()));
        lemma_trim_end_take(s.drop_last(), k);
        assert(s.drop_last().take(k) =~= s.take(k));
    }
}

/// Computes the trimmed sub-range of `line[start..end]`: the returned pair
/// `(a, b)` bounds the same characters that `trim` keeps.
pub fn trim_range(line: &str, start: usize, end: usize) -> (r: (usize, usize))
    requires
        start <= end <= line@.len(),
    ensures
        start <= r.0 <= r.1 <= end,
        line@.subrange(r.0 as int, r.1 as int) == trim(line@.subrange(start as int, end as int)),
{
    let mut a = start;
    while a < end && is_ws_char(line.get_char(a))
        invariant
            start <= a <= end <= line@.len(),
            forall|j: int| start <= j < a ==> is_ws(line@[j]),
        decreases end - a,
    {
        a = a + 1;
    }
    let mut b = end;
    while b > a && is_ws_char(line.get_char(b - 1))
        invariant
            start <= a <= b <= end <= line@.len(),
            a == end || !is_ws(line@[a as int]),
            forall|j: int| start <= j < a ==> is_ws(line@[j]),
            forall|j: int| b <= j < end ==> is_ws(line@[j]),
        decreases b - a,
    {
        b = b - 1;
    }
    proof {
        let s = line@.subrange(start as int, end as int);
        assert forall|j: int| 0 <= j < a - start implies is_ws(s[j]) by {
            assert(s[j] == line@[start + j]);
        }
        assert(a - start < s.len() ==> !is_ws(s[a - start]));
        lemma_trim_start_skip(s, a - start);
        let t = s.skip(a - start);
        assert(t =~= line@.subrange(a as int, end as int));
        assert forall|j: int| b - a <= j < t.len() implies is_ws(t[j]) by {
            assert(t[j] == line@[a + j]);
        }
        assert(b - a > 0 ==> !is_ws(t[b - a - 1]));
        lemma_trim_end_take(t, b - a);
        assert(t.take(b - a) =~= line@.subrange(a as int, b as int));
    }
    (a, b)
}

/// The fields of `s` split on `;`, untrimmed. Splitting the empty sequence
/// gives one empty field, and every `;` ends the field before it, so there is
/// always one field more than there are semicolons.
pub open spec fn split_semi(s: Seq<char>) -> Seq<Seq<char>>
    decreases s.len(),
{
    if s.len() == 0 {
        seq![Seq::<char>::empty()]
    } else {
        let init = split_semi(s.drop_last());
        if s.last() == ';' {
            init.push(Seq::<char>::empty())
        } else {
            init.update(init.len() - 1, init.last().push(s.last()))
        }
    }
}

pub proof fn lemma_split_semi_nonempty(s: Seq<char>)
    ensures
        split_semi(s).len() >= 1,
    decreases s.len(),
{
    if s.len() > 0 {
        lemma_split_semi_nonempty(s.drop_last());
    }
}

/// The sub-sequences of `s` that a list of index ranges bounds.
pub open spec fn ranges_view(s: Seq<char>, ranges: Seq<(usize, usize)>) -> Seq<Seq<char>> {
    ranges.map_values(|p: (usize, usize)| s.subrange(p.0 as int, p.1 as int))
}

/// Computes the index ranges of the semicolon-separated fields of `line`:
/// the ranges bound exactly the fields that `split_semi` yields.
pub fn split_ranges(line: &str) -> (r: Vec<(usize, usize)>)
    ensures
        ranges_view(line@, r@) == split_semi(line@),
        r@.len() >= 1,
        forall|k: int| 0 <= k < r@.len() ==> #[trigger] r@[k].0 <= r@[k].1 <= line@.len(),
{
    let n = line.unicode_len();
    let mut ranges: Vec<(usize, usize)> = Vec::new();
    let mut cur_start: usize = 0;
    let mut i: usize = 0;
    proof {
        assert(line@.take(0) =~= Seq::<char>::empty());
        assert(line@.subrange(0, 0) =~= Seq::<char>::empty());
        assert(ranges_view(line@, ranges@).push(line@.subrange(0, 0)) =~~= split_semi(
            line@.take(0),
        ));
    }
    while i < n
        invariant
            n == line@.len(),
            cur_start <= i <= n,
            ranges_view(line@, ranges@).push(line@.subrange(cur_start as int, i as int))
                == split_semi(line@.take(i as int)),
            forall|k: int|
                0 <= k < ranges@.len() ==> #[trigger] ranges@[k].0 <= ranges@[k].1 <= line@.len(),
        decreases n - i,
    {
        let ghost s = line@;
        let ghost prev_ranges = ranges@;
        let ghost prev_start = cur_start as int;
        let ghost i0 = i as int;
        let c = line.get_char(i);
        if c == ';' {
            ranges.push((cur_start, i));
            cur_start = i + 1;
        }
        i = i + 1;
        proof {
            assert(s.take(i0 + 1).drop_last() =~= s.take(i0));
            assert(s.take(i0 + 1).last() == s[i0]);
            let prev_split = split_semi(s.take(i0));
            assert(prev_split == ranges_view(s, prev_ranges).push(s.subrange(prev_start, i0)));
            if s[i0] == ';' {
                assert(split_semi(s.take(i0 + 1)) == prev_split.push(Seq::<char>::empty()));
                assert(ranges_view(s, ranges@) =~~= ranges_view(s, prev_ranges).push(
                    s.subrange(prev_start, i0),
                ));
                assert(s.subrange(i0 + 1, i0 + 1) =~= Seq::<char>::empty());
                assert(ranges_view(s, ranges@).push(s.subrange(i as int, i as int))
                    =~~= split_semi(s.take(i as int)));
            } else {
                assert(split_semi(s.take(i0 + 1)) == prev_split.update(
                    prev_split.len() - 1,
                    prev_split.last().push(s[i0]),
                ));
                assert(prev_split.last() == s.subrange(prev_start, i0));
                assert(s.subrange(prev_start, i0).push(s[i0]) =~= s.subrange(prev_start, i0 + 1));
                assert(ranges_view(s, ranges@).push(s.subrange(cur_start as int, i as int))
                    =~~= split_semi(s.take(i as int)));
            }
        }
    }
    ranges.push((cur_start, n));
    proof {
        assert(line@.take(n as int) =~= line@);
        assert(ranges_view(line@, ranges@) =~~= split_semi(line@));
    }
    ranges
}

/// The unsigned part of a decimal number: only digits and at most one `.`,
/// with at least one digit.
pub open spec fn decimal_digits(t: Seq<char>) -> bool {
    &&& forall|j: int| 0 <= j < t.len() ==> is_digit(#[trigger] t[j]) || t[j] == '.'
    &&& forall|j: int, k: int|
        0 <= j < k < t.len() && #[trigger] t[j] == '.' ==> #[trigger] t[k] != '.'
    &&& exists|j: int| 0 <= j < t.len() && is_digit(#[trigger] t[j])
}

/// A decimal number in standard notation: an optional sign, then digits with
/// an optional fractional part.
pub open spec fn is_decimal(s: Seq<char>) -> bool {
    if s.len() > 0 && (s[0] == '+' || s[0] == '-') {
        decimal_digits(s.drop_first())
    } else {
        decimal_digits(s)
    }
}

/// Decides whether `line[start..end]` is a decimal number.
pub fn check_decimal(line: &str, start: usize, end: usize) -> (b: bool)
    requires
        start <= end <= line@.len(),
    ensures
        b == is_decimal(line@.subrange(start as int, end as int)),
{
    let ghost s = line@.subrange(start as int, end as int);
    let mut i = start;
    if end > start {
        let c0 = line.get_char(start);
        if c0 == '+' || c0 == '-' {
            i = start + 1;
        }
    }
    let ghost t = line@.subrange(i as int, end as int);
    proof {
        if i > start {
            assert(t =~= s.drop_first());
        } else {
            assert(t =~= s);
        }
        assert(is_decimal(s) == decimal_digits(t));
    }
    let body_start = i;
    let mut seen_digit = false;
    let mut seen_dot = false;
    let mut j = i;
    while j < end
        invariant
            start <= body_start <= j <= end <= line@.len(),
            t == line@.subrange(body_start as int, end as int),
            is_decimal(line@.subrange(start as int, end as int)) == decimal_digits(t),
            t.len() == end - body_start,
            forall|k: int| 0 <= k < j - body_start ==> #[trigger] t[k] == line@[body_start + k],
            seen_digit == exists|k: int| 0 <= k < j - body_start && is_digit(#[trigger] t[k]),
            seen_dot == exists|k: int| 0 <= k < j - body_start && #[trigger] t[k] == '.',
            forall|k: int| 0 <= k < j - body_start ==> is_digit(#[trigger] t[k]) || t[k] == '.',
            forall|k: int, l: int|
                0 <= k < l < j - body_start && #[trigger] t[k] == '.' ==> #[trigger] t[l] != '.',
        decreases end - j,
    {
        let c = line.get_char(j);
        proof {
            assert(t[j - body_start] == line@[j as int]);
        }
        if is_digit_char(c) {
            proof {
                assert(is_digit(t[j - body_start]));
            }
            seen_digit = true;
        } else if c == '.' {
            if seen_dot {
                proof {
                    let prev = choose|k: int| 0 <= k < j - body_start && t[k] == '.';
                    assert(t[prev] == '.' && t[j - body_start] == '.');
                    assert(!decimal_digits(t));
                }
                return false;
            }
            seen_dot = true;
        } else {
            proof {
                assert(!(is_digit(t[j - body_start]) || t[j - body_start] == '.'));
                assert(!decimal_digits(t));
            }
            return false;
        }
        j = j + 1;
    }
    proof {
        if seen_digit {
            assert(decimal_digits(t));
        } else {
            assert(!decimal_digits(t));
        }
    }
    seen_digit
}

} // verus!
