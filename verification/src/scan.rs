//! Scanning text by characters: occurrences of a pattern, fields of a line,
//! and unsigned decimal numbers.

use vstd::prelude::*;

verus! {

/// The characters of a string slice, one by one.
pub fn to_chars(s: &str) -> (out: Vec<char>)
    ensures
        out@ == s@,
{
    let n: usize = s.unicode_len();
    let mut out: Vec<char> = Vec::new();
    let mut i: usize = 0;
    while i < n
        invariant
            i <= n,
            n == s@.len(),
            out@ == s@.take(i as int),
        decreases n - i,
    {
        out.push(s.get_char(i));
        assert(out@ =~= s@.take(i + 1));
        i += 1;
    }
    assert(s@.take(n as int) =~= s@);
    out
}

/// `pat` stands in `s` at the index `i`.
pub open spec fn occurs_at(s: Seq<char>, pat: Seq<char>, i: int) -> bool {
    0 <= i && i + pat.len() <= s.len() && s.subrange(i, i + pat.len()) == pat
}

/// The least index at or after `from` at which `pat` stands in `s`.
pub open spec fn first_occurrence(s: Seq<char>, pat: Seq<char>, from: int) -> Option<int>
    decreases s.len() - from,
{
    if from < 0 || from + pat.len() > s.len() {
        None
    } else if occurs_at(s, pat, from) {
        Some(from)
    } else if from >= s.len() {
        None
    } else {
        first_occurrence(s, pat, from + 1)
    }
}

/// `first_occurrence` gives an occurrence at or after `from` before which
/// there is none, and `None` exactly if there is none at or after `from`.
pub proof fn lemma_first_occurrence(s: Seq<char>, pat: Seq<char>, from: int)
    requires
        0 <= from,
    ensures
        match first_occurrence(s, pat, from) {
            Some(i) => from <= i && occurs_at(s, pat, i) && forall|j: int|
                from <= j < i ==> !occurs_at(s, pat, j),
            None => forall|j: int| from <= j ==> !occurs_at(s, pat, j),
        },
    decreases s.len() - from,
{
    if from + pat.len() <= s.len() && !occurs_at(s, pat, from) {
        if from >= s.len() {
            assert(s.subrange(from, from + pat.len()) =~= pat);
        } else {
            lemma_first_occurrence(s, pat, from + 1);
        }
    }
}

/// Whether `pat` stands in `s` at the index `at`.
pub fn matches_at(s: &Vec<char>, pat: &Vec<char>, at: usize) -> (yes: bool)
    ensures
        yes == occurs_at(s@, pat@, at as int),
{
    if pat.len() > s.len() || at > s.len() - pat.len() {
        return false;
    }
    let mut k: usize = 0;
    while k < pat.len()
        invariant
            k <= pat.len(),
            at + pat.len() <= s.len(),
            forall|j: int| 0 <= j < k ==> s[at + j] == pat[j],
        decreases pat.len() - k,
    {
        if s[at + k] != pat[k] {
            assert(s@.subrange(at as int, at + pat.len())[k as int] == s[at + k]);
            return false;
        }
        k += 1;
    }
    assert(s@.subrange(at as int, at + pat.len()) =~= pat@);
    true
}

/// The least index at or after `from` at which `pat` stands in `s`.
pub fn find_from(s: &Vec<char>, pat: &Vec<char>, from: usize) -> (at: Option<usize>)
    ensures
        match at {
            Some(i) => first_occurrence(s@, pat@, from as int) == Some(i as int) && i + pat.len()
                <= s.len(),
            None => first_occurrence(s@, pat@, from as int).is_none(),
        },
{
    if pat.len() > s.len() {
        return None;
    }
    let last: usize = s.len() - pat.len();
    let mut i: usize = from;
    while i <= last
        invariant
            from <= i,
            last == s.len() - pat.len(),
            first_occurrence(s@, pat@, from as int) == first_occurrence(s@, pat@, i as int),
        decreases last - i,
    {
        if matches_at(s, pat, i) {
            return Some(i);
        }
        if i == last {
            assert(first_occurrence(s@, pat@, i + 1).is_none());
            return None;
        }
        i += 1;
    }
    None
}

/// A character that separates the fields of a line.
pub open spec fn is_space(c: char) -> bool {
    c == ' ' || c == '\t' || c == '\n' || c == '\r' || c == '\x0b' || c == '\x0c'
}

/// Whether the character separates fields.
pub fn is_space_char(c: char) -> (yes: bool)
    ensures
        yes == is_space(c),
{
    c == ' ' || c == '\t' || c == '\n' || c == '\r' || c == '\x0b' || c == '\x0c'
}

/// The index of the first line feed at or after `from`, or the length of
/// the text where there is none.
pub open spec fn line_end(s: Seq<char>, from: int) -> int
    decreases s.len() - from,
{
    if from < 0 || from >= s.len() {
        s.len() as int
    } else if s[from] == '\n' {
        from
    } else {
        line_end(s, from + 1)
    }
}

/// The first index in `from..end` that holds no separator, or `end`.
pub open spec fn skip_spaces(s: Seq<char>, from: int, end: int) -> int
    decreases end - from,
{
    if from < 0 || from >= end || end > s.len() {
        end
    } else if !is_space(s[from]) {
        from
    } else {
        skip_spaces(s, from + 1, end)
    }
}

/// The first index in `from..end` that holds a separator, or `end`.
pub open spec fn skip_field(s: Seq<char>, from: int, end: int) -> int
    decreases end - from,
{
    if from < 0 || from >= end || end > s.len() {
        end
    } else if is_space(s[from]) {
        from
    } else {
        skip_field(s, from + 1, end)
    }
}

/// The bounds of the second field of the line `from..end`, where the line
/// has two fields.
pub open spec fn second_field(s: Seq<char>, from: int, end: int) -> Option<(int, int)> {
    let a = skip_spaces(s, from, end);
    let b = skip_field(s, a, end);
    let c = skip_spaces(s, b, end);
    let d = skip_field(s, c, end);
    if a < b && c < d {
        Some((c, d))
    } else {
        None
    }
}

/// The index of the first line feed at or after `from`, or the length.
pub fn find_line_end(s: &Vec<char>, from: usize) -> (end: usize)
    ensures
        end == line_end(s@, from as int),
        from <= s.len() ==> from <= end <= s.len(),
{
    let mut i: usize = from;
    while i < s.len()
        invariant
            from <= i,
            line_end(s@, from as int) == line_end(s@, i as int),
        decreases s.len() - i,
    {
        if s[i] == '\n' {
            return i;
        }
        i += 1;
    }
    s.len()
}

/// The first index in `from..end` that holds no separator, or `end`.
pub fn find_field_start(s: &Vec<char>, from: usize, end: usize) -> (at: usize)
    requires
        from <= end <= s.len(),
    ensures
        at == skip_spaces(s@, from as int, end as int),
        from <= at <= end,
{
    let mut i: usize = from;
    while i < end
        invariant
            from <= i <= end <= s.len(),
            skip_spaces(s@, from as int, end as int) == skip_spaces(s@, i as int, end as int),
        decreases end - i,
    {
        if !is_space_char(s[i]) {
            return i;
        }
        i += 1;
    }
    end
}

/// The first index in `from..end` that holds a separator, or `end`.
pub fn find_field_end(s: &Vec<char>, from: usize, end: usize) -> (at: usize)
    requires
        from <= end <= s.len(),
    ensures
        at == skip_field(s@, from as int, end as int),
        from <= at <= end,
{
    let mut i: usize = from;
    while i < end
        invariant
            from <= i <= end <= s.len(),
            skip_field(s@, from as int, end as int) == skip_field(s@, i as int, end as int),
        decreases end - i,
    {
        if is_space_char(s[i]) {
            return i;
        }
        i += 1;
    }
    end
}

/// The bounds of the second field of the line `from..end`.
pub fn find_second_field(s: &Vec<char>, from: usize, end: usize) -> (out: Option<(usize, usize)>)
    requires
        from <= end <= s.len(),
    ensures
        match out {
            Some((c, d)) => second_field(s@, from as int, end as int) == Some((c as int, d as int))
                && from <= c < d <= end,
            None => second_field(s@, from as int, end as int).is_none(),
        },
{
    let a: usize = find_field_start(s, from, end);
    let b: usize = find_field_end(s, a, end);
    let c: usize = find_field_start(s, b, end);
    let d: usize = find_field_end(s, c, end);
    if a < b && c < d {
        Some((c, d))
    } else {
        None
    }
}

/// The character is one of `0` to `9`.
pub open spec fn is_digit(c: char) -> bool {
    '0' <= c <= '9'
}

/// Every character is a decimal digit.
pub open spec fn all_digits(d: Seq<char>) -> bool {
    forall|i: int| 0 <= i < d.len() ==> is_digit(#[trigger] d[i])
}

/// The number that the decimal digits write.
pub open spec fn digits_value(d: Seq<char>) -> nat
    decreases d.len(),
{
    if d.len() == 0 {
        0
    } else {
        (digits_value(d.drop_last()) * 10 + (d.last() as u32 - '0' as u32)) as nat
    }
}

/// The number that a field writes: decimal digits, at least one, after an
/// optional plus sign, where the number is no more than a `u64` holds.
pub open spec fn decimal_u64(t: Seq<char>) -> Option<u64> {
    if t.len() > 0 && t[0] == '+' {
        digits_u64(t.skip(1))
    } else {
        digits_u64(t)
    }
}

/// The number that decimal digits write, where there is at least one and
/// the number is no more than a `u64` holds.
pub open spec fn digits_u64(d: Seq<char>) -> Option<u64> {
    if d.len() > 0 && all_digits(d) && digits_value(d) <= u64::MAX {
        Some(digits_value(d) as u64)
    } else {
        None
    }
}

/// More digits never write a smaller number.
pub proof fn lemma_digits_value_grows(d: Seq<char>, k: int)
    requires
        all_digits(d),
        0 <= k <= d.len(),
    ensures
        digits_value(d.take(k)) <= digits_value(d),
    decreases d.len() - k,
{
    if k < d.len() {
        lemma_digits_value_grows(d, k + 1);
        assert(d.take(k + 1).drop_last() =~= d.take(k));
        assert(is_digit(d[k]));
        assert(d.take(k + 1).last() == d[k]);
    } else {
        assert(d.take(k) =~= d);
    }
}

/// Reads the number that the field `from..to` of `s` writes.
pub fn parse_decimal(s: &Vec<char>, from: usize, to: usize) -> (out: Option<u64>)
    requires
        from <= to <= s.len(),
    ensures
        out == decimal_u64(s@.subrange(from as int, to as int)),
{
    let ghost t = s@.subrange(from as int, to as int);
    let start: usize = if from < to && s[from] == '+' {
        from + 1
    } else {
        from
    };
    let ghost d = s@.subrange(start as int, to as int);
    proof {
        if from < to {
            assert(t[0] == s[from as int]);
        }
        if start > from {
            assert(t.skip(1) =~= d);
        } else {
            assert(t =~= d);
        }
    }
    if start == to {
        return None;
    }
    let mut value: u64 = 0;
    let mut i: usize = start;
    assert(d.take(0) =~= Seq::<char>::empty());
    while i < to
        invariant
            start <= i <= to <= s.len(),
            start < to,
            d == s@.subrange(start as int, to as int),
            decimal_u64(s@.subrange(from as int, to as int)) == digits_u64(d),
            all_digits(d.take(i - start)),
            value == digits_value(d.take(i - start)),
        decreases to - i,
    {
        let c: char = s[i];
        let ghost k = i - start;
        proof {
            assert(d[k] == c);
            assert(d.take(k + 1).drop_last() =~= d.take(k));
            assert(d.take(k + 1).last() == c);
        }
        if !('0' <= c && c <= '9') {
            assert(!is_digit(d[k]));
            return None;
        }
        let digit: u64 = (c as u32 - '0' as u32) as u64;
        proof {
            assert forall|j: int| 0 <= j < d.take(k + 1).len() implies is_digit(
                #[trigger] d.take(k + 1)[j],
            ) by {
                if j < k {
                    assert(d.take(k)[j] == d.take(k + 1)[j]);
                }
            }
        }
        let next: Option<u64> = match value.checked_mul(10) {
            Some(tens) => tens.checked_add(digit),
            None => None,
        };
        match next {
            Some(v) => {
                value = v;
            },
            None => {
                proof {
                    assert(digits_value(d.take(k + 1)) == value * 10 + digit);
                    assert(digits_value(d.take(k + 1)) > u64::MAX);
                    if all_digits(d) {
                        lemma_digits_value_grows(d, k + 1);
                    }
                }
                return None;
            },
        }
        i += 1;
    }
    assert(d.take(to - start) =~= d);
    Some(value)
}

} // verus!
