//! Text helpers over the characters of a string.

use vstd::prelude::*;

verus! {

/// Whether `s` begins with `prefix`.
pub fn has_prefix(s: &str, prefix: &str) -> (r: bool)
    ensures
        r == prefix@.is_prefix_of(s@),
{
    let n = prefix.unicode_len();
    if s.unicode_len() < n {
        return false;
    }
    let mut i: usize = 0;
    while i < n
        invariant
            n == prefix@.len(),
            n <= s@.len(),
            i <= n,
            forall|j: int| 0 <= j < i ==> prefix@[j] == s@[j],
        decreases n - i,
    {
        if s.get_char(i) != prefix.get_char(i) {
            return false;
        }
        i = i + 1;
    }
    assert(prefix@ =~= s@.subrange(0, n as int));
    true
}

/// Unicode's `White_Space` characters.
pub open spec fn is_white_space(c: char) -> bool {
    let v = c as u32;
    ||| 0x09 <= v <= 0x0d
    ||| v == 0x20
    ||| v == 0x85
    ||| v == 0xa0
    ||| v == 0x1680
    ||| 0x2000 <= v <= 0x200a
    ||| v == 0x2028
    ||| v == 0x2029
    ||| v == 0x202f
    ||| v == 0x205f
    ||| v == 0x3000
}

/// Whether `c` is a `White_Space` character.
pub fn white_space(c: char) -> (r: bool)
    ensures
        r == is_white_space(c),
{
    let v = c as u32;
    (0x09 <= v && v <= 0x0d) || v == 0x20 || v == 0x85 || v == 0xa0 || v == 0x1680 || (0x2000
        <= v && v <= 0x200a) || v == 0x2028 || v == 0x2029 || v == 0x202f || v == 0x205f || v
        == 0x3000
}

/// `s` without its leading white space.
pub open spec fn trim_start(s: Seq<char>) -> Seq<char>
    decreases s.len(),
{
    if s.len() > 0 && is_white_space(s[0]) {
        trim_start(s.drop_first())
    } else {
        s
    }
}

/// `s` without its trailing white space.
pub open spec fn trim_end(s: Seq<char>) -> Seq<char>
    decreases s.len(),
{
    if s.len() > 0 && is_white_space(s.last()) {
        trim_end(s.drop_last())
    } else {
        s
    }
}

/// `s` without leading and trailing white space.
pub open spec fn trimmed(s: Seq<char>) -> Seq<char> {
    trim_end(trim_start(s))
}

proof fn lemma_trim_start_skip(s: Seq<char>, i: int)
    requires
        0 <= i <= s.len(),
        forall|j: int| 0 <= j < i ==> is_white_space(s[j]),
    ensures
        trim_start(s) == trim_start(s.skip(i)),
    decreases i,
{
    if i == 0 {
        assert(s.skip(0) =~= s);
    } else {
        assert(s.drop_first().skip(i - 1) =~= s.skip(i));
        assert forall|j: int| 0 <= j < i - 1 implies is_white_space(s.drop_first()[j]) by {
            assert(s.drop_first()[j] == s[j + 1]);
        }
        lemma_trim_start_skip(s.drop_first(), i - 1);
    }
}

proof fn lemma_trim_end_take(s: Seq<char>, k: int)
    requires
        0 <= k <= s.len(),
        forall|j: int| k <= j < s.len() ==> is_white_space(s[j]),
    ensures
        trim_end(s) == trim_end(s.take(k)),
    decreases s.len() - k,
{
    if k == s.len() {
        assert(s.take(k) =~= s);
    } else {
        assert(s.drop_last().take(k) =~= s.take(k));
        assert(is_white_space(s[s.len() - 1]));
        assert forall|j: int| k <= j < s.drop_last().len() implies is_white_space(
            s.drop_last()[j],
        ) by {
            assert(s.drop_last()[j] == s[j]);
        }
        lemma_trim_end_take(s.drop_last(), k);
    }
}

/// `s` without leading and trailing white space.
pub fn trim(s: &str) -> (r: String)
    ensures
        r@ == trimmed(s@),
{
    let n = s.unicode_len();
    let mut start: usize = 0;
    while start < n && white_space(s.get_char(start))
        invariant
            n == s@.len(),
            start <= n,
            forall|j: int| 0 <= j < start ==> is_white_space(s@[j]),
        decreases n - start,
    {
        start = start + 1;
    }
    proof {
        lemma_trim_start_skip(s@, start as int);
    }
    let ghost rest = s@.skip(start as int);
    assert(start == n || !is_white_space(rest[0]));
    let mut end: usize = n;
    while end > start && white_space(s.get_char(end - 1))
        invariant
            n == s@.len(),
            start <= end <= n,
            rest == s@.skip(start as int),
            forall|j: int| end <= j < n ==> is_white_space(s@[j]),
        decreases end - start,
    {
        end = end - 1;
    }
    proof {
        assert(trim_start(s@) == rest);
        if start == n {
            assert(rest.len() == 0);
        } else {
            assert(!is_white_space(rest[0]));
        }
        assert forall|j: int| end - start <= j < rest.len() implies is_white_space(rest[j]) by {
            assert(rest[j] == s@[j + start]);
        }
        lemma_trim_end_take(rest, end - start);
        let kept = rest.take(end - start);
        assert(kept =~= s@.subrange(start as int, end as int));
        if end > start {
            assert(kept.last() == s@[end - 1]);
        }
    }
    String::from_str(s.substring_char(start, end))
}

/// The numeric value of a run of decimal digits.
pub open spec fn digits_value(d: Seq<char>) -> int
    decreases d.len(),
{
    if d.len() == 0 {
        0
    } else {
        digits_value(d.drop_last()) * 10 + ((d.last() as u32) - ('0' as u32))
    }
}

/// Whether `c` is one of the ASCII digits `0` to `9`.
pub open spec fn is_ascii_digit(c: char) -> bool {
    ('0' as u32) <= (c as u32) <= ('9' as u32)
}

/// The value of one or more ASCII digits, if `d` is such a run.
pub open spec fn digits_only_value(d: Seq<char>) -> Option<int> {
    if d.len() > 0 && forall|i: int| 0 <= i < d.len() ==> is_ascii_digit(#[trigger] d[i]) {
        Some(digits_value(d))
    } else {
        None
    }
}

/// Whether `s` starts with a `+` or `-` sign.
pub open spec fn has_sign(s: Seq<char>) -> bool {
    s.len() > 0 && (s[0] == '+' || s[0] == '-')
}

/// The integer that `s` spells in decimal: an optional `+` or `-`, then one
/// or more ASCII digits.
pub open spec fn decimal_value(s: Seq<char>) -> Option<int> {
    if has_sign(s) {
        match digits_only_value(s.drop_first()) {
            Some(v) => Some(if s[0] == '-' { -v } else { v }),
            None => None,
        }
    } else {
        digits_only_value(s)
    }
}

/// The `i64` that `s` spells, if it spells one in range.
pub open spec fn i64_value(s: Seq<char>) -> Option<int> {
    match decimal_value(s) {
        Some(v) => if i64::MIN <= v <= i64::MAX {
            Some(v)
        } else {
            None
        },
        None => None,
    }
}

/// Parses `s` as an `i64` with std's `str::parse::<i64>`: an optional sign
/// and one or more ASCII digits, whose value is in the range of `i64`. The
/// contract claims that it accepts exactly such text and returns its value.
#[verifier::external_body]
pub(crate) fn parse_i64(s: &str) -> (r: Option<i64>)
    ensures
        match i64_value(s@) {
            Some(v) => r == Some(v as i64),
            None => r is None,
        },
{
    s.parse::<i64>().ok()
}

} // verus!
