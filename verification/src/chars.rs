//! Character-sequence utilities shared by the negotiator and the proxy:
//! splitting on a separator, trimming whitespace, ASCII lower-casing,
//! and comparing slices of characters against string constants.

use vstd::prelude::*;
use vstd::string::StrSliceExecFns;
use vstd::string::StringExecFns;

verus! {

/// A character with the Unicode `White_Space` property, the set that
/// `str::trim` removes.
pub open spec fn is_ws_char(c: char) -> bool {
    c == ' ' || c == '\t' || c == '\n' || c == '\r' || c == '\u{0b}' || c == '\u{0c}'
        || c == '\u{85}' || c == '\u{a0}' || c == '\u{1680}' || c == '\u{2000}' || c == '\u{2001}'
        || c == '\u{2002}' || c == '\u{2003}' || c == '\u{2004}' || c == '\u{2005}'
        || c == '\u{2006}' || c == '\u{2007}' || c == '\u{2008}' || c == '\u{2009}'
        || c == '\u{200a}' || c == '\u{2028}' || c == '\u{2029}' || c == '\u{202f}'
        || c == '\u{205f}' || c == '\u{3000}'
}

/// Executable twin of [`is_ws_char`].
pub fn is_ws(c: char) -> (r: bool)
    ensures
        r == is_ws_char(c),
{
    c == ' ' || c == '\t' || c == '\n' || c == '\r' || c == '\u{0b}' || c == '\u{0c}'
        || c == '\u{85}' || c == '\u{a0}' || c == '\u{1680}' || c == '\u{2000}' || c == '\u{2001}'
        || c == '\u{2002}' || c == '\u{2003}' || c == '\u{2004}' || c == '\u{2005}'
        || c == '\u{2006}' || c == '\u{2007}' || c == '\u{2008}' || c == '\u{2009}'
        || c == '\u{200a}' || c == '\u{2028}' || c == '\u{2029}' || c == '\u{202f}'
        || c == '\u{205f}' || c == '\u{3000}'
}

/// Maps an ASCII upper-case letter to its lower-case form; leaves every
/// other character unchanged.
pub open spec fn lower_char(c: char) -> char {
    match c {
        'A' => 'a', 'B' => 'b', 'C' => 'c', 'D' => 'd', 'E' => 'e', 'F' => 'f',
        'G' => 'g', 'H' => 'h', 'I' => 'i', 'J' => 'j', 'K' => 'k', 'L' => 'l',
        'M' => 'm', 'N' => 'n', 'O' => 'o', 'P' => 'p', 'Q' => 'q', 'R' => 'r',
        'S' => 's', 'T' => 't', 'U' => 'u', 'V' => 'v', 'W' => 'w', 'X' => 'x',
        'Y' => 'y', 'Z' => 'z', _ => c,
    }
}

/// Executable twin of [`lower_char`].
pub fn ascii_lower(c: char) -> (r: char)
    ensures
        r == lower_char(c),
{
    match c {
        'A' => 'a', 'B' => 'b', 'C' => 'c', 'D' => 'd', 'E' => 'e', 'F' => 'f',
        'G' => 'g', 'H' => 'h', 'I' => 'i', 'J' => 'j', 'K' => 'k', 'L' => 'l',
        'M' => 'm', 'N' => 'n', 'O' => 'o', 'P' => 'p', 'Q' => 'q', 'R' => 'r',
        'S' => 's', 'T' => 't', 'U' => 'u', 'V' => 'v', 'W' => 'w', 'X' => 'x',
        'Y' => 'y', 'Z' => 'z', _ => c,
    }
}

/// Replaces `'+'` with a space; leaves every other character unchanged.
pub open spec fn plus_space(c: char) -> char {
    if c == '+' {
        ' '
    } else {
        c
    }
}

/// Collects the characters of a string slice into a vector.
pub fn str_to_chars(s: &str) -> (r: Vec<char>)
    ensures
        r@ == s@,
{
    let n = s.unicode_len();
    let mut r: Vec<char> = Vec::new();
    let mut i: usize = 0;
    while i < n
        invariant
            i <= n,
            n == s@.len(),
            r@ == s@.take(i as int),
        decreases n - i,
    {
        r.push(s.get_char(i));
        proof {
            assert(s@.take(i as int).push(s@[i as int]) =~= s@.take(i + 1 as int));
        }
        i += 1;
    }
    proof {
        assert(s@.take(n as int) =~= s@);
    }
    r
}

/// Index of the first occurrence of `sep` in `s`, or `s.len()` when `sep`
/// does not occur.
pub open spec fn first_sep(s: Seq<char>, sep: char) -> nat
    decreases s.len(),
{
    if s.len() == 0 {
        0
    } else if s[0] == sep {
        0
    } else {
        1 + first_sep(s.drop_first(), sep)
    }
}

pub proof fn lemma_first_sep(s: Seq<char>, sep: char)
    ensures
        first_sep(s, sep) <= s.len(),
        first_sep(s, sep) < s.len() ==> s[first_sep(s, sep) as int] == sep,
        forall|j: int| 0 <= j < first_sep(s, sep) ==> s[j] != sep,
    decreases s.len(),
{
    if s.len() > 0 && s[0] != sep {
        lemma_first_sep(s.drop_first(), sep);
        assert forall|j: int| 0 <= j < first_sep(s, sep) implies s[j] != sep by {
            if j > 0 {
                assert(s.drop_first()[j - 1] == s[j]);
            }
        }
    }
}

/// `first_sep` returns the position of a separator that nothing precedes.
pub proof fn lemma_first_sep_at(s: Seq<char>, sep: char, p: int)
    requires
        0 <= p < s.len(),
        s[p] == sep,
        forall|j: int| 0 <= j < p ==> s[j] != sep,
    ensures
        first_sep(s, sep) == p,
{
    lemma_first_sep(s, sep);
    let i = first_sep(s, sep);
    if i < p {
        assert(s[i as int] == sep);
        assert(false);
    }
    if i > p {
        assert(s[p] != sep);
        assert(false);
    }
}

/// Without a separator, `first_sep` returns the length.
pub proof fn lemma_first_sep_none(s: Seq<char>, sep: char)
    requires
        forall|j: int| 0 <= j < s.len() ==> s[j] != sep,
    ensures
        first_sep(s, sep) == s.len(),
{
    lemma_first_sep(s, sep);
    if first_sep(s, sep) < s.len() {
        assert(false);
    }
}

/// The characters of `s` split on `sep`.  The result always holds at least
/// one element; separators at the edges produce empty elements, matching
/// `str::split`.
pub open spec fn split_chars(s: Seq<char>, sep: char) -> Seq<Seq<char>>
    decreases s.len(),
{
    let i = first_sep(s, sep);
    if i >= s.len() {
        seq![s]
    } else {
        seq![s.take(i as int)] + split_chars(s.skip(i as int + 1), sep)
    }
}

/// When `sep` occurs first at position `p`, splitting peels off the prefix
/// before `p`.
pub proof fn lemma_split_chars_step(s: Seq<char>, sep: char, p: int)
    requires
        0 <= p < s.len(),
        s[p] == sep,
        forall|j: int| 0 <= j < p ==> s[j] != sep,
    ensures
        split_chars(s, sep) == seq![s.take(p)] + split_chars(s.skip(p + 1), sep),
{
    lemma_first_sep(s, sep);
    let i = first_sep(s, sep);
    if i < p {
        assert(s[i as int] == sep);
        assert(false);
    }
    if i > p {
        assert(s[p] != sep);
        assert(false);
    }
}

/// When `sep` does not occur in `s`, splitting yields `s` alone.
pub proof fn lemma_split_chars_whole(s: Seq<char>, sep: char)
    requires
        forall|j: int| 0 <= j < s.len() ==> s[j] != sep,
    ensures
        split_chars(s, sep) == seq![s],
{
    lemma_first_sep(s, sep);
    if first_sep(s, sep) < s.len() {
        assert(false);
    }
}

/// Splits the characters of `v` between `start` and `end` on `sep`,
/// returning the index range of each piece.
pub fn split_range(v: &Vec<char>, start: usize, end: usize, sep: char) -> (r: Vec<(usize, usize)>)
    requires
        start <= end <= v@.len(),
    ensures
        r@.map_values(|p: (usize, usize)| v@.subrange(p.0 as int, p.1 as int)) == split_chars(
            v@.subrange(start as int, end as int),
            sep,
        ),
        forall|i: int| 0 <= i < r@.len() ==> start <= (#[trigger] r@[i]).0 <= r@[i].1 <= end,
{
    let ghost full = v@.subrange(start as int, end as int);
    let mut r: Vec<(usize, usize)> = Vec::new();
    let mut seg_start: usize = start;
    let mut j: usize = start;
    while j < end
        invariant
            start <= seg_start <= j <= end <= v@.len(),
            forall|k: int| seg_start <= k < j ==> v@[k] != sep,
            full == v@.subrange(start as int, end as int),
            split_chars(full, sep) == r@.map_values(
                |p: (usize, usize)| v@.subrange(p.0 as int, p.1 as int),
            ) + split_chars(v@.subrange(seg_start as int, end as int), sep),
            forall|i: int| 0 <= i < r@.len() ==> start <= (#[trigger] r@[i]).0 <= r@[i].1 <= end,
        decreases end - j,
    {
        if v[j] == sep {
            proof {
                let tail = v@.subrange(seg_start as int, end as int);
                let p = j - seg_start;
                assert(tail[p] == sep);
                assert forall|k: int| 0 <= k < p implies tail[k] != sep by {
                    assert(tail[k] == v@[seg_start + k]);
                }
                lemma_split_chars_step(tail, sep, p);
                assert(tail.take(p) =~= v@.subrange(seg_start as int, j as int));
                assert(tail.skip(p + 1) =~= v@.subrange(j + 1 as int, end as int));
                let f = |q: (usize, usize)| v@.subrange(q.0 as int, q.1 as int);
                assert(r@.push((seg_start, j)).map_values(f) =~= r@.map_values(f).push(
                    v@.subrange(seg_start as int, j as int),
                ));
                assert(r@.map_values(f).push(v@.subrange(seg_start as int, j as int))
                    =~= r@.map_values(f) + seq![v@.subrange(seg_start as int, j as int)]);
            }
            r.push((seg_start, j));
            seg_start = j + 1;
        }
        j += 1;
    }
    proof {
        let tail = v@.subrange(seg_start as int, end as int);
        assert forall|k: int| 0 <= k < tail.len() implies tail[k] != sep by {
            assert(tail[k] == v@[seg_start + k]);
        }
        lemma_split_chars_whole(tail, sep);
        let f = |q: (usize, usize)| v@.subrange(q.0 as int, q.1 as int);
        assert(r@.push((seg_start, end)).map_values(f) =~= r@.map_values(f) + seq![tail]);
    }
    r.push((seg_start, end));
    r
}

/// `s` without leading whitespace.
pub open spec fn trim_start_chars(s: Seq<char>) -> Seq<char>
    decreases s.len(),
{
    if s.len() > 0 && is_ws_char(s[0]) {
        trim_start_chars(s.drop_first())
    } else {
        s
    }
}

/// `s` without trailing whitespace.
pub open spec fn trim_end_chars(s: Seq<char>) -> Seq<char>
    decreases s.len(),
{
    if s.len() > 0 && is_ws_char(s.last()) {
        trim_end_chars(s.drop_last())
    } else {
        s
    }
}

/// `s` without leading or trailing whitespace, as `str::trim` leaves it.
pub open spec fn trim_chars(s: Seq<char>) -> Seq<char> {
    trim_end_chars(trim_start_chars(s))
}

/// Narrows the range `[start, end)` of `v` to its whitespace-trimmed core.
pub fn trim_range(v: &Vec<char>, start: usize, end: usize) -> (r: (usize, usize))
    requires
        start <= end <= v@.len(),
    ensures
        start <= r.0 <= r.1 <= end,
        v@.subrange(r.0 as int, r.1 as int) == trim_chars(v@.subrange(start as int, end as int)),
{
    let ghost full = v@.subrange(start as int, end as int);
    let mut a: usize = start;
    while a < end && is_ws(v[a])
        invariant
            start <= a <= end <= v@.len(),
            trim_start_chars(full) == trim_start_chars(v@.subrange(a as int, end as int)),
            full == v@.subrange(start as int, end as int),
        decreases end - a,
    {
        proof {
            let cur = v@.subrange(a as int, end as int);
            assert(cur[0] == v@[a as int]);
            assert(cur.drop_first() =~= v@.subrange(a + 1 as int, end as int));
        }
        a += 1;
    }
    proof {
        let cur = v@.subrange(a as int, end as int);
        if a < end {
            assert(cur[0] == v@[a as int]);
        }
        assert(trim_start_chars(full) == cur);
    }
    let mut b: usize = end;
    while b > a && is_ws(v[b - 1])
        invariant
            start <= a <= b <= end <= v@.len(),
            trim_start_chars(full) == v@.subrange(a as int, end as int),
            trim_end_chars(v@.subrange(a as int, end as int)) == trim_end_chars(
                v@.subrange(a as int, b as int),
            ),
            full == v@.subrange(start as int, end as int),
        decreases b,
    {
        proof {
            let cur = v@.subrange(a as int, b as int);
            assert(cur.last() == v@[b - 1 as int]);
            assert(cur.drop_last() =~= v@.subrange(a as int, b - 1 as int));
        }
        b -= 1;
    }
    proof {
        let cur = v@.subrange(a as int, b as int);
        if b > a {
            assert(cur.last() == v@[b - 1 as int]);
        }
        assert(trim_end_chars(v@.subrange(a as int, b as int)) == cur);
    }
    (a, b)
}

/// Compares the range `[start, end)` of `v` with the characters of `lit`.
pub fn range_eq_str(v: &Vec<char>, start: usize, end: usize, lit: &str) -> (r: bool)
    requires
        start <= end <= v@.len(),
    ensures
        r == (v@.subrange(start as int, end as int) == lit@),
{
    let n = lit.unicode_len();
    if end - start != n {
        proof {
            assert(v@.subrange(start as int, end as int).len() != lit@.len());
        }
        return false;
    }
    let mut k: usize = 0;
    while k < n
        invariant
            k <= n,
            n == lit@.len(),
            start <= end <= v@.len(),
            end - start == n,
            forall|j: int| 0 <= j < k ==> v@.subrange(start as int, end as int)[j] == lit@[j],
        decreases n - k,
    {
        let c = v[start + k];
        if c != lit.get_char(k) {
            proof {
                assert(v@.subrange(start as int, end as int)[k as int] != lit@[k as int]);
            }
            return false;
        }
        proof {
            assert(v@.subrange(start as int, end as int)[k as int] == v@[start + k]);
        }
        k += 1;
    }
    proof {
        assert(v@.subrange(start as int, end as int) =~= lit@);
    }
    true
}

/// Position of the first `sep` between `start` and `end`, or `end`.
pub fn find_in_range(v: &Vec<char>, start: usize, end: usize, sep: char) -> (r: usize)
    requires
        start <= end <= v@.len(),
    ensures
        start <= r <= end,
        r - start == first_sep(v@.subrange(start as int, end as int), sep),
{
    let ghost sub = v@.subrange(start as int, end as int);
    let mut j: usize = start;
    while j < end
        invariant
            start <= j <= end <= v@.len(),
            sub == v@.subrange(start as int, end as int),
            forall|k: int| start <= k < j ==> v@[k] != sep,
        decreases end - j,
    {
        if v[j] == sep {
            proof {
                assert(sub[j - start] == v@[j as int]);
                assert forall|k: int| 0 <= k < j - start implies sub[k] != sep by {
                    assert(sub[k] == v@[start + k]);
                }
                lemma_first_sep_at(sub, sep, j - start);
            }
            return j;
        }
        j += 1;
    }
    proof {
        assert forall|k: int| 0 <= k < sub.len() implies sub[k] != sep by {
            assert(sub[k] == v@[start + k]);
        }
        lemma_first_sep_none(sub, sep);
    }
    end
}

/// `s` with every ASCII upper-case letter lowered.
pub open spec fn lower_seq(s: Seq<char>) -> Seq<char> {
    s.map_values(|c: char| lower_char(c))
}

/// Compares the range `[start, end)` of `v`, ASCII-lowered, with the
/// characters of `lit`.
pub fn lower_range_eq_str(v: &Vec<char>, start: usize, end: usize, lit: &str) -> (r: bool)
    requires
        start <= end <= v@.len(),
    ensures
        r == (lower_seq(v@.subrange(start as int, end as int)) == lit@),
{
    let ghost sub = v@.subrange(start as int, end as int);
    let n = lit.unicode_len();
    if end - start != n {
        proof {
            assert(lower_seq(sub).len() == sub.len());
        }
        return false;
    }
    let mut k: usize = 0;
    while k < n
        invariant
            k <= n,
            n == lit@.len(),
            start <= end <= v@.len(),
            end - start == n,
            sub == v@.subrange(start as int, end as int),
            forall|j: int| 0 <= j < k ==> lower_seq(sub)[j] == lit@[j],
        decreases n - k,
    {
        let c = ascii_lower(v[start + k]);
        if c != lit.get_char(k) {
            proof {
                assert(sub[k as int] == v@[start + k]);
                assert(lower_seq(sub)[k as int] != lit@[k as int]);
            }
            return false;
        }
        proof {
            assert(sub[k as int] == v@[start + k]);
            assert(lower_seq(sub)[k as int] == lit@[k as int]);
        }
        k += 1;
    }
    proof {
        assert(lower_seq(sub) =~= lit@);
    }
    true
}

/// Copies the range `[start, end)` of `v` with `'+'` replaced by a space.
pub fn map_plus_space(v: &Vec<char>, start: usize, end: usize) -> (r: Vec<char>)
    requires
        start <= end <= v@.len(),
    ensures
        r@ == v@.subrange(start as int, end as int).map_values(|c: char| plus_space(c)),
{
    let ghost sub = v@.subrange(start as int, end as int);
    let mut r: Vec<char> = Vec::new();
    let mut j: usize = start;
    while j < end
        invariant
            start <= j <= end <= v@.len(),
            sub == v@.subrange(start as int, end as int),
            r@ == sub.take(j - start).map_values(|c: char| plus_space(c)),
        decreases end - j,
    {
        let c = v[j];
        let m = if c == '+' {
            ' '
        } else {
            c
        };
        proof {
            assert(sub[j - start] == v@[j as int]);
            assert(sub.take(j - start).push(sub[j - start]) =~= sub.take(j - start + 1));
            assert(sub.take(j - start).map_values(|cc: char| plus_space(cc)).push(plus_space(sub[j
                - start])) =~= sub.take(j - start + 1).map_values(|cc: char| plus_space(cc)));
        }
        r.push(m);
        j += 1;
    }
    proof {
        assert(sub.take(end - start) =~= sub);
    }
    r
}

/// An ASCII decimal digit.
pub open spec fn is_digit_char(c: char) -> bool {
    48 <= c as u32 <= 57
}

/// Numeric value of an ASCII digit.
pub open spec fn digit_val(c: char) -> int {
    c as u32 - 48
}

/// Every character of `s` is an ASCII digit.
pub open spec fn all_digits(s: Seq<char>) -> bool {
    forall|j: int| 0 <= j < s.len() ==> is_digit_char(#[trigger] s[j])
}

/// Value of a sequence of ASCII digits read as a decimal number.
pub open spec fn digits_val(s: Seq<char>) -> int
    decreases s.len(),
{
    if s.len() == 0 {
        0
    } else {
        digits_val(s.drop_last()) * 10 + digit_val(s.last())
    }
}

/// The digit character for a value below ten.
pub open spec fn digit_char(d: int) -> char {
    if d == 0 { '0' }
    else if d == 1 { '1' }
    else if d == 2 { '2' }
    else if d == 3 { '3' }
    else if d == 4 { '4' }
    else if d == 5 { '5' }
    else if d == 6 { '6' }
    else if d == 7 { '7' }
    else if d == 8 { '8' }
    else if d == 9 { '9' }
    else { ' ' }
}

/// Decimal rendering of a natural number, without leading zeros.
pub open spec fn dec_str(n: nat) -> Seq<char>
    decreases n,
{
    if n < 10 {
        seq![digit_char(n as int)]
    } else {
        dec_str(n / 10).push(digit_char((n % 10) as int))
    }
}

/// Appends one decimal digit to `s`.
fn append_digit(s: &mut String, d: u64)
    requires
        d < 10,
    ensures
        final(s)@ == old(s)@ + seq![digit_char(d as int)],
{
    proof {
        reveal_strlit("0");
        reveal_strlit("1");
        reveal_strlit("2");
        reveal_strlit("3");
        reveal_strlit("4");
        reveal_strlit("5");
        reveal_strlit("6");
        reveal_strlit("7");
        reveal_strlit("8");
        reveal_strlit("9");
    }
    match d {
        0 => s.append("0"),
        1 => s.append("1"),
        2 => s.append("2"),
        3 => s.append("3"),
        4 => s.append("4"),
        5 => s.append("5"),
        6 => s.append("6"),
        7 => s.append("7"),
        8 => s.append("8"),
        _ => s.append("9"),
    }
    proof {
        assert(final(s)@ =~= old(s)@ + seq![digit_char(d as int)]);
    }
}

/// Appends the decimal rendering of `n` to `s`.
pub fn push_dec(s: &mut String, n: u64)
    ensures
        final(s)@ == old(s)@ + dec_str(n as nat),
    decreases n,
{
    if n >= 10 {
        push_dec(s, n / 10);
    }
    append_digit(s, n % 10);
    proof {
        if n >= 10 {
            assert(final(s)@ =~= old(s)@ + dec_str(n as nat));
        }
    }
}

} // verus!
