//! Text scanning for the outputs of the monitor-detection tools: lines,
//! trimming, whitespace-separated tokens, searching and number parsing.
//! A piece of text is a range `[a, b)` of a character vector; each function
//! is stated over the characters of its range.

use vstd::prelude::*;

verus! {

broadcast use vstd::string::group_string_axioms;

/// Unicode `White_Space`, as `char::is_whitespace` tests it.
pub open spec fn is_ws(c: char) -> bool {
    let n = c as u32;
    (0x9 <= n <= 0xd) || n == 0x20 || n == 0x85 || n == 0xa0 || n == 0x1680 || (0x2000 <= n <= 0x200a)
        || n == 0x2028 || n == 0x2029 || n == 0x202f || n == 0x205f || n == 0x3000
}

/// Whether `c` is whitespace.
pub fn is_whitespace(c: char) -> (b: bool)
    ensures
        b == is_ws(c),
{
    let n = c as u32;
    (0x9 <= n && n <= 0xd) || n == 0x20 || n == 0x85 || n == 0xa0 || n == 0x1680 || (0x2000 <= n && n
        <= 0x200a) || n == 0x2028 || n == 0x2029 || n == 0x202f || n == 0x205f || n == 0x3000
}

/// The text without its leading whitespace.
pub open spec fn trim_start(s: Seq<char>) -> Seq<char>
    decreases s.len(),
{
    if s.len() > 0 && is_ws(s[0]) { trim_start(s.drop_first()) } else { s }
}

/// The text without its trailing whitespace.
pub open spec fn trim_end(s: Seq<char>) -> Seq<char>
    decreases s.len(),
{
    if s.len() > 0 && is_ws(s.last()) { trim_end(s.drop_last()) } else { s }
}

/// The text without leading and trailing whitespace (`str::trim`).
pub open spec fn trim(s: Seq<char>) -> Seq<char> {
    trim_end(trim_start(s))
}

/// The text without a final `'\r'`.
pub open spec fn strip_cr(l: Seq<char>) -> Seq<char> {
    if l.len() > 0 && l.last() == '\r' { l.drop_last() } else { l }
}

/// The finished lines of `s` and the line in progress.
pub open spec fn line_state(s: Seq<char>) -> (Seq<Seq<char>>, Seq<char>)
    decreases s.len(),
{
    if s.len() == 0 {
        (seq![], seq![])
    } else {
        let st = line_state(s.drop_last());
        if s.last() == '\n' {
            (st.0.push(strip_cr(st.1)), seq![])
        } else {
            (st.0, st.1.push(s.last()))
        }
    }
}

/// The lines of `s` (`str::lines`): split at `'\n'`, with a `'\r'` before
/// it dropped; a final line ending is optional.
pub open spec fn lines(s: Seq<char>) -> Seq<Seq<char>> {
    let st = line_state(s);
    if st.1.len() > 0 { st.0.push(st.1) } else { st.0 }
}

/// The finished tokens of `s` and the token in progress.
pub open spec fn token_state(s: Seq<char>) -> (Seq<Seq<char>>, Seq<char>)
    decreases s.len(),
{
    if s.len() == 0 {
        (seq![], seq![])
    } else {
        let st = token_state(s.drop_last());
        if is_ws(s.last()) {
            if st.1.len() > 0 { (st.0.push(st.1), seq![]) } else { (st.0, seq![]) }
        } else {
            (st.0, st.1.push(s.last()))
        }
    }
}

/// The maximal runs of non-whitespace characters (`str::split_whitespace`).
pub open spec fn tokens(s: Seq<char>) -> Seq<Seq<char>> {
    let st = token_state(s);
    if st.1.len() > 0 { st.0.push(st.1) } else { st.0 }
}

/// The index of the first `c` in `s`.
pub open spec fn index_of(s: Seq<char>, c: char) -> Option<int>
    decreases s.len(),
{
    if s.len() == 0 {
        None
    } else {
        match index_of(s.drop_last(), c) {
            Some(i) => Some(i),
            None => if s.last() == c { Some(s.len() - 1) } else { None },
        }
    }
}

/// `s` split around its first `c` (`str::split_once` with a `char`).
pub open spec fn split_once(s: Seq<char>, c: char) -> Option<(Seq<char>, Seq<char>)> {
    match index_of(s, c) {
        Some(i) => Some((s.take(i), s.skip(i + 1))),
        None => None,
    }
}

/// Whether `pat` occurs in `s` at index `i`.
pub open spec fn occurs_at(s: Seq<char>, pat: Seq<char>, i: int) -> bool {
    0 <= i && i + pat.len() <= s.len() && s.subrange(i, i + pat.len()) == pat
}

/// Whether `pat` occurs in `s`.
pub open spec fn contains(s: Seq<char>, pat: Seq<char>) -> bool {
    exists|i: int| occurs_at(s, pat, i)
}

/// Whether `s` starts with `pat`.
pub open spec fn starts_with(s: Seq<char>, pat: Seq<char>) -> bool {
    occurs_at(s, pat, 0)
}

/// Whether `c` is an ASCII digit.
pub open spec fn is_digit(c: char) -> bool {
    '0' <= c <= '9'
}

/// Whether every character of `s` is an ASCII digit.
pub open spec fn all_digits(s: Seq<char>) -> bool {
    forall|i: int| 0 <= i < s.len() ==> is_digit(#[trigger] s[i])
}

/// The decimal value of a run of digits.
pub open spec fn digits_value(s: Seq<char>) -> int
    decreases s.len(),
{
    if s.len() == 0 { 0 } else { digits_value(s.drop_last()) * 10 + (s.last() as int - '0' as int) }
}

/// `u32::from_str`: an optional `'+'`, then one or more digits whose value
/// fits.
pub open spec fn parse_u32_spec(s: Seq<char>) -> Option<u32> {
    let d = if s.len() > 0 && s[0] == '+' { s.drop_first() } else { s };
    if d.len() > 0 && all_digits(d) && digits_value(d) <= u32::MAX {
        Some(digits_value(d) as u32)
    } else {
        None
    }
}

/// `i32::from_str`: an optional sign, then one or more digits whose signed
/// value fits.
pub open spec fn parse_i32_spec(s: Seq<char>) -> Option<i32> {
    let neg = s.len() > 0 && s[0] == '-';
    let d = if s.len() > 0 && (s[0] == '+' || s[0] == '-') { s.drop_first() } else { s };
    let v = if neg { -digits_value(d) } else { digits_value(d) };
    if d.len() > 0 && all_digits(d) && i32::MIN <= v <= i32::MAX {
        Some(v as i32)
    } else {
        None
    }
}

/// The characters of a text.
pub fn to_chars(s: &str) -> (v: Vec<char>)
    ensures
        v@ == s@,
{
    let mut v: Vec<char> = Vec::new();
    for c in it: s.chars()
        invariant
            v@ == it.seq().take(it.index() as int),
    {
        v.push(c);
    }
    v
}

/// The range of `cs[a..b]` without leading and trailing whitespace.
pub fn trim_range(cs: &Vec<char>, a: usize, b: usize) -> (r: (usize, usize))
    requires
        a <= b <= cs@.len(),
    ensures
        a <= r.0 <= r.1 <= b,
        cs@.subrange(r.0 as int, r.1 as int) == trim(cs@.subrange(a as int, b as int)),
{
    let ghost s = cs@.subrange(a as int, b as int);
    let mut i = a;
    while i < b && is_whitespace(cs[i])
        invariant
            a <= i <= b <= cs@.len(),
            trim_start(s) == trim_start(cs@.subrange(i as int, b as int)),
        decreases b - i,
    {
        proof {
            let t = cs@.subrange(i as int, b as int);
            assert(t[0] == cs@[i as int]);
            assert(t.drop_first() =~= cs@.subrange(i + 1, b as int));
        }
        i += 1;
    }
    proof {
        let t = cs@.subrange(i as int, b as int);
        if i < b {
            assert(t[0] == cs@[i as int]);
        }
        assert(trim_start(t) == t);
    }
    let mut j = b;
    while j > i && is_whitespace(cs[j - 1])
        invariant
            a <= i <= j <= b <= cs@.len(),
            trim(s) == trim_end(cs@.subrange(i as int, j as int)),
        decreases j - i,
    {
        proof {
            let t = cs@.subrange(i as int, j as int);
            assert(t.last() == cs@[j - 1]);
            assert(t.drop_last() =~= cs@.subrange(i as int, j - 1));
        }
        j -= 1;
    }
    proof {
        let t = cs@.subrange(i as int, j as int);
        if j > i {
            assert(t.last() == cs@[j - 1]);
        }
        assert(trim_end(t) == t);
    }
    (i, j)
}

/// The ranges of the lines of `cs[a..b]`.
pub fn line_ranges(cs: &Vec<char>, a: usize, b: usize) -> (r: Vec<(usize, usize)>)
    requires
        a <= b <= cs@.len(),
    ensures
        r@.len() == lines(cs@.subrange(a as int, b as int)).len(),
        forall|k: int| 0 <= k < r@.len() ==> a <= (#[trigger] r@[k]).0 <= r@[k].1 <= b
            && cs@.subrange(r@[k].0 as int, r@[k].1 as int) == lines(cs@.subrange(a as int, b as int))[k],
{
    let ghost s = cs@.subrange(a as int, b as int);
    let mut r: Vec<(usize, usize)> = Vec::new();
    let mut start = a;
    let mut i = a;
    while i < b
        invariant
            a <= start <= i <= b <= cs@.len(),
            r@.len() == line_state(cs@.subrange(a as int, i as int)).0.len(),
            cs@.subrange(start as int, i as int) == line_state(cs@.subrange(a as int, i as int)).1,
            forall|k: int| 0 <= k < r@.len() ==> a <= (#[trigger] r@[k]).0 <= r@[k].1 <= b
                && cs@.subrange(r@[k].0 as int, r@[k].1 as int) == line_state(cs@.subrange(a as int, i as int)).0[k],
        decreases b - i,
    {
        let ghost pre = cs@.subrange(a as int, i as int);
        let ghost nxt = cs@.subrange(a as int, i + 1);
        assert(nxt.drop_last() =~= pre);
        assert(nxt.last() == cs@[i as int]);
        if cs[i] == '\n' {
            let mut end = i;
            if end > start && cs[end - 1] == '\r' {
                end = end - 1;
            }
            proof {
                let cur = cs@.subrange(start as int, i as int);
                if i > start {
                    assert(cur.last() == cs@[i - 1]);
                }
                if end < i {
                    assert(cur.drop_last() =~= cs@.subrange(start as int, end as int));
                } else {
                    assert(strip_cr(cur) == cur);
                }
            }
            r.push((start, end));
            start = i + 1;
        } else {
            assert(cs@.subrange(start as int, i + 1) =~= cs@.subrange(start as int, i as int).push(cs@[i as int]));
        }
        i += 1;
    }
    if start < b {
        r.push((start, b));
    }
    r
}

/// The ranges of the whitespace-separated tokens of `cs[a..b]`.
pub fn token_ranges(cs: &Vec<char>, a: usize, b: usize) -> (r: Vec<(usize, usize)>)
    requires
        a <= b <= cs@.len(),
    ensures
        r@.len() == tokens(cs@.subrange(a as int, b as int)).len(),
        forall|k: int| 0 <= k < r@.len() ==> a <= (#[trigger] r@[k]).0 <= r@[k].1 <= b
            && cs@.subrange(r@[k].0 as int, r@[k].1 as int) == tokens(cs@.subrange(a as int, b as int))[k],
{
    let mut r: Vec<(usize, usize)> = Vec::new();
    let mut start = a;
    let mut i = a;
    while i < b
        invariant
            a <= start <= i <= b <= cs@.len(),
            r@.len() == token_state(cs@.subrange(a as int, i as int)).0.len(),
            cs@.subrange(start as int, i as int) == token_state(cs@.subrange(a as int, i as int)).1,
            forall|k: int| 0 <= k < r@.len() ==> a <= (#[trigger] r@[k]).0 <= r@[k].1 <= b
                && cs@.subrange(r@[k].0 as int, r@[k].1 as int) == token_state(cs@.subrange(a as int, i as int)).0[k],
        decreases b - i,
    {
        let ghost pre = cs@.subrange(a as int, i as int);
        let ghost nxt = cs@.subrange(a as int, i + 1);
        assert(nxt.drop_last() =~= pre);
        assert(nxt.last() == cs@[i as int]);
        if is_whitespace(cs[i]) {
            if i > start {
                r.push((start, i));
            }
            start = i + 1;
        } else {
            assert(cs@.subrange(start as int, i + 1) =~= cs@.subrange(start as int, i as int).push(cs@[i as int]));
        }
        i += 1;
    }
    if start < b {
        r.push((start, b));
    }
    r
}

/// The index of the first `c` in `cs[a..b]`, as an index of `cs`.
pub fn find_char(cs: &Vec<char>, a: usize, b: usize, c: char) -> (r: Option<usize>)
    requires
        a <= b <= cs@.len(),
    ensures
        match index_of(cs@.subrange(a as int, b as int), c) {
            Some(k) => r == Some((a + k) as usize),
            None => r is None,
        },
        r matches Some(i) ==> a <= i < b && cs@[i as int] == c,
        index_of(cs@.subrange(a as int, b as int), c) matches Some(k) ==> 0 <= k < b - a,
{
    proof {
        lemma_index_of_range(cs@.subrange(a as int, b as int), c);
    }
    let mut i = a;
    while i < b
        invariant
            a <= i <= b <= cs@.len(),
            index_of(cs@.subrange(a as int, i as int), c) is None,
        decreases b - i,
    {
        let ghost nxt = cs@.subrange(a as int, i + 1);
        assert(nxt.drop_last() =~= cs@.subrange(a as int, i as int));
        if cs[i] == c {
            proof {
                lemma_index_of_extend(cs@.subrange(a as int, b as int), (i - a) + 1, c);
                assert(cs@.subrange(a as int, b as int).take((i - a) + 1) =~= nxt);
            }
            return Some(i);
        }
        i += 1;
    }
    None
}

/// The first `c` of `s` lies in `s` and is a `c`; no `c` comes before it.
pub proof fn lemma_index_of_range(s: Seq<char>, c: char)
    ensures
        index_of(s, c) matches Some(k) ==> 0 <= k < s.len() && s[k] == c && forall|q: int|
            0 <= q < k ==> s[q] != c,
        index_of(s, c) is None ==> forall|q: int| 0 <= q < s.len() ==> s[q] != c,
    decreases s.len(),
{
    if s.len() > 0 {
        lemma_index_of_range(s.drop_last(), c);
        assert forall|q: int| 0 <= q < s.len() - 1 implies s[q] == s.drop_last()[q] by {}
    }
}

/// Once a prefix holds `c`, the whole text has its first `c` there.
proof fn lemma_index_of_extend(s: Seq<char>, k: int, c: char)
    requires
        0 <= k <= s.len(),
        index_of(s.take(k), c) is Some,
    ensures
        index_of(s, c) == index_of(s.take(k), c),
    decreases s.len() - k,
{
    if k < s.len() {
        assert(s.take(k + 1).drop_last() =~= s.take(k));
        lemma_index_of_extend(s, k + 1, c);
    } else {
        assert(s.take(k) =~= s);
    }
}

/// Whether `pat` occurs at index `i` of `cs[a..b]`.
fn occurs_at_exec(cs: &Vec<char>, a: usize, b: usize, pat: &Vec<char>, i: usize) -> (r: bool)
    requires
        a <= b <= cs@.len(),
        a <= i <= b,
    ensures
        r == occurs_at(cs@.subrange(a as int, b as int), pat@, i - a),
{
    if pat.len() > b - i {
        return false;
    }
    let mut k: usize = 0;
    while k < pat.len()
        invariant
            a <= i <= b <= cs@.len(),
            i + pat@.len() <= b,
            k <= pat@.len(),
            forall|q: int| 0 <= q < k ==> cs@[i + q] == pat@[q],
        decreases pat.len() - k,
    {
        if cs[i + k] != pat[k] {
            proof {
                let s = cs@.subrange(a as int, b as int);
                assert(s.subrange(i - a, i - a + pat@.len())[k as int] == cs@[i + k]);
            }
            return false;
        }
        k += 1;
    }
    proof {
        let s = cs@.subrange(a as int, b as int);
        assert(s.subrange(i - a, i - a + pat@.len()) =~= pat@);
    }
    true
}

/// Whether `pat` occurs in `cs[a..b]`.
pub fn contains_chars(cs: &Vec<char>, a: usize, b: usize, pat: &Vec<char>) -> (r: bool)
    requires
        a <= b <= cs@.len(),
    ensures
        r == contains(cs@.subrange(a as int, b as int), pat@),
{
    let ghost s = cs@.subrange(a as int, b as int);
    let mut i = a;
    while i <= b
        invariant
            a <= i <= b + 1,
            b <= cs@.len(),
            s == cs@.subrange(a as int, b as int),
            forall|q: int| 0 <= q < i - a ==> !occurs_at(s, pat@, q),
        decreases b + 1 - i,
    {
        if occurs_at_exec(cs, a, b, pat, i) {
            return true;
        }
        if i == b {
            assert forall|q: int| !occurs_at(s, pat@, q) by {
                if 0 <= q < i - a + 1 {
                } else if q >= i - a + 1 {
                    assert(q + pat@.len() > s.len());
                }
            }
            return false;
        }
        i += 1;
    }
    false
}

/// Whether `cs[a..b]` starts with `pat`.
pub fn starts_with_chars(cs: &Vec<char>, a: usize, b: usize, pat: &Vec<char>) -> (r: bool)
    requires
        a <= b <= cs@.len(),
    ensures
        r == starts_with(cs@.subrange(a as int, b as int), pat@),
{
    occurs_at_exec(cs, a, b, pat, a)
}

proof fn lemma_digits_value_take(s: Seq<char>, k: int)
    requires
        0 <= k < s.len(),
    ensures
        digits_value(s.take(k + 1)) == digits_value(s.take(k)) * 10 + (s[k] as int - '0' as int),
{
    assert(s.take(k + 1).drop_last() =~= s.take(k));
}

/// Digit values only grow as digits are appended.
proof fn lemma_digits_value_grows(s: Seq<char>, k: int)
    requires
        0 <= k <= s.len(),
        all_digits(s),
    ensures
        digits_value(s.take(k)) <= digits_value(s),
        digits_value(s.take(k)) >= 0,
    decreases s.len() - k,
{
    if k < s.len() {
        lemma_digits_value_take(s, k);
        lemma_digits_value_nonneg(s.take(k));
        lemma_digits_value_grows(s, k + 1);
    } else {
        assert(s.take(k) =~= s);
        lemma_digits_value_nonneg(s);
    }
}

proof fn lemma_digits_value_nonneg(s: Seq<char>)
    requires
        all_digits(s),
    ensures
        digits_value(s) >= 0,
    decreases s.len(),
{
    if s.len() > 0 {
        lemma_digits_value_nonneg(s.drop_last());
    }
}

/// The value of the digits `cs[a..b]` when all are digits and the value is
/// at most `limit`.
fn digits_up_to(cs: &Vec<char>, a: usize, b: usize, limit: u64) -> (r: Option<u64>)
    requires
        a <= b <= cs@.len(),
        limit <= 0x1_0000_0000,
    ensures
        r matches Some(v) ==> all_digits(cs@.subrange(a as int, b as int)) && v == digits_value(
            cs@.subrange(a as int, b as int),
        ) && v <= limit,
        r is None ==> !all_digits(cs@.subrange(a as int, b as int)) || digits_value(
            cs@.subrange(a as int, b as int),
        ) > limit,
{
    let ghost s = cs@.subrange(a as int, b as int);
    let mut acc: u64 = 0;
    let mut i = a;
    while i < b
        invariant
            a <= i <= b <= cs@.len(),
            s == cs@.subrange(a as int, b as int),
            all_digits(s.take(i - a)),
            acc == digits_value(s.take(i - a)),
            acc <= limit,
            limit <= 0x1_0000_0000,
        decreases b - i,
    {
        let c = cs[i];
        proof {
            lemma_digits_value_take(s, i - a);
            assert(s[i - a] == c);
        }
        if c < '0' || c > '9' {
            assert(!is_digit(s[i - a]));
            return None;
        }
        let d = (c as u32 - '0' as u32) as u64;
        acc = acc * 10 + d;
        assert(all_digits(s.take(i - a + 1))) by {
            assert forall|q: int| 0 <= q < i - a + 1 implies is_digit(#[trigger] s.take(i - a + 1)[q]) by {
                if q < i - a {
                    assert(s.take(i - a + 1)[q] == s.take(i - a)[q]);
                }
            }
        }
        if acc > limit {
            proof {
                if all_digits(s) {
                    lemma_digits_value_grows(s, i - a + 1);
                }
            }
            return None;
        }
        i += 1;
    }
    assert(s.take(b - a) =~= s);
    Some(acc)
}

/// `u32::from_str` on `cs[a..b]`.
pub fn parse_u32(cs: &Vec<char>, a: usize, b: usize) -> (r: Option<u32>)
    requires
        a <= b <= cs@.len(),
    ensures
        r == parse_u32_spec(cs@.subrange(a as int, b as int)),
{
    let ghost s = cs@.subrange(a as int, b as int);
    let start = if a < b && cs[a] == '+' { a + 1 } else { a };
    assert(s.len() > 0 && s[0] == '+' ==> s.drop_first() =~= cs@.subrange(start as int, b as int));
    assert(!(s.len() > 0 && s[0] == '+') ==> s =~= cs@.subrange(start as int, b as int));
    if start == b {
        return None;
    }
    match digits_up_to(cs, start, b, u32::MAX as u64) {
        Some(v) => Some(v as u32),
        None => None,
    }
}

/// `i32::from_str` on `cs[a..b]`.
pub fn parse_i32(cs: &Vec<char>, a: usize, b: usize) -> (r: Option<i32>)
    requires
        a <= b <= cs@.len(),
    ensures
        r == parse_i32_spec(cs@.subrange(a as int, b as int)),
{
    let ghost s = cs@.subrange(a as int, b as int);
    let neg = a < b && cs[a] == '-';
    let start = if a < b && (cs[a] == '+' || cs[a] == '-') { a + 1 } else { a };
    assert(s.len() > 0 && (s[0] == '+' || s[0] == '-') ==> s.drop_first() =~= cs@.subrange(start as int, b as int));
    assert(!(s.len() > 0 && (s[0] == '+' || s[0] == '-')) ==> s =~= cs@.subrange(start as int, b as int));
    if start == b {
        return None;
    }
    let limit: u64 = if neg { 0x8000_0000 } else { 0x7fff_ffff };
    match digits_up_to(cs, start, b, limit) {
        Some(v) => {
            if neg {
                Some((-(v as i64)) as i32)
            } else {
                Some(v as i32)
            }
        },
        None => None,
    }
}

/// The text without its trailing non-digits
/// (`str::trim_end_matches(|c| !c.is_ascii_digit())`).
pub open spec fn trim_end_nondigits(s: Seq<char>) -> Seq<char>
    decreases s.len(),
{
    if s.len() > 0 && !is_digit(s.last()) { trim_end_nondigits(s.drop_last()) } else { s }
}

/// The end of `cs[a..b]` once trailing non-digits are dropped.
pub fn trim_end_nondigits_range(cs: &Vec<char>, a: usize, b: usize) -> (e: usize)
    requires
        a <= b <= cs@.len(),
    ensures
        a <= e <= b,
        cs@.subrange(a as int, e as int) == trim_end_nondigits(cs@.subrange(a as int, b as int)),
{
    let mut j = b;
    while j > a && (cs[j - 1] < '0' || cs[j - 1] > '9')
        invariant
            a <= j <= b <= cs@.len(),
            trim_end_nondigits(cs@.subrange(a as int, b as int)) == trim_end_nondigits(cs@.subrange(a as int, j as int)),
        decreases j - a,
    {
        proof {
            let t = cs@.subrange(a as int, j as int);
            assert(t.last() == cs@[j - 1]);
            assert(t.drop_last() =~= cs@.subrange(a as int, j - 1));
        }
        j -= 1;
    }
    proof {
        let t = cs@.subrange(a as int, j as int);
        if j > a {
            assert(t.last() == cs@[j - 1]);
        }
    }
    j
}

/// Whether every character of `cs[a..b]` is an ASCII digit.
pub fn all_digits_in(cs: &Vec<char>, a: usize, b: usize) -> (r: bool)
    requires
        a <= b <= cs@.len(),
    ensures
        r == all_digits(cs@.subrange(a as int, b as int)),
{
    let ghost s = cs@.subrange(a as int, b as int);
    let mut i = a;
    while i < b
        invariant
            a <= i <= b <= cs@.len(),
            s == cs@.subrange(a as int, b as int),
            forall|q: int| 0 <= q < i - a ==> is_digit(#[trigger] s[q]),
        decreases b - i,
    {
        if cs[i] < '0' || cs[i] > '9' {
            assert(!is_digit(s[i - a]));
            return false;
        }
        i += 1;
    }
    true
}

/// Where the exponent of a decimal starts: the first `e` or `E`.
pub open spec fn exp_marker(s: Seq<char>) -> Option<int> {
    match (index_of(s, 'e'), index_of(s, 'E')) {
        (Some(i), Some(j)) => Some(if i <= j { i } else { j }),
        (Some(i), None) => Some(i),
        (None, Some(j)) => Some(j),
        (None, None) => None,
    }
}

/// `x` times ten to the power `n`.
pub open spec fn times_pow10(x: int, n: nat) -> int
    decreases n,
{
    if n == 0 { x } else { times_pow10(x, (n - 1) as nat) * 10 }
}

/// The number made of the first `q` digits of `digits`, where the decimal
/// point stands after the digit at `q`: digits past the end count as zeros,
/// and none is taken for `q <= 0`.
pub open spec fn scaled_digits(digits: Seq<char>, q: int) -> int {
    if q <= 0 {
        0
    } else if q <= digits.len() {
        digits_value(digits.take(q))
    } else {
        times_pow10(digits_value(digits), (q - digits.len()) as nat)
    }
}

/// One where the first digit dropped by `scaled_digits` is 5 or more
/// (rounding half up); a digit before the first one or past the end is 0.
pub open spec fn round_up(digits: Seq<char>, q: int) -> int {
    if 0 <= q < digits.len() && digits[q] >= '5' { 1 } else { 0 }
}

/// The digits `digits`, with the decimal point after the first `q - 3` of
/// them, in thousandths rounded to the nearest (half up).
pub open spec fn milli_value(digits: Seq<char>, q: int) -> int {
    scaled_digits(digits, q) + round_up(digits, q)
}

/// The part of a decimal before its exponent.
pub open spec fn mantissa(d: Seq<char>) -> Seq<char> {
    match exp_marker(d) {
        Some(k) => d.take(k),
        None => d,
    }
}

/// The exponent of a decimal: 0 where it has none, `None` where the text
/// after the marker is no `i32`.
pub open spec fn exponent(d: Seq<char>) -> Option<i32> {
    match exp_marker(d) {
        Some(k) => parse_i32_spec(d.skip(k + 1)),
        None => Some(0i32),
    }
}

/// The digits of a mantissa before its point.
pub open spec fn int_part(m: Seq<char>) -> Seq<char> {
    match index_of(m, '.') {
        Some(i) => m.take(i),
        None => m,
    }
}

/// The digits of a mantissa after its point.
pub open spec fn frac_part(m: Seq<char>) -> Seq<char> {
    match index_of(m, '.') {
        Some(i) => m.skip(i + 1),
        None => seq![],
    }
}

/// A decimal `[+]digits[.digits][(e|E)[+|-]digits]` with at least one digit
/// before the exponent, in thousandths, rounded to the nearest thousandth
/// (half up); `None` for any other text, for an exponent that does not fit
/// in `i32`, or for a value over `u32::MAX` thousandths.
pub open spec fn parse_milli_spec(s: Seq<char>) -> Option<u32> {
    let d = if s.len() > 0 && s[0] == '+' { s.drop_first() } else { s };
    let ip = int_part(mantissa(d));
    let fp = frac_part(mantissa(d));
    let digits = ip + fp;
    match exponent(d) {
        Some(e) => if digits.len() > 0 && all_digits(ip) && all_digits(fp) && milli_value(
            digits,
            ip.len() + e + 3,
        ) <= u32::MAX {
            Some(milli_value(digits, ip.len() + e + 3) as u32)
        } else {
            None
        },
        None => None,
    }
}

proof fn lemma_times_pow10_ge(x: int, n: nat)
    requires
        0 <= x,
    ensures
        x <= times_pow10(x, n),
    decreases n,
{
    if n > 0 {
        lemma_times_pow10_ge(x, (n - 1) as nat);
    }
}

/// Scaling by a larger power of ten gives no less.
proof fn lemma_times_pow10_mono(x: int, a: nat, b: nat)
    requires
        0 <= x,
        a <= b,
    ensures
        times_pow10(x, a) <= times_pow10(x, b),
    decreases b,
{
    if a < b {
        lemma_times_pow10_mono(x, a, (b - 1) as nat);
        lemma_times_pow10_ge(x, (b - 1) as nat);
    }
}

proof fn lemma_times_pow10_zero(n: nat)
    ensures
        times_pow10(0, n) == 0,
    decreases n,
{
    if n > 0 {
        lemma_times_pow10_zero((n - 1) as nat);
    }
}

/// Appends `cs[a..b]` to `v`.
fn push_range(v: &mut Vec<char>, cs: &Vec<char>, a: usize, b: usize)
    requires
        a <= b <= cs@.len(),
    ensures
        final(v)@ == old(v)@ + cs@.subrange(a as int, b as int),
{
    let mut i = a;
    while i < b
        invariant
            a <= i <= b <= cs@.len(),
            v@ == old(v)@ + cs@.subrange(a as int, i as int),
        decreases b - i,
    {
        v.push(cs[i]);
        assert(v@ =~= old(v)@ + cs@.subrange(a as int, i + 1));
        i += 1;
    }
}

/// `milli_value(digits, q)` when it is at most `u32::MAX`.
fn milli_of_digits(digits: &Vec<char>, q: i128) -> (r: Option<u64>)
    requires
        digits@.len() > 0,
        all_digits(digits@),
    ensures
        r matches Some(v) ==> v == milli_value(digits@, q as int) && v <= u32::MAX,
        r is None ==> milli_value(digits@, q as int) > u32::MAX,
{
    let n = digits.len();
    proof {
        lemma_digits_value_nonneg(digits@);
    }
    if q <= 0 {
        let up: u64 = if q == 0 && digits[0] >= '5' { 1 } else { 0 };
        return Some(up);
    }
    if q <= n as i128 {
        let qq = q as usize;
        let ghost t = digits@.subrange(0, qq as int);
        assert(t =~= digits@.take(qq as int));
        assert(all_digits(t)) by {
            assert forall|i: int| 0 <= i < t.len() implies is_digit(#[trigger] t[i]) by {
                assert(t[i] == digits@[i]);
            }
        }
        let v = match digits_up_to(digits, 0, qq, u32::MAX as u64) {
            Some(v) => v,
            None => return None,
        };
        let up: u64 = if qq < n && digits[qq] >= '5' { 1 } else { 0 };
        let total = v + up;
        if total > u32::MAX as u64 {
            return None;
        }
        return Some(total);
    }
    let k: i128 = q - n as i128;
    let ghost dv = digits_value(digits@);
    assert(digits@.subrange(0, n as int) =~= digits@);
    let v0 = match digits_up_to(digits, 0, n, u32::MAX as u64) {
        Some(v) => v,
        None => {
            proof {
                lemma_times_pow10_ge(dv, k as nat);
            }
            return None;
        },
    };
    if v0 == 0 {
        proof {
            lemma_times_pow10_zero(k as nat);
        }
        return Some(0);
    }
    let mut v = v0;
    let mut done: i128 = 0;
    while done < k
        invariant
            0 <= done <= k,
            k == q - n,
            n == digits@.len(),
            dv == digits_value(digits@),
            dv >= 1,
            1 <= v <= u32::MAX,
            v == times_pow10(dv, done as nat),
        decreases k - done,
    {
        if v > (u32::MAX as u64) / 10 {
            proof {
                assert(times_pow10(dv, (done + 1) as nat) == v * 10);
                lemma_times_pow10_mono(dv, (done + 1) as nat, k as nat);
                assert(milli_value(digits@, q as int) == times_pow10(dv, k as nat));
            }
            return None;
        }
        v = v * 10;
        done = done + 1;
    }
    Some(v)
}

/// Where the mantissa of the decimal `cs[a..b]` ends, and its exponent.
fn split_exponent(cs: &Vec<char>, a: usize, b: usize) -> (r: (usize, Option<i32>))
    requires
        a <= b <= cs@.len(),
    ensures
        a <= r.0 <= b,
        cs@.subrange(a as int, r.0 as int) == mantissa(cs@.subrange(a as int, b as int)),
        r.1 == exponent(cs@.subrange(a as int, b as int)),
{
    let ghost d = cs@.subrange(a as int, b as int);
    let lower = find_char(cs, a, b, 'e');
    let upper = find_char(cs, a, b, 'E');
    let marker: Option<usize> = match (lower, upper) {
        (Some(i), Some(j)) => Some(if i <= j { i } else { j }),
        (Some(i), None) => Some(i),
        (None, Some(j)) => Some(j),
        (None, None) => None,
    };
    match marker {
        Some(p) => {
            assert(d.take(p - a) =~= cs@.subrange(a as int, p as int));
            assert(d.skip(p - a + 1) =~= cs@.subrange(p + 1, b as int));
            (p, parse_i32(cs, p + 1, b))
        },
        None => {
            assert(d =~= cs@.subrange(a as int, b as int));
            (b, Some(0))
        },
    }
}

/// The digits of the mantissa `cs[a..b]`, those before its point first,
/// and how many come before it; `None` where a part holds a non-digit.
fn mantissa_digits(cs: &Vec<char>, a: usize, b: usize) -> (r: Option<(Vec<char>, usize)>)
    requires
        a <= b <= cs@.len(),
    ensures
        r matches Some((dg, n)) ==> {
            let m = cs@.subrange(a as int, b as int);
            &&& all_digits(int_part(m)) && all_digits(frac_part(m))
            &&& dg@ == int_part(m) + frac_part(m)
            &&& n == int_part(m).len()
        },
        r is None ==> !(all_digits(int_part(cs@.subrange(a as int, b as int))) && all_digits(
            frac_part(cs@.subrange(a as int, b as int)),
        )),
{
    let ghost m = cs@.subrange(a as int, b as int);
    let dot = find_char(cs, a, b, '.');
    let (ie, fs) = match dot {
        Some(p) => (p, p + 1),
        None => (b, b),
    };
    proof {
        match index_of(m, '.') {
            Some(i) => {
                assert(m.take(i) =~= cs@.subrange(a as int, ie as int));
                assert(m.skip(i + 1) =~= cs@.subrange(fs as int, b as int));
            },
            None => {
                assert(m =~= cs@.subrange(a as int, ie as int));
                assert(cs@.subrange(fs as int, b as int) =~= seq![]);
            },
        }
    }
    if !all_digits_in(cs, a, ie) || !all_digits_in(cs, fs, b) {
        return None;
    }
    let mut digits: Vec<char> = Vec::new();
    push_range(&mut digits, cs, a, ie);
    push_range(&mut digits, cs, fs, b);
    assert(digits@ =~= cs@.subrange(a as int, ie as int) + cs@.subrange(fs as int, b as int));
    Some((digits, ie - a))
}

/// A decimal in `cs[a..b]` in thousandths (see `parse_milli_spec`).
pub fn parse_milli(cs: &Vec<char>, a: usize, b: usize) -> (r: Option<u32>)
    requires
        a <= b <= cs@.len(),
    ensures
        r == parse_milli_spec(cs@.subrange(a as int, b as int)),
{
    let ghost s = cs@.subrange(a as int, b as int);
    let start = if a < b && cs[a] == '+' { a + 1 } else { a };
    let ghost d = cs@.subrange(start as int, b as int);
    assert(s.len() > 0 && s[0] == '+' ==> s.drop_first() =~= d);
    assert(!(s.len() > 0 && s[0] == '+') ==> s =~= d);
    let (me, ex) = split_exponent(cs, start, b);
    let ex = match ex {
        Some(v) => v,
        None => return None,
    };
    let (digits, int_len) = match mantissa_digits(cs, start, me) {
        Some(p) => p,
        None => return None,
    };
    let ghost ip = int_part(mantissa(d));
    let ghost fp = frac_part(mantissa(d));
    if digits.len() == 0 {
        return None;
    }
    assert(all_digits(digits@)) by {
        assert forall|i: int| 0 <= i < digits@.len() implies is_digit(#[trigger] digits@[i]) by {
            if i < ip.len() {
                assert(digits@[i] == ip[i]);
            } else {
                assert(digits@[i] == fp[i - ip.len()]);
            }
        }
    }
    let q: i128 = int_len as i128 + ex as i128 + 3;
    match milli_of_digits(&digits, q) {
        Some(v) => Some(v as u32),
        None => None,
    }
}

} // verus!
