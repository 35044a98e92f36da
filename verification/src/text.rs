//! Character-level helpers shared by the parsers and the GPX writer.
//!
//! All functions work on `char` sequences so that every step of the text
//! handling is stated and proved over `Seq<char>` views.

use vstd::prelude::*;

verus! {

/// The white-space characters recognised by `char::is_whitespace`.
pub open spec fn is_space(c: char) -> bool {
    c == ' ' || c == '\t' || c == '\n' || c == '\r' || c == '\u{0b}' || c == '\u{0c}'
        || c == '\u{85}' || c == '\u{a0}' || c == '\u{1680}'
        || ('\u{2000}' <= c && c <= '\u{200a}')
        || c == '\u{2028}' || c == '\u{2029}' || c == '\u{202f}' || c == '\u{205f}'
        || c == '\u{3000}'
}

pub fn is_space_char(c: char) -> (r: bool)
    ensures
        r == is_space(c),
{
    c == ' ' || c == '\t' || c == '\n' || c == '\r' || c == '\u{0b}' || c == '\u{0c}'
        || c == '\u{85}' || c == '\u{a0}' || c == '\u{1680}'
        || ('\u{2000}' <= c && c <= '\u{200a}')
        || c == '\u{2028}' || c == '\u{2029}' || c == '\u{202f}' || c == '\u{205f}'
        || c == '\u{3000}'
}

/// Index of the first character at or after `from` that is not white space.
pub open spec fn spec_skip_spaces(s: Seq<char>, from: int) -> int
    decreases s.len() - from,
{
    if from < 0 || from >= s.len() {
        s.len() as int
    } else if is_space(s[from]) {
        spec_skip_spaces(s, from + 1)
    } else {
        from
    }
}

/// Index one past the last character before `upto` that is not white space.
pub open spec fn spec_rskip_spaces(s: Seq<char>, upto: int) -> int
    decreases upto,
{
    if upto <= 0 || upto > s.len() {
        0
    } else if is_space(s[upto - 1]) {
        spec_rskip_spaces(s, upto - 1)
    } else {
        upto
    }
}

proof fn lemma_rskip_spaces_bounds(s: Seq<char>, upto: int)
    requires
        0 <= upto <= s.len(),
    ensures
        0 <= spec_rskip_spaces(s, upto) <= upto,
        forall|j: int| spec_rskip_spaces(s, upto) <= j < upto ==> is_space(s[j]),
        spec_rskip_spaces(s, upto) > 0 ==> !is_space(s[spec_rskip_spaces(s, upto) - 1]),
    decreases upto,
{
    if upto > 0 && is_space(s[upto - 1]) {
        lemma_rskip_spaces_bounds(s, upto - 1);
    }
}

/// The sequence with leading and trailing white space removed.
pub open spec fn spec_trim(s: Seq<char>) -> Seq<char> {
    let a = spec_skip_spaces(s, 0);
    let b = spec_rskip_spaces(s, s.len() as int);
    if a <= b {
        s.subrange(a, b)
    } else {
        Seq::empty()
    }
}

/// The characters of a string slice, as a vector.
pub fn chars_of(s: &str) -> (v: Vec<char>)
    ensures
        v@ == s@,
{
    let n = s.unicode_len();
    let mut v: Vec<char> = Vec::new();
    let mut i: usize = 0;
    while i < n
        invariant
            i <= n,
            n == s@.len(),
            v@ =~= s@.take(i as int),
        decreases n - i,
    {
        v.push(s.get_char(i));
        i += 1;
    }
    proof {
        assert(v@ =~= s@);
    }
    v
}

/// Relies on `Iterator::collect` for `String`: the collected string holds
/// exactly the characters of the vector, in order.
#[verifier::external_body]
pub(crate) fn chars_to_string(v: &Vec<char>) -> (s: String)
    ensures
        s@ == v@,
{
    v.iter().collect()
}

/// Character-for-character equality of two string slices.
pub fn str_eq(a: &str, b: &str) -> (r: bool)
    ensures
        r == (a@ == b@),
{
    let na = a.unicode_len();
    let nb = b.unicode_len();
    if na != nb {
        return false;
    }
    let mut i: usize = 0;
    while i < na
        invariant
            i <= na,
            na == a@.len(),
            na == b@.len(),
            forall|j: int| 0 <= j < i ==> a@[j] == b@[j],
        decreases na - i,
    {
        if a.get_char(i) != b.get_char(i) {
            return false;
        }
        i += 1;
    }
    proof {
        assert(a@ =~= b@);
    }
    true
}

/// The characters of `v` from `from` (inclusive) to `to` (exclusive).
pub fn subvec(v: &Vec<char>, from: usize, to: usize) -> (r: Vec<char>)
    requires
        from <= to <= v@.len(),
    ensures
        r@ == v@.subrange(from as int, to as int),
{
    let mut r: Vec<char> = Vec::new();
    let mut i: usize = from;
    while i < to
        invariant
            from <= i <= to <= v@.len(),
            r@ =~= v@.subrange(from as int, i as int),
        decreases to - i,
    {
        r.push(v[i]);
        i += 1;
    }
    proof {
        assert(r@ =~= v@.subrange(from as int, to as int));
    }
    r
}

/// `v` with leading and trailing white space removed.
pub fn trim_chars(v: &Vec<char>) -> (r: Vec<char>)
    ensures
        r@ == spec_trim(v@),
{
    let n = v.len();
    let mut a: usize = 0;
    while a < n && is_space_char(v[a])
        invariant
            0 <= a <= n,
            n == v@.len(),
            spec_skip_spaces(v@, 0) == spec_skip_spaces(v@, a as int),
        decreases n - a,
    {
        a += 1;
    }
    proof {
        assert(spec_skip_spaces(v@, a as int) == a as int);
    }
    let mut b: usize = n;
    while b > a && is_space_char(v[b - 1])
        invariant
            a <= b <= n,
            n == v@.len(),
            a as int == spec_skip_spaces(v@, 0),
            spec_rskip_spaces(v@, n as int) == spec_rskip_spaces(v@, b as int),
        decreases b,
    {
        b -= 1;
    }
    let r = subvec(v, a, b);
    proof {
        if b > a {
            // v[b - 1] is not white space, so the right scan stops at b.
            assert(spec_rskip_spaces(v@, b as int) == b as int);
        } else {
            // The scans met: the trimmed range is empty either way.
            lemma_rskip_spaces_bounds(v@, a as int);
            assert(v@.subrange(a as int, b as int) =~= Seq::<char>::empty());
            if spec_rskip_spaces(v@, n as int) == a as int {
                assert(spec_trim(v@) =~= Seq::<char>::empty());
            }
        }
        assert(r@ == spec_trim(v@));
    }
    r
}

/// Index of the first occurrence of `c` at or after `from`.
pub open spec fn spec_find_char_from(s: Seq<char>, c: char, from: int) -> Option<int>
    decreases s.len() - from,
{
    if from < 0 || from >= s.len() {
        None
    } else if s[from] == c {
        Some(from)
    } else {
        spec_find_char_from(s, c, from + 1)
    }
}

pub fn find_char_from(v: &Vec<char>, c: char, from: usize) -> (r: Option<usize>)
    requires
        from <= v@.len(),
    ensures
        match r {
            Some(i) => from <= i < v@.len() && spec_find_char_from(v@, c, from as int)
                == Some(i as int),
            None => spec_find_char_from(v@, c, from as int) is None,
        },
{
    let n = v.len();
    let mut i: usize = from;
    while i < n
        invariant
            from <= i <= n,
            n == v@.len(),
            spec_find_char_from(v@, c, from as int) == spec_find_char_from(v@, c, i as int),
        decreases n - i,
    {
        if v[i] == c {
            return Some(i);
        }
        i += 1;
    }
    None
}

/// True when `p` occurs in `s` starting exactly at index `at`.
pub open spec fn spec_match_at(s: Seq<char>, p: Seq<char>, at: int) -> bool {
    0 <= at && at + p.len() <= s.len() && s.subrange(at, at + p.len() as int) == p
}

pub fn match_at(v: &Vec<char>, pat: &str, at: usize) -> (r: bool)
    ensures
        r == spec_match_at(v@, pat@, at as int),
{
    let n = v.len();
    let m = pat.unicode_len();
    if at > n || m > n - at {
        return false;
    }
    let mut j: usize = 0;
    while j < m
        invariant
            j <= m,
            m == pat@.len(),
            n == v@.len(),
            at + m <= n,
            forall|k: int| 0 <= k < j ==> v@[at + k] == pat@[k],
        decreases m - j,
    {
        if v[at + j] != pat.get_char(j) {
            proof {
                assert(v@.subrange(at as int, at + m as int)[j as int] == v@[at + j]);
            }
            return false;
        }
        j += 1;
    }
    proof {
        assert(v@.subrange(at as int, at + m as int) =~= pat@);
    }
    true
}

/// Index of the first occurrence of `p` as a block at or after `from`.
pub open spec fn spec_find_sub_from(s: Seq<char>, p: Seq<char>, from: int) -> Option<int>
    decreases s.len() - from + 1,
{
    if from < 0 || from + p.len() > s.len() {
        None
    } else if spec_match_at(s, p, from) {
        Some(from)
    } else {
        spec_find_sub_from(s, p, from + 1)
    }
}

pub fn find_sub_from(v: &Vec<char>, pat: &str, from: usize) -> (r: Option<usize>)
    requires
        from <= v@.len(),
    ensures
        match r {
            Some(i) => from <= i && i + pat@.len() <= v@.len() && spec_find_sub_from(
                v@,
                pat@,
                from as int,
            ) == Some(i as int),
            None => spec_find_sub_from(v@, pat@, from as int) is None,
        },
{
    let n = v.len();
    let m = pat.unicode_len();
    if m > n || from > n - m {
        return None;
    }
    if m == 0 {
        proof {
            assert(v@.subrange(from as int, from as int) =~= pat@);
        }
        return Some(from);
    }
    let mut i: usize = from;
    while i <= n - m
        invariant
            from <= i,
            n == v@.len(),
            m == pat@.len(),
            0 < m <= n,
            i <= n - m + 1,
            spec_find_sub_from(v@, pat@, from as int) == spec_find_sub_from(v@, pat@, i as int),
        decreases n - i,
    {
        if match_at(v, pat, i) {
            return Some(i);
        }
        i += 1;
    }
    None
}

/// True when `p` occurs somewhere in `s`.
pub open spec fn spec_has_sub(s: Seq<char>, p: Seq<char>) -> bool {
    spec_find_sub_from(s, p, 0) is Some
}

pub fn contains_sub(v: &Vec<char>, pat: &str) -> (r: bool)
    ensures
        r == spec_has_sub(v@, pat@),
{
    find_sub_from(v, pat, 0).is_some()
}

/// True when `s` begins with `p`.
pub open spec fn spec_starts_with(s: Seq<char>, p: Seq<char>) -> bool {
    spec_match_at(s, p, 0)
}

pub fn starts_with_pat(v: &Vec<char>, pat: &str) -> (r: bool)
    ensures
        r == spec_starts_with(v@, pat@),
{
    match_at(v, pat, 0)
}

/// The pieces of `s` from `from` on, cut at every occurrence of `sep`.
pub open spec fn spec_split_from(s: Seq<char>, sep: char, from: int) -> Seq<Seq<char>>
    decreases s.len() - from + 1,
{
    match spec_find_char_from(s, sep, from) {
        Some(i) => if from <= i < s.len() {
            seq![s.subrange(from, i)] + spec_split_from(s, sep, i + 1)
        } else {
            seq![s.subrange(from, s.len() as int)]
        },
        None => seq![s.subrange(from, s.len() as int)],
    }
}

pub fn split_char(v: &Vec<char>, sep: char) -> (r: Vec<Vec<char>>)
    ensures
        r.deep_view() == spec_split_from(v@, sep, 0),
{
    let n = v.len();
    let mut r: Vec<Vec<char>> = Vec::new();
    let mut p: usize = 0;
    let mut done = false;
    while !done
        invariant
            p <= n,
            n == v@.len(),
            !done ==> r.deep_view() + spec_split_from(v@, sep, p as int) =~= spec_split_from(
                v@,
                sep,
                0,
            ),
            done ==> r.deep_view() =~= spec_split_from(v@, sep, 0),
        decreases n - p + (if done { 0int } else { 1 }),
    {
        let ghost r0 = r.deep_view();
        match find_char_from(v, sep, p) {
            Some(i) => {
                r.push(subvec(v, p, i));
                proof {
                    assert(r.deep_view() =~~= r0.push(v@.subrange(p as int, i as int)));
                    assert(r.deep_view() + spec_split_from(v@, sep, i + 1) =~= spec_split_from(
                        v@,
                        sep,
                        0,
                    ));
                }
                p = i + 1;
            },
            None => {
                r.push(subvec(v, p, n));
                proof {
                    assert(r.deep_view() =~~= r0.push(v@.subrange(p as int, n as int)));
                    assert(r.deep_view() =~= spec_split_from(v@, sep, 0));
                }
                done = true;
            },
        }
    }
    r
}

/// Index of the first white-space character at or after `from`.
pub open spec fn spec_token_end(s: Seq<char>, from: int) -> int
    decreases s.len() - from,
{
    if from < 0 || from >= s.len() {
        s.len() as int
    } else if is_space(s[from]) {
        from
    } else {
        spec_token_end(s, from + 1)
    }
}

/// The maximal white-space-free tokens of `s` from `from` on, in order.
pub open spec fn spec_split_ws_from(s: Seq<char>, from: int) -> Seq<Seq<char>>
    decreases s.len() - from,
{
    if from < 0 || from >= s.len() {
        Seq::empty()
    } else if is_space(s[from]) {
        spec_split_ws_from(s, from + 1)
    } else {
        let e = spec_token_end(s, from);
        if from < e <= s.len() {
            seq![s.subrange(from, e)] + spec_split_ws_from(s, e)
        } else {
            Seq::empty()
        }
    }
}

pub fn split_ws(v: &Vec<char>) -> (r: Vec<Vec<char>>)
    ensures
        r.deep_view() == spec_split_ws_from(v@, 0),
{
    let n = v.len();
    let mut r: Vec<Vec<char>> = Vec::new();
    let mut p: usize = 0;
    while p < n
        invariant
            p <= n,
            n == v@.len(),
            r.deep_view() + spec_split_ws_from(v@, p as int) =~= spec_split_ws_from(v@, 0),
        decreases n - p,
    {
        if is_space_char(v[p]) {
            p += 1;
        } else {
            let ghost r0 = r.deep_view();
            let mut e: usize = p + 1;
            while e < n && !is_space_char(v[e])
                invariant
                    p < e <= n,
                    n == v@.len(),
                    spec_token_end(v@, p as int) == spec_token_end(v@, e as int),
                decreases n - e,
            {
                e += 1;
            }
            proof {
                assert(spec_token_end(v@, p as int) == e as int);
            }
            r.push(subvec(v, p, e));
            proof {
                assert(r.deep_view() =~~= r0.push(v@.subrange(p as int, e as int)));
                assert(r.deep_view() + spec_split_ws_from(v@, e as int) =~= spec_split_ws_from(
                    v@,
                    0,
                ));
            }
            p = e;
        }
    }
    proof {
        assert(r.deep_view() =~= spec_split_ws_from(v@, 0));
    }
    r
}

/// `v` with every occurrence of `from_c` replaced by `to_c`.
pub fn replace_char(v: &Vec<char>, from_c: char, to_c: char) -> (r: Vec<char>)
    ensures
        r@ == v@.map_values(
            |c: char|
                if c == from_c {
                    to_c
                } else {
                    c
                },
        ),
{
    let n = v.len();
    let mut r: Vec<char> = Vec::new();
    let mut i: usize = 0;
    while i < n
        invariant
            i <= n,
            n == v@.len(),
            r@ =~= v@.take(i as int).map_values(
                |c: char|
                    if c == from_c {
                        to_c
                    } else {
                        c
                    },
            ),
        decreases n - i,
    {
        if v[i] == from_c {
            r.push(to_c);
        } else {
            r.push(v[i]);
        }
        i += 1;
    }
    proof {
        assert(v@.take(n as int) =~= v@);
        assert(r@ =~= v@.map_values(
            |c: char|
                if c == from_c {
                    to_c
                } else {
                    c
                },
        ));
    }
    r
}

/// Largest integer part accepted by the decimal reader.  Values above it
/// cannot come from a coordinate and would push the fixed-point result
/// towards the edge of `i64`.
pub const DEC_INT_CAP: i64 = 10_000_000_000_000;

pub open spec fn is_digit(c: char) -> bool {
    '0' <= c && c <= '9'
}

pub open spec fn digit_val(c: char) -> int {
    c as int - '0' as int
}

pub open spec fn all_digits(s: Seq<char>) -> bool {
    forall|j: int| 0 <= j < s.len() ==> is_digit(#[trigger] s[j])
}

/// The number written by a digit sequence, most significant digit first.
pub open spec fn spec_digits_val(s: Seq<char>) -> int
    decreases s.len(),
{
    if s.len() == 0 {
        0
    } else {
        spec_digits_val(s.drop_last()) * 10 + digit_val(s.last())
    }
}

proof fn lemma_digits_val_bounds(s: Seq<char>)
    requires
        all_digits(s),
    ensures
        0 <= spec_digits_val(s),
    decreases s.len(),
{
    if s.len() > 0 {
        assert(all_digits(s.drop_last()));
        lemma_digits_val_bounds(s.drop_last());
    }
}

proof fn lemma_digits_val_prefix(s: Seq<char>, k: int)
    requires
        all_digits(s),
        0 <= k <= s.len(),
    ensures
        spec_digits_val(s.take(k)) <= spec_digits_val(s),
    decreases s.len() - k,
{
    if k < s.len() {
        lemma_digits_val_prefix(s, k + 1);
        let t = s.take(k + 1);
        assert(t.drop_last() =~= s.take(k));
        assert(all_digits(s.take(k)));
        lemma_digits_val_bounds(s.take(k));
        assert(spec_digits_val(t) == spec_digits_val(s.take(k)) * 10 + digit_val(t.last()));
    } else {
        assert(s.take(k) =~= s);
    }
}

/// Reads `v[from .. to]` as a capped decimal integer: the digits' value if
/// they are all digits and the value does not exceed [`DEC_INT_CAP`].
pub fn digits_val_capped(v: &Vec<char>, from: usize, to: usize) -> (r: Option<i64>)
    requires
        from <= to <= v@.len(),
    ensures
        ({
            let s = v@.subrange(from as int, to as int);
            match r {
                Some(x) => all_digits(s) && spec_digits_val(s) == x as int && 0 <= x
                    <= DEC_INT_CAP,
                None => !(all_digits(s) && spec_digits_val(s) <= DEC_INT_CAP as int),
            }
        }),
{
    let ghost s = v@.subrange(from as int, to as int);
    let mut acc: i64 = 0;
    let mut i: usize = from;
    while i < to
        invariant
            from <= i <= to <= v@.len(),
            s == v@.subrange(from as int, to as int),
            all_digits(s.take(i - from)),
            0 <= acc <= DEC_INT_CAP,
            acc as int == spec_digits_val(s.take(i - from)),
        decreases to - i,
    {
        let c = v[i];
        proof {
            assert(s[i - from] == v@[i as int]);
        }
        if c < '0' || c > '9' {
            proof {
                assert(!is_digit(s[i - from]));
            }
            return None;
        }
        let d: i64 = (c as u32 - '0' as u32) as i64;
        let acc2: i64 = acc * 10 + d;
        proof {
            assert(s.take(i - from + 1).drop_last() =~= s.take(i - from));
        }
        if acc2 > DEC_INT_CAP {
            proof {
                if all_digits(s) {
                    lemma_digits_val_prefix(s, i - from + 1);
                }
            }
            return None;
        }
        acc = acc2;
        i += 1;
    }
    proof {
        assert(s.take(to - from) =~= s);
    }
    Some(acc)
}

pub open spec fn spec_pow10(n: nat) -> int
    decreases n,
{
    if n == 0 {
        1
    } else {
        10 * spec_pow10((n - 1) as nat)
    }
}

/// The first five fractional digits, zero padded on the right.
pub open spec fn spec_frac5(fp: Seq<char>) -> int {
    if fp.len() >= 5 {
        spec_digits_val(fp.take(5))
    } else {
        spec_digits_val(fp) * spec_pow10((5 - fp.len()) as nat)
    }
}

/// The decimal number written in `s`, scaled by `1e5`, when `s` consists of
/// an optional sign, digits, and at most one decimal point — with at least
/// one digit overall.  Fractional digits beyond the fifth are dropped.
pub open spec fn spec_parse_e5(s: Seq<char>) -> Option<int> {
    let b: int = if s.len() > 0 && (s[0] == '+' || s[0] == '-') {
        1
    } else {
        0
    };
    let sign: int = if s.len() > 0 && s[0] == '-' {
        -1
    } else {
        1
    };
    match spec_find_char_from(s, '.', b) {
        None => {
            let ip = s.subrange(b, s.len() as int);
            if b < s.len() && all_digits(ip) && spec_digits_val(ip) <= DEC_INT_CAP as int {
                Some(sign * spec_digits_val(ip) * 100000)
            } else {
                None
            }
        },
        Some(dot) => {
            let ip = s.subrange(b, dot);
            let fp = s.subrange(dot + 1, s.len() as int);
            if ip.len() + fp.len() > 0 && all_digits(ip) && all_digits(fp) && spec_digits_val(ip)
                <= DEC_INT_CAP as int {
                Some(sign * (spec_digits_val(ip) * 100000 + spec_frac5(fp)))
            } else {
                None
            }
        },
    }
}

fn all_digits_range(v: &Vec<char>, from: usize, to: usize) -> (r: bool)
    requires
        from <= to <= v@.len(),
    ensures
        r == all_digits(v@.subrange(from as int, to as int)),
{
    let ghost s = v@.subrange(from as int, to as int);
    let mut i: usize = from;
    while i < to
        invariant
            from <= i <= to <= v@.len(),
            s == v@.subrange(from as int, to as int),
            all_digits(s.take(i - from)),
        decreases to - i,
    {
        let c = v[i];
        proof {
            assert(s[i - from] == v@[i as int]);
        }
        if c < '0' || c > '9' {
            proof {
                assert(!is_digit(s[i - from]));
            }
            return false;
        }
        i += 1;
    }
    proof {
        assert(s.take(to - from) =~= s);
    }
    true
}

fn pow10_small(n: usize) -> (r: i64)
    requires
        n <= 5,
    ensures
        r as int == spec_pow10(n as nat),
        1 <= r <= 100000,
{
    proof {
        reveal_with_fuel(spec_pow10, 6);
    }
    if n == 0 {
        1
    } else if n == 1 {
        10
    } else if n == 2 {
        100
    } else if n == 3 {
        1000
    } else if n == 4 {
        10000
    } else {
        proof {
            reveal_with_fuel(spec_pow10, 6);
            assert(spec_pow10(5) == 100000);
        }
        100000
    }
}

/// Reads the characters of `v` as a decimal number scaled by `1e5`.
pub fn parse_e5(v: &Vec<char>) -> (r: Option<i64>)
    ensures
        (r is Some) == (spec_parse_e5(v@) is Some),
        r matches Some(x) ==> spec_parse_e5(v@) == Some(x as int),
{
    let n = v.len();
    let mut b: usize = 0;
    let mut neg = false;
    if n > 0 && (v[0] == '+' || v[0] == '-') {
        neg = v[0] == '-';
        b = 1;
    }
    match find_char_from(v, '.', b) {
        None => {
            if b >= n {
                return None;
            }
            match digits_val_capped(v, b, n) {
                Some(d) => {
                    let val = d * 100000;
                    proof {
                        let s = v@;
                        let bs: int = if s.len() > 0 && (s[0] == '+' || s[0] == '-') {
                            1
                        } else {
                            0
                        };
                        assert(bs == b as int);
                        assert(spec_find_char_from(s, '.', bs) is None);
                        let ip = s.subrange(bs, s.len() as int);
                        assert(all_digits(ip));
                        assert(d as int == spec_digits_val(ip));
                        assert(bs < s.len());
                        assert(spec_digits_val(ip) * 100000 == val as int);
                        if neg {
                            assert(s[0] == '-');
                            assert(-1 * spec_digits_val(ip) * 100000 == -(val as int))
                                by (nonlinear_arith)
                                requires
                                    spec_digits_val(ip) * 100000 == val as int,
                            ;
                            assert(spec_parse_e5(s) == Some((-val) as int));
                        } else {
                            assert(spec_parse_e5(s) == Some(val as int));
                        }
                    }
                    Some(if neg { -val } else { val })
                },
                None => None,
            }
        },
        Some(dot) => {
            if n - b <= 1 {
                // Only the decimal point remains: no digit at all.
                return None;
            }
            let ipv = match digits_val_capped(v, b, dot) {
                Some(d) => d,
                None => {
                    return None;
                },
            };
            if !all_digits_range(v, dot + 1, n) {
                return None;
            }
            let flen = n - (dot + 1);
            let fv: i64 = if flen >= 5 {
                match digits_val_capped(v, dot + 1, dot + 6) {
                    Some(d) => {
                        proof {
                            let fp = v@.subrange(dot + 1, n as int);
                            assert(fp.take(5) =~= v@.subrange(dot + 1, dot + 6));
                            assert(all_digits(fp.take(5)));
                        }
                        d
                    },
                    None => {
                        proof {
                            let fp = v@.subrange(dot + 1, n as int);
                            assert(fp.take(5) =~= v@.subrange(dot + 1, dot + 6));
                            assert(forall|j: int|
                                0 <= j < 5 ==> #[trigger] fp.take(5)[j] == fp[j]);
                            assert(all_digits(fp.take(5)));
                            lemma_digits_val_small(fp.take(5));
                            reveal_with_fuel(spec_pow10, 6);
                            assert(false);
                        }
                        0
                    },
                }
            } else {
                match digits_val_capped(v, dot + 1, n) {
                    Some(d) => {
                        let m = pow10_small(5 - flen);
                        proof {
                            let fp = v@.subrange(dot + 1, n as int);
                            lemma_digits_val_small(fp);
                            reveal_with_fuel(spec_pow10, 6);
                            assert(0 <= d * m <= 10000 * 100000) by (nonlinear_arith)
                                requires
                                    0 <= d <= 10000,
                                    1 <= m <= 100000,
                            ;
                        }
                        d * m
                    },
                    None => {
                        // All characters are digits and fewer than five of
                        // them: the capped reader cannot fail here.
                        proof {
                            let fp = v@.subrange(dot + 1, n as int);
                            lemma_digits_val_small(fp);
                            reveal_with_fuel(spec_pow10, 6);
                            assert(false);
                        }
                        return None;
                    },
                }
            };
            let val = ipv * 100000 + fv;
            proof {
                let s = v@;
                let bs: int = if s.len() > 0 && (s[0] == '+' || s[0] == '-') {
                    1
                } else {
                    0
                };
                assert(bs == b as int);
                assert(spec_find_char_from(s, '.', bs) == Some(dot as int));
                let ip = s.subrange(bs, dot as int);
                let fp = s.subrange(dot + 1, s.len() as int);
                assert(all_digits(ip));
                assert(all_digits(fp));
                assert(ipv as int == spec_digits_val(ip));
                assert(fv as int == spec_frac5(fp));
                assert(ip.len() + fp.len() > 0);
                assert(spec_digits_val(ip) * 100000 + spec_frac5(fp) == val as int);
                if neg {
                    assert(s[0] == '-');
                    assert(-1 * (spec_digits_val(ip) * 100000 + spec_frac5(fp)) == -(
                    val as int)) by (nonlinear_arith)
                        requires
                            spec_digits_val(ip) * 100000 + spec_frac5(fp) == val as int,
                    ;
                    assert(spec_parse_e5(s) == Some((-val) as int));
                } else {
                    assert(spec_parse_e5(s) == Some(val as int));
                }
            }
            Some(if neg { -val } else { val })
        },
    }
}

pub open spec fn digit_char(d: int) -> char {
    if d == 0 {
        '0'
    } else if d == 1 {
        '1'
    } else if d == 2 {
        '2'
    } else if d == 3 {
        '3'
    } else if d == 4 {
        '4'
    } else if d == 5 {
        '5'
    } else if d == 6 {
        '6'
    } else if d == 7 {
        '7'
    } else if d == 8 {
        '8'
    } else {
        '9'
    }
}

fn digit_char_exec(d: u64) -> (c: char)
    requires
        d < 10,
    ensures
        c == digit_char(d as int),
{
    if d == 0 {
        '0'
    } else if d == 1 {
        '1'
    } else if d == 2 {
        '2'
    } else if d == 3 {
        '3'
    } else if d == 4 {
        '4'
    } else if d == 5 {
        '5'
    } else if d == 6 {
        '6'
    } else if d == 7 {
        '7'
    } else if d == 8 {
        '8'
    } else {
        '9'
    }
}

/// The decimal digits of a non-negative number, most significant first.
pub open spec fn spec_dec_digits(n: int) -> Seq<char>
    recommends
        n >= 0,
    decreases n,
{
    if n < 10 {
        seq![digit_char(n)]
    } else {
        spec_dec_digits(n / 10).push(digit_char(n % 10))
    }
}

pub fn dec_digits(n: u64) -> (r: Vec<char>)
    ensures
        r@ == spec_dec_digits(n as int),
    decreases n,
{
    if n < 10 {
        let mut r: Vec<char> = Vec::new();
        r.push(digit_char_exec(n));
        proof {
            assert(r@ =~= seq![digit_char(n as int)]);
        }
        r
    } else {
        let mut r = dec_digits(n / 10);
        r.push(digit_char_exec(n % 10));
        r
    }
}

/// The digit sequence with trailing `'0'` characters removed.
pub open spec fn spec_trim_zeros(s: Seq<char>) -> Seq<char>
    decreases s.len(),
{
    if s.len() > 0 && s.last() == '0' {
        spec_trim_zeros(s.drop_last())
    } else {
        s
    }
}

/// A fixed-point value rendered as a plain decimal: integer part, then a
/// fractional part only where it is non-zero, trailing zeros dropped.
pub open spec fn spec_format_e5(v: int) -> Seq<char> {
    let a = if v < 0 {
        -v
    } else {
        v
    };
    let ip = a / 100000;
    let fr = a % 100000;
    let sign: Seq<char> = if v < 0 {
        seq!['-']
    } else {
        Seq::empty()
    };
    let frac: Seq<char> = if fr == 0 {
        Seq::empty()
    } else {
        seq!['.'] + spec_trim_zeros(spec_dec_digits(100000 + fr).skip(1))
    };
    sign + spec_dec_digits(ip) + frac
}

pub fn format_e5(v: i64) -> (r: Vec<char>)
    ensures
        r@ == spec_format_e5(v as int),
{
    let a: u64 = if v < 0 {
        (-(v as i128)) as u64
    } else {
        v as u64
    };
    let ip: u64 = a / 100000;
    let fr: u64 = a % 100000;
    let mut r: Vec<char> = Vec::new();
    if v < 0 {
        r.push('-');
    }
    let mut ip_digits = dec_digits(ip);
    r.append(&mut ip_digits);
    if fr != 0 {
        let mut fd = dec_digits(100000 + fr);
        fd.remove(0);
        proof {
            assert(fd@ =~= spec_dec_digits(100000 + fr as int).skip(1));
        }
        while fd.len() > 0 && *fd.last().unwrap() == '0'
            invariant
                spec_trim_zeros(fd@) == spec_trim_zeros(spec_dec_digits(
                    100000 + fr as int,
                ).skip(1)),
            decreases fd.len(),
        {
            fd.pop();
        }
        proof {
            assert(spec_trim_zeros(fd@) == fd@);
        }
        r.push('.');
        r.append(&mut fd);
    }
    proof {
        assert(r@ =~= spec_format_e5(v as int));
    }
    r
}

/// A digit sequence of length `k` writes a value under `10^k`.
proof fn lemma_digits_val_small(s: Seq<char>)
    requires
        all_digits(s),
    ensures
        spec_digits_val(s) < spec_pow10(s.len()),
    decreases s.len(),
{
    if s.len() > 0 {
        assert(all_digits(s.drop_last()));
        lemma_digits_val_small(s.drop_last());
        lemma_digits_val_bounds(s.drop_last());
    }
}

pub open spec fn is_hex_digit(c: char) -> bool {
    ('0' <= c && c <= '9') || ('a' <= c && c <= 'f') || ('A' <= c && c <= 'F')
}

pub open spec fn hex_val(c: char) -> int {
    if '0' <= c && c <= '9' {
        c as int - '0' as int
    } else if 'a' <= c && c <= 'f' {
        c as int - 'a' as int + 10
    } else {
        c as int - 'A' as int + 10
    }
}

pub fn is_hex_digit_char(c: char) -> (r: bool)
    ensures
        r == is_hex_digit(c),
{
    ('0' <= c && c <= '9') || ('a' <= c && c <= 'f') || ('A' <= c && c <= 'F')
}

pub fn hex_val_char(c: char) -> (r: u8)
    requires
        is_hex_digit(c),
    ensures
        r as int == hex_val(c),
        r < 16,
{
    if '0' <= c && c <= '9' {
        (c as u32 - '0' as u32) as u8
    } else if 'a' <= c && c <= 'f' {
        (c as u32 - 'a' as u32 + 10) as u8
    } else {
        (c as u32 - 'A' as u32 + 10) as u8
    }
}

pub open spec fn all_hex_digits(s: Seq<char>) -> bool {
    forall|j: int| 0 <= j < s.len() ==> is_hex_digit(#[trigger] s[j])
}

/// The number written by a hex digit sequence, most significant first.
pub open spec fn spec_hex_val(s: Seq<char>) -> int
    decreases s.len(),
{
    if s.len() == 0 {
        0
    } else {
        spec_hex_val(s.drop_last()) * 16 + hex_val(s.last())
    }
}

proof fn lemma_hex_val_bounds(s: Seq<char>)
    requires
        all_hex_digits(s),
    ensures
        0 <= spec_hex_val(s),
    decreases s.len(),
{
    if s.len() > 0 {
        assert(all_hex_digits(s.drop_last()));
        lemma_hex_val_bounds(s.drop_last());
    }
}

proof fn lemma_hex_val_prefix(s: Seq<char>, k: int)
    requires
        all_hex_digits(s),
        0 <= k <= s.len(),
    ensures
        spec_hex_val(s.take(k)) <= spec_hex_val(s),
    decreases s.len() - k,
{
    if k < s.len() {
        lemma_hex_val_prefix(s, k + 1);
        let t = s.take(k + 1);
        assert(t.drop_last() =~= s.take(k));
        assert(all_hex_digits(s.take(k)));
        lemma_hex_val_bounds(s.take(k));
        assert(spec_hex_val(t) == spec_hex_val(s.take(k)) * 16 + hex_val(t.last()));
    } else {
        assert(s.take(k) =~= s);
    }
}

/// Reads `v[from .. to]` as a capped hex integer: the digits' value if they
/// are all hex digits and the value does not exceed [`DEC_INT_CAP`].
pub fn hex_val_capped(v: &Vec<char>, from: usize, to: usize) -> (r: Option<i64>)
    requires
        from <= to <= v@.len(),
    ensures
        ({
            let s = v@.subrange(from as int, to as int);
            match r {
                Some(x) => all_hex_digits(s) && spec_hex_val(s) == x as int && 0 <= x
                    <= DEC_INT_CAP,
                None => !(all_hex_digits(s) && spec_hex_val(s) <= DEC_INT_CAP as int),
            }
        }),
{
    let ghost s = v@.subrange(from as int, to as int);
    let mut acc: i64 = 0;
    let mut i: usize = from;
    while i < to
        invariant
            from <= i <= to <= v@.len(),
            s == v@.subrange(from as int, to as int),
            all_hex_digits(s.take(i - from)),
            0 <= acc <= DEC_INT_CAP,
            acc as int == spec_hex_val(s.take(i - from)),
        decreases to - i,
    {
        let c = v[i];
        proof {
            assert(s[i - from] == v@[i as int]);
        }
        if !is_hex_digit_char(c) {
            proof {
                assert(!is_hex_digit(s[i - from]));
            }
            return None;
        }
        let d: i64 = hex_val_char(c) as i64;
        let acc2: i64 = acc * 16 + d;
        proof {
            assert(s.take(i - from + 1).drop_last() =~= s.take(i - from));
        }
        if acc2 > DEC_INT_CAP {
            proof {
                if all_hex_digits(s) {
                    lemma_hex_val_prefix(s, i - from + 1);
                }
            }
            return None;
        }
        acc = acc2;
        i += 1;
    }
    proof {
        assert(s.take(to - from) =~= s);
    }
    Some(acc)
}

} // verus!
