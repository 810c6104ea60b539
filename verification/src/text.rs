//! Text utilities shared by the recorder, the archive and the aggregator:
//! decimal numbers, trimming, splitting and substring search, each exec
//! function pinned to a spec-level model of the same operation.

use vstd::prelude::*;
use vstd::arithmetic::div_mod::lemma_fundamental_div_mod;

verus! {

/// The ten decimal digit characters.
pub open spec fn is_dec_digit(c: char) -> bool {
    c == '0' || c == '1' || c == '2' || c == '3' || c == '4' || c == '5' || c == '6' || c == '7'
        || c == '8' || c == '9'
}

/// Numeric value of a decimal digit character; 0 on other characters.
pub open spec fn digit_val(c: char) -> nat {
    match c {
        '0' => 0,
        '1' => 1,
        '2' => 2,
        '3' => 3,
        '4' => 4,
        '5' => 5,
        '6' => 6,
        '7' => 7,
        '8' => 8,
        '9' => 9,
        _ => 0,
    }
}

/// Digit character for a value below ten.
pub open spec fn digit_char(d: nat) -> char {
    if d == 0 {
        '0'
    } else if d == 1 {
        '1'
    } else if d == 2 {
        '2'
    } else if d == 3 {
        '3'
    } else if d == 4 {
        '4'
    } else if d == 5 {
        '5'
    } else if d == 6 {
        '6'
    } else if d == 7 {
        '7'
    } else if d == 8 {
        '8'
    } else {
        '9'
    }
}

/// A non-empty string made of decimal digits only.
pub open spec fn is_digit_string(s: Seq<char>) -> bool {
    s.len() > 0 && forall|i: int| 0 <= i < s.len() ==> is_dec_digit(#[trigger] s[i])
}

/// Value of a digit string, most significant digit first.
pub open spec fn dec_value(s: Seq<char>) -> nat
    decreases s.len(),
{
    if s.len() == 0 {
        0
    } else {
        dec_value(s.drop_last()) * 10 + digit_val(s.last())
    }
}

/// Canonical decimal rendering of a number: no sign, no leading zero
/// except for the number zero itself.
pub open spec fn dec_str(n: nat) -> Seq<char>
    decreases n,
{
    if n < 10 {
        seq![digit_char(n)]
    } else {
        dec_str(n / 10).push(digit_char(n % 10))
    }
}

/// What parsing an unsigned decimal accepts: digits only, value within
/// the 64-bit range.  Anything else is malformed.
pub open spec fn spec_parse_u64(s: Seq<char>) -> Option<u64> {
    if is_digit_string(s) && dec_value(s) <= u64::MAX {
        Some(dec_value(s) as u64)
    } else {
        None
    }
}

/// A longer digit prefix never has a smaller value.
pub proof fn lemma_dec_value_prefix_le(s: Seq<char>, i: int, j: int)
    requires
        0 <= i <= j <= s.len(),
    ensures
        dec_value(s.subrange(0, i)) <= dec_value(s.subrange(0, j)),
    decreases j - i,
{
    if i < j {
        lemma_dec_value_prefix_le(s, i, j - 1);
        assert(s.subrange(0, j).drop_last() =~= s.subrange(0, j - 1));
        assert(dec_value(s.subrange(0, j)) == dec_value(s.subrange(0, j - 1)) * 10 + digit_val(
            s.subrange(0, j).last(),
        ));
    }
}

/// Maps a digit character to its value; `None` on any other character.
fn digit_of(c: char) -> (r: Option<u64>)
    ensures
        is_dec_digit(c) <==> r is Some,
        r is Some ==> r->0 == digit_val(c) && r->0 < 10,
{
    if c == '0' {
        Some(0)
    } else if c == '1' {
        Some(1)
    } else if c == '2' {
        Some(2)
    } else if c == '3' {
        Some(3)
    } else if c == '4' {
        Some(4)
    } else if c == '5' {
        Some(5)
    } else if c == '6' {
        Some(6)
    } else if c == '7' {
        Some(7)
    } else if c == '8' {
        Some(8)
    } else if c == '9' {
        Some(9)
    } else {
        None
    }
}

/// Parses a non-negative decimal number.  Rejects the empty string, any
/// non-digit character, and values above `u64::MAX`.
pub fn parse_u64(s: &str) -> (r: Option<u64>)
    ensures
        r == spec_parse_u64(s@),
{
    let n = s.unicode_len();
    if n == 0 {
        return None;
    }
    let mut acc: u64 = 0;
    let mut i: usize = 0;
    while i < n
        invariant
            0 < n == s@.len(),
            0 <= i <= n,
            forall|k: int| 0 <= k < i ==> is_dec_digit(#[trigger] s@[k]),
            acc == dec_value(s@.subrange(0, i as int)),
        decreases n - i,
    {
        let c = s.get_char(i);
        match digit_of(c) {
            None => {
                assert(!is_dec_digit(s@[i as int]));
                return None;
            },
            Some(d) => {
                proof {
                    assert(s@.subrange(0, i + 1).drop_last() =~= s@.subrange(0, i as int));
                    assert(dec_value(s@.subrange(0, i + 1)) == acc * 10 + d);
                }
                if acc > (u64::MAX - d) / 10 {
                    proof {
                        lemma_fundamental_div_mod((u64::MAX - d) as int, 10);
                        assert(acc * 10 + d > u64::MAX);
                        lemma_dec_value_prefix_le(s@, i + 1, s@.len() as int);
                        assert(s@.subrange(0, s@.len() as int) =~= s@);
                        assert(dec_value(s@) > u64::MAX);
                    }
                    return None;
                }
                proof {
                    lemma_fundamental_div_mod((u64::MAX - d) as int, 10);
                    assert(acc * 10 + d <= u64::MAX);
                }
                acc = acc * 10 + d;
            },
        }
        i = i + 1;
    }
    proof {
        assert(s@.subrange(0, n as int) =~= s@);
    }
    Some(acc)
}

/// One-character string for a digit value.
pub fn digit_str(d: u64) -> (r: &'static str)
    requires
        d < 10,
    ensures
        r@ =~= seq![digit_char(d as nat)],
{
    if d == 0 {
        proof {
            reveal_strlit("0");
        }
        "0"
    } else if d == 1 {
        proof {
            reveal_strlit("1");
        }
        "1"
    } else if d == 2 {
        proof {
            reveal_strlit("2");
        }
        "2"
    } else if d == 3 {
        proof {
            reveal_strlit("3");
        }
        "3"
    } else if d == 4 {
        proof {
            reveal_strlit("4");
        }
        "4"
    } else if d == 5 {
        proof {
            reveal_strlit("5");
        }
        "5"
    } else if d == 6 {
        proof {
            reveal_strlit("6");
        }
        "6"
    } else if d == 7 {
        proof {
            reveal_strlit("7");
        }
        "7"
    } else if d == 8 {
        proof {
            reveal_strlit("8");
        }
        "8"
    } else {
        proof {
            reveal_strlit("9");
        }
        "9"
    }
}

/// Renders a number in canonical decimal form.
pub fn u64_to_string(n: u64) -> (r: String)
    ensures
        r@ == dec_str(n as nat),
    decreases n,
{
    if n < 10 {
        digit_str(n).to_owned()
    } else {
        let mut s = u64_to_string(n / 10);
        s.append(digit_str(n % 10));
        proof {
            assert(dec_str(n as nat) =~= dec_str((n / 10) as nat) + seq![
                digit_char((n % 10) as nat),
            ]);
        }
        s
    }
}

/// Renders a number in canonical decimal form.
pub fn u128_to_string(n: u128) -> (r: String)
    ensures
        r@ == dec_str(n as nat),
    decreases n,
{
    if n < 10 {
        digit_str(n as u64).to_owned()
    } else {
        let mut s = u128_to_string(n / 10);
        s.append(digit_str((n % 10) as u64));
        proof {
            assert(dec_str(n as nat) =~= dec_str((n / 10) as nat) + seq![
                digit_char((n % 10) as nat),
            ]);
        }
        s
    }
}

/// Character-wise string equality.
pub fn str_eq(a: &str, b: &str) -> (r: bool)
    ensures
        r <==> a@ == b@,
{
    let na = a.unicode_len();
    let nb = b.unicode_len();
    if na != nb {
        return false;
    }
    let mut i: usize = 0;
    while i < na
        invariant
            na == a@.len() && na == b@.len(),
            0 <= i <= na,
            forall|k: int| 0 <= k < i ==> a@[k] == b@[k],
        decreases na - i,
    {
        if a.get_char(i) != b.get_char(i) {
            return false;
        }
        i = i + 1;
    }
    proof {
        assert(a@ =~= b@);
    }
    true
}

/// Whether `p` is a prefix of `s`.
pub open spec fn spec_starts_with(s: Seq<char>, p: Seq<char>) -> bool {
    s.len() >= p.len() && s.subrange(0, p.len() as int) == p
}

/// Whether `p` is a suffix of `s`.
pub open spec fn spec_ends_with(s: Seq<char>, p: Seq<char>) -> bool {
    s.len() >= p.len() && s.subrange(s.len() - p.len(), s.len() as int) == p
}

/// Whether `needle` occurs in `hay` as a contiguous run.
pub open spec fn spec_contains_sub(hay: Seq<char>, needle: Seq<char>) -> bool {
    exists|i: int|
        0 <= i <= hay.len() - needle.len() && #[trigger] hay.subrange(i, i + needle.len())
            == needle
}

/// Whether `s` starts with `p`.
pub fn starts_with_str(s: &str, p: &str) -> (r: bool)
    ensures
        r == spec_starts_with(s@, p@),
{
    let ns = s.unicode_len();
    let np = p.unicode_len();
    if np > ns {
        return false;
    }
    let mut i: usize = 0;
    while i < np
        invariant
            ns == s@.len() && np == p@.len() && np <= ns,
            0 <= i <= np,
            forall|k: int| 0 <= k < i ==> s@[k] == p@[k],
        decreases np - i,
    {
        if s.get_char(i) != p.get_char(i) {
            assert(s@.subrange(0, p@.len() as int)[i as int] != p@[i as int]);
            return false;
        }
        i = i + 1;
    }
    proof {
        assert(s@.subrange(0, p@.len() as int) =~= p@);
    }
    true
}

/// Whether `s` ends with `p`.
pub fn ends_with_str(s: &str, p: &str) -> (r: bool)
    ensures
        r == spec_ends_with(s@, p@),
{
    let ns = s.unicode_len();
    let np = p.unicode_len();
    if np > ns {
        return false;
    }
    let base = ns - np;
    let mut i: usize = 0;
    while i < np
        invariant
            ns == s@.len() && np == p@.len() && np <= ns,
            base == ns - np,
            0 <= i <= np,
            forall|k: int| 0 <= k < i ==> s@[base + k] == p@[k],
        decreases np - i,
    {
        if s.get_char(base + i) != p.get_char(i) {
            assert(s@.subrange(s@.len() - p@.len(), s@.len() as int)[i as int] != p@[i as int]);
            return false;
        }
        i = i + 1;
    }
    proof {
        assert(s@.subrange(s@.len() - p@.len(), s@.len() as int) =~= p@);
    }
    true
}

/// Whether `needle` occurs anywhere in `hay`.
pub fn contains_str(hay: &str, needle: &str) -> (r: bool)
    ensures
        r == spec_contains_sub(hay@, needle@),
{
    let nh = hay.unicode_len();
    let nn = needle.unicode_len();
    if nn > nh {
        return false;
    }
    if nn == 0 {
        proof {
            assert(hay@.subrange(0, 0 + needle@.len() as int) =~= needle@);
        }
        return true;
    }
    let mut i: usize = 0;
    while i <= nh - nn
        invariant
            nh == hay@.len() && nn == needle@.len() && 0 < nn <= nh,
            0 <= i <= nh - nn + 1,
            forall|k: int| 0 <= k < i ==> #[trigger] hay@.subrange(k, k + needle@.len())
                != needle@,
        decreases nh - nn + 1 - i,
    {
        let mut j: usize = 0;
        let mut matched = true;
        while j < nn
            invariant
                nh == hay@.len() && nn == needle@.len() && nn <= nh,
                0 <= i <= nh - nn,
                0 <= j <= nn,
                matched ==> forall|k: int| 0 <= k < j ==> hay@[i + k] == needle@[k],
                !matched ==> hay@.subrange(i as int, i + needle@.len()) != needle@,
            decreases nn - j,
        {
            if hay.get_char(i + j) != needle.get_char(j) {
                assert(hay@.subrange(i as int, i + needle@.len())[j as int] != needle@[j as int]);
                matched = false;
                j = nn;
            } else {
                j = j + 1;
            }
        }
        if matched {
            proof {
                assert(hay@.subrange(i as int, i + needle@.len()) =~= needle@);
            }
            return true;
        }
        i = i + 1;
    }
    false
}

/// The whitespace stripped from around a field: space, tab, and the
/// line-ending characters left by `read_line` and CRLF endings.
pub open spec fn is_space_char(c: char) -> bool {
    c == ' ' || c == '\t' || c == '\r' || c == '\n'
}

/// Number of leading space characters.
pub open spec fn trim_lo(s: Seq<char>) -> int
    decreases s.len(),
{
    if s.len() == 0 {
        0
    } else if is_space_char(s[0]) {
        1 + trim_lo(s.drop_first())
    } else {
        0
    }
}

/// Index just past the last character that is not a space character.
pub open spec fn trim_hi(s: Seq<char>) -> int
    decreases s.len(),
{
    if s.len() == 0 {
        0
    } else if is_space_char(s.last()) {
        trim_hi(s.drop_last())
    } else {
        s.len() as int
    }
}

/// A string with its surrounding space characters removed.
pub open spec fn spec_trim(s: Seq<char>) -> Seq<char> {
    if trim_lo(s) <= trim_hi(s) {
        s.subrange(trim_lo(s), trim_hi(s))
    } else {
        Seq::empty()
    }
}

pub proof fn lemma_trim_lo(s: Seq<char>)
    ensures
        0 <= trim_lo(s) <= s.len(),
        forall|k: int| 0 <= k < trim_lo(s) ==> is_space_char(#[trigger] s[k]),
        trim_lo(s) < s.len() ==> !is_space_char(s[trim_lo(s)]),
    decreases s.len(),
{
    if s.len() > 0 && is_space_char(s[0]) {
        lemma_trim_lo(s.drop_first());
        assert forall|k: int| 0 <= k < trim_lo(s) implies is_space_char(#[trigger] s[k]) by {
            if k > 0 {
                assert(s[k] == s.drop_first()[k - 1]);
            }
        }
    }
}

pub proof fn lemma_trim_hi(s: Seq<char>)
    ensures
        0 <= trim_hi(s) <= s.len(),
        forall|k: int| trim_hi(s) <= k < s.len() ==> is_space_char(#[trigger] s[k]),
        trim_hi(s) > 0 ==> !is_space_char(s[trim_hi(s) - 1]),
    decreases s.len(),
{
    if s.len() > 0 && is_space_char(s.last()) {
        lemma_trim_hi(s.drop_last());
        assert forall|k: int| trim_hi(s) <= k < s.len() implies is_space_char(#[trigger] s[k]) by {
            if k < s.len() - 1 {
                assert(s[k] == s.drop_last()[k]);
            }
        }
        assert(trim_hi(s) > 0 ==> s[trim_hi(s) - 1] == s.drop_last()[trim_hi(s) - 1]);
    }
}

/// Whether a character is stripped by trimming.
pub fn is_space(c: char) -> (r: bool)
    ensures
        r == is_space_char(c),
{
    c == ' ' || c == '\t' || c == '\r' || c == '\n'
}

/// Removes leading and trailing space characters.
pub fn trim_str(s: &str) -> (r: String)
    ensures
        r@ == spec_trim(s@),
{
    let n = s.unicode_len();
    proof {
        lemma_trim_lo(s@);
        lemma_trim_hi(s@);
    }
    let mut lo: usize = 0;
    while lo < n && is_space(s.get_char(lo))
        invariant
            n == s@.len(),
            0 <= lo <= n,
            forall|k: int| 0 <= k < lo ==> is_space_char(#[trigger] s@[k]),
        decreases n - lo,
    {
        lo = lo + 1;
    }
    if lo == n {
        proof {
            if trim_lo(s@) < s@.len() {
                assert(is_space_char(s@[trim_lo(s@)]));
                assert(false);
            }
            assert(trim_hi(s@) < s@.len() ==> is_space_char(s@[trim_hi(s@)]));
            if trim_lo(s@) <= trim_hi(s@) {
                assert(spec_trim(s@) =~= Seq::<char>::empty());
            }
        }
        return String::new();
    }
    // lo is the first index that holds a non-space character
    proof {
        assert(!is_space_char(s@[lo as int]));
        assert(lo as int >= trim_lo(s@));
        assert(trim_lo(s@) < lo ==> is_space_char(s@[trim_lo(s@)]));
        assert(lo as int == trim_lo(s@));
    }
    let mut hi: usize = n;
    while hi > lo + 1 && is_space(s.get_char(hi - 1))
        invariant
            n == s@.len(),
            0 <= lo < n,
            lo + 1 <= hi <= n,
            forall|k: int| hi <= k < n ==> is_space_char(#[trigger] s@[k]),
        decreases hi,
    {
        hi = hi - 1;
    }
    // hi is just past the last non-space character at or after lo
    proof {
        if is_space_char(s@[hi - 1]) {
            // only possible when hi == lo + 1; but s@[lo] is not a space
            assert(hi == lo + 1);
            assert(false);
        }
        assert(trim_hi(s@) >= hi);
        assert(trim_hi(s@) > hi ==> is_space_char(s@[trim_hi(s@) - 1]));
        assert(hi as int == trim_hi(s@));
    }
    let seg = s.substring_char(lo, hi);
    seg.to_owned()
}

/// Index of the first occurrence of `sep` in `s`, or `s.len()` when
/// `sep` does not occur.
pub open spec fn first_sep(s: Seq<char>, sep: char) -> nat
    decreases s.len(),
{
    if s.len() == 0 {
        0
    } else if s[0] == sep {
        0
    } else {
        1 + first_sep(s.drop_first(), sep)
    }
}

pub proof fn lemma_first_sep(s: Seq<char>, sep: char)
    ensures
        first_sep(s, sep) <= s.len(),
        first_sep(s, sep) < s.len() ==> s[first_sep(s, sep) as int] == sep,
        forall|k: int| 0 <= k < first_sep(s, sep) ==> s[k] != sep,
    decreases s.len(),
{
    if s.len() > 0 && s[0] != sep {
        lemma_first_sep(s.drop_first(), sep);
        assert forall|k: int| 0 <= k < first_sep(s, sep) implies s[k] != sep by {
            if k > 0 {
                assert(s[k] == s.drop_first()[k - 1]);
            }
        }
    }
}

/// `first_sep` is the one index with a separator and none before it.
pub proof fn lemma_first_sep_at(s: Seq<char>, sep: char, j: int)
    requires
        0 <= j < s.len(),
        s[j] == sep,
        forall|k: int| 0 <= k < j ==> s[k] != sep,
    ensures
        first_sep(s, sep) == j,
{
    lemma_first_sep(s, sep);
    if first_sep(s, sep) < j {
        assert(s[first_sep(s, sep) as int] != sep);
    }
}

pub proof fn lemma_first_sep_absent(s: Seq<char>, sep: char)
    requires
        forall|k: int| 0 <= k < s.len() ==> s[k] != sep,
    ensures
        first_sep(s, sep) == s.len(),
{
    lemma_first_sep(s, sep);
}

/// The segments of `s` between occurrences of `sep`: one more segment
/// than there are separators, in order, separators dropped.
pub open spec fn spec_split(s: Seq<char>, sep: char) -> Seq<Seq<char>>
    decreases s.len(),
{
    let i = first_sep(s, sep) as int;
    if i >= s.len() {
        seq![s]
    } else {
        seq![s.subrange(0, i)] + spec_split(s.subrange(i + 1, s.len() as int), sep)
    }
}

/// The views of a sequence of owned strings.
pub open spec fn views_of(v: Seq<String>) -> Seq<Seq<char>> {
    v.map_values(|t: String| t@)
}

/// Splits `s` at every occurrence of `sep`.
pub fn split_str(s: &str, sep: char) -> (r: Vec<String>)
    ensures
        views_of(r@) == spec_split(s@, sep),
{
    let n = s.unicode_len();
    let mut segs: Vec<String> = Vec::new();
    let mut start: usize = 0;
    let mut i: usize = 0;
    proof {
        assert(s@.subrange(0, n as int) =~= s@);
        assert(views_of(segs@) =~= Seq::<Seq<char>>::empty());
    }
    while i < n
        invariant
            n == s@.len(),
            0 <= start <= i <= n,
            forall|k: int| start <= k < i ==> s@[k] != sep,
            spec_split(s@, sep) =~= views_of(segs@) + spec_split(
                s@.subrange(start as int, n as int),
                sep,
            ),
        decreases n - i,
    {
        let c = s.get_char(i);
        if c == sep {
            let seg = s.substring_char(start, i);
            segs.push(seg.to_owned());
            proof {
                let tail = s@.subrange(start as int, n as int);
                assert(tail[i - start] == sep);
                lemma_first_sep_at(tail, sep, i - start);
                assert(tail.subrange(0, i - start) =~= s@.subrange(start as int, i as int));
                assert(tail.subrange(i - start + 1, tail.len() as int) =~= s@.subrange(
                    i + 1,
                    n as int,
                ));
                assert(views_of(segs@) =~= views_of(segs@.drop_last()).push(seg@));
            }
            start = i + 1;
        }
        i = i + 1;
    }
    let last = s.substring_char(start, n);
    segs.push(last.to_owned());
    proof {
        let tail = s@.subrange(start as int, n as int);
        lemma_first_sep_absent(tail, sep);
        assert(views_of(segs@) =~= views_of(segs@.drop_last()).push(last@));
    }
    segs
}

/// Rendering a number and reading it back is the identity: the
/// canonical decimal form is all digits and has the value it renders.
pub proof fn lemma_dec_str_value(n: nat)
    ensures
        is_digit_string(dec_str(n)),
        dec_value(dec_str(n)) == n,
    decreases n,
{
    if n < 10 {
        let s = dec_str(n);
        assert(s =~= seq![digit_char(n)]);
        assert(s.len() == 1);
        assert(s.drop_last() =~= Seq::<char>::empty());
        assert(dec_value(s.drop_last()) == 0);
        assert(s.last() == digit_char(n));
        assert(dec_value(s) == dec_value(s.drop_last()) * 10 + digit_val(s.last()));
        assert(digit_val(digit_char(n)) == n);
    } else {
        lemma_dec_str_value(n / 10);
        let s = dec_str(n);
        assert(s == dec_str(n / 10).push(digit_char(n % 10)));
        assert(s.drop_last() =~= dec_str(n / 10));
        assert(s.last() == digit_char(n % 10));
        assert(dec_value(s) == (n / 10) * 10 + digit_val(digit_char(n % 10)));
        assert(digit_val(digit_char(n % 10)) == n % 10);
        lemma_fundamental_div_mod(n as int, 10);
    }
}

/// Trimming changes nothing when the ends are not space characters.
pub proof fn lemma_trim_identity(s: Seq<char>)
    requires
        s.len() == 0 || (!is_space_char(s[0]) && !is_space_char(s.last())),
    ensures
        spec_trim(s) == s,
{
    if s.len() == 0 {
        assert(spec_trim(s) =~= s);
    } else {
        assert(trim_lo(s) == 0);
        assert(trim_hi(s) == s.len());
        assert(spec_trim(s) =~= s);
    }
}

/// Lines joined back into one text, a newline after every line.
pub open spec fn join_lines(lines: Seq<Seq<char>>) -> Seq<char>
    decreases lines.len(),
{
    if lines.len() == 0 {
        Seq::empty()
    } else {
        lines.first() + seq!['\n'] + join_lines(lines.drop_first())
    }
}

pub proof fn lemma_join_lines_push(lines: Seq<Seq<char>>, l: Seq<char>)
    ensures
        join_lines(lines.push(l)) == join_lines(lines) + l + seq!['\n'],
    decreases lines.len(),
{
    if lines.len() == 0 {
        assert(lines.push(l).first() == l);
        assert(lines.push(l).drop_first() =~= Seq::<Seq<char>>::empty());
        assert(join_lines(lines.push(l).drop_first()) == Seq::<char>::empty());
        assert(join_lines(lines.push(l)) == l + seq!['\n'] + Seq::<char>::empty());
        assert(join_lines(lines) == Seq::<char>::empty());
        assert(join_lines(lines.push(l)) =~= join_lines(lines) + l + seq!['\n']);
    } else {
        assert(lines.push(l).drop_first() =~= lines.drop_first().push(l));
        assert(lines.push(l).first() == lines.first());
        lemma_join_lines_push(lines.drop_first(), l);
        assert(join_lines(lines.push(l)) =~= join_lines(lines) + l + seq!['\n']);
    }
}

/// No line holds a newline of its own.
pub open spec fn lines_clean(lines: Seq<Seq<char>>) -> bool {
    forall|i: int, k: int|
        0 <= i < lines.len() && 0 <= k < lines[i].len() ==> #[trigger] lines[i][k] != '\n'
}

/// Splitting joined clean lines recovers them, with one empty segment
/// after the final newline.
pub proof fn lemma_split_join_lines(lines: Seq<Seq<char>>)
    requires
        lines_clean(lines),
    ensures
        spec_split(join_lines(lines), '\n') == lines.push(Seq::empty()),
    decreases lines.len(),
{
    if lines.len() == 0 {
        assert(first_sep(Seq::<char>::empty(), '\n') == 0);
        assert(spec_split(join_lines(lines), '\n') =~= lines.push(Seq::empty()));
    } else {
        let s = join_lines(lines);
        let head = lines.first();
        let rest = join_lines(lines.drop_first());
        assert(s == head + seq!['\n'] + rest);
        assert(s[head.len() as int] == '\n');
        assert forall|k: int| 0 <= k < head.len() implies s[k] != '\n' by {
            assert(s[k] == lines[0][k]);
        }
        lemma_first_sep_at(s, '\n', head.len() as int);
        assert(s.subrange(0, head.len() as int) =~= head);
        assert(s.subrange(head.len() as int + 1, s.len() as int) =~= rest);
        assert(lines_clean(lines.drop_first())) by {
            assert forall|i: int, k: int|
                0 <= i < lines.drop_first().len() && 0 <= k
                    < lines.drop_first()[i].len() implies #[trigger] lines.drop_first()[i][k]
                != '\n' by {
                assert(lines.drop_first()[i] == lines[i + 1]);
            }
        }
        lemma_split_join_lines(lines.drop_first());
        assert(spec_split(s, '\n') == seq![head] + lines.drop_first().push(Seq::<char>::empty()));
        assert(spec_split(s, '\n') =~= lines.push(Seq::empty()));
    }
}

} // verus!
