//! Character-level helpers: decimal formatting and parsing of integers and
//! splitting of names at separators, all stated over `Seq<char>`.
use vstd::prelude::*;
use vstd::string::*;

verus! {

pub open spec fn is_digit(c: char) -> bool {
    '0' <= c && c <= '9'
}

pub open spec fn digit_char(d: nat) -> char
    recommends
        d < 10,
{
    if d == 0 { '0' } else if d == 1 { '1' } else if d == 2 { '2' } else if d == 3 { '3' }
    else if d == 4 { '4' } else if d == 5 { '5' } else if d == 6 { '6' } else if d == 7 { '7' }
    else if d == 8 { '8' } else { '9' }
}

pub open spec fn digit_value(c: char) -> int {
    (c as int) - ('0' as int)
}

/// Decimal digits of a natural number, most significant first, no leading zeros.
pub open spec fn nat_digits(n: nat) -> Seq<char>
    decreases n,
{
    if n < 10 {
        seq![digit_char(n)]
    } else {
        nat_digits(n / 10).push(digit_char(n % 10))
    }
}

/// Decimal rendering of an integer, with a leading '-' for negative values.
pub open spec fn int_chars(i: int) -> Seq<char> {
    if i < 0 {
        seq!['-'] + nat_digits((-i) as nat)
    } else {
        nat_digits(i as nat)
    }
}

pub open spec fn all_digits(s: Seq<char>) -> bool {
    forall|k: int| 0 <= k < s.len() ==> is_digit(#[trigger] s[k])
}

/// The value of a run of decimal digits.
pub open spec fn digits_value(s: Seq<char>) -> int
    decreases s.len(),
{
    if s.len() == 0 {
        0
    } else {
        digits_value(s.drop_last()) * 10 + digit_value(s.last())
    }
}

/// Integer syntax accepted by `str::parse` for signed integers: an optional
/// sign followed by at least one decimal digit.
pub open spec fn signed_value(s: Seq<char>) -> Option<int> {
    if s.len() == 0 {
        None
    } else if s[0] == '-' || s[0] == '+' {
        let rest = s.drop_first();
        if rest.len() > 0 && all_digits(rest) {
            Some(if s[0] == '-' { -digits_value(rest) } else { digits_value(rest) })
        } else {
            None
        }
    } else if all_digits(s) {
        Some(digits_value(s))
    } else {
        None
    }
}

/// Integer syntax accepted by `str::parse` for unsigned integers: an optional
/// '+' followed by at least one decimal digit.
pub open spec fn unsigned_value(s: Seq<char>) -> Option<int> {
    if s.len() == 0 {
        None
    } else if s[0] == '+' {
        let rest = s.drop_first();
        if rest.len() > 0 && all_digits(rest) {
            Some(digits_value(rest))
        } else {
            None
        }
    } else if all_digits(s) {
        Some(digits_value(s))
    } else {
        None
    }
}

/// What `s.parse::<i32>().ok()` returns.
pub open spec fn parse_i32(s: Seq<char>) -> Option<i32> {
    match signed_value(s) {
        Some(v) => if i32::MIN <= v <= i32::MAX {
            Some(v as i32)
        } else {
            None
        },
        None => None,
    }
}

/// What `s.parse::<usize>().ok()` returns.
pub open spec fn parse_usize(s: Seq<char>) -> Option<usize> {
    match unsigned_value(s) {
        Some(v) => if v <= usize::MAX {
            Some(v as usize)
        } else {
            None
        },
        None => None,
    }
}

pub proof fn lemma_digit_char(d: nat)
    requires
        d < 10,
    ensures
        digit_value(digit_char(d)) == d,
        is_digit(digit_char(d)),
{
}

pub proof fn lemma_nat_digits(n: nat)
    ensures
        nat_digits(n).len() > 0,
        all_digits(nat_digits(n)),
        digits_value(nat_digits(n)) == n,
    decreases n,
{
    lemma_digit_char(n % 10);
    if n < 10 {
        let s = nat_digits(n);
        assert(s.drop_last() =~= Seq::<char>::empty());
        assert(n % 10 == n);
        assert(digits_value(s.drop_last()) == 0);
        assert(s.last() == digit_char(n));
    } else {
        lemma_nat_digits(n / 10);
        let s = nat_digits(n);
        assert(s.drop_last() =~= nat_digits(n / 10));
        assert(n == (n / 10) * 10 + n % 10);
        assert(s.last() == digit_char(n % 10));
        assert(digits_value(s) == digits_value(s.drop_last()) * 10 + digit_value(s.last()));
        assert forall|k: int| 0 <= k < s.len() implies is_digit(#[trigger] s[k]) by {
            if k < s.len() - 1 {
                assert(s[k] == nat_digits(n / 10)[k]);
            }
        }
    }
}

/// Formatting an integer and parsing it back gives the integer.
pub proof fn lemma_parse_int_chars(i: i32)
    ensures
        parse_i32(int_chars(i as int)) == Some(i),
        forall|k: int| 0 <= k < int_chars(i as int).len() ==> (#[trigger] int_chars(i as int)[k]
            == '-' || is_digit(int_chars(i as int)[k])),
{
    if i < 0 {
        let d = nat_digits((-i) as nat);
        lemma_nat_digits((-i) as nat);
        let s = int_chars(i as int);
        assert(s.drop_first() =~= d);
        assert(s[0] == '-');
        assert forall|k: int| 0 <= k < s.len() implies (#[trigger] s[k] == '-' || is_digit(s[k])) by {
            if k > 0 {
                assert(s[k] == d[k - 1]);
            }
        }
    } else {
        lemma_nat_digits(i as nat);
    }
}

/// Appending a digit never makes the value smaller.
pub proof fn lemma_digits_value_grows(s: Seq<char>, i: int, j: int)
    requires
        0 <= i <= j <= s.len(),
        all_digits(s),
    ensures
        digits_value(s.subrange(0, i)) <= digits_value(s.subrange(0, j)),
        digits_value(s.subrange(0, j)) >= 0,
    decreases j,
{
    if j > 0 {
        assert(s.subrange(0, j).drop_last() =~= s.subrange(0, j - 1));
        assert(is_digit(s[j - 1]));
        let i2 = if i < j { i } else { j - 1 };
        lemma_digits_value_grows(s, i2, j - 1);
    }
}

/// The first position at or after `i` where `pat` occurs in `s`.
pub open spec fn first_match_from(s: Seq<char>, pat: Seq<char>, i: int) -> Option<int>
    decreases s.len() + 1 - i,
{
    if i < 0 || i + pat.len() > s.len() {
        None
    } else if s.subrange(i, i + pat.len()) == pat {
        Some(i)
    } else {
        first_match_from(s, pat, i + 1)
    }
}

/// The `n`-th piece of `s` split at every occurrence of `pat`, as
/// `str::split(pat).nth(n)` gives it.
pub open spec fn split_field(s: Seq<char>, pat: Seq<char>, n: nat) -> Option<Seq<char>>
    decreases n,
{
    match first_match_from(s, pat, 0) {
        None => if n == 0 {
            Some(s)
        } else {
            None
        },
        Some(k) => if n == 0 {
            Some(s.subrange(0, k))
        } else if pat.len() > 0 && k + pat.len() <= s.len() {
            split_field(s.subrange(k + pat.len(), s.len() as int), pat, (n - 1) as nat)
        } else {
            None
        },
    }
}

pub proof fn lemma_first_match_from_bounds(s: Seq<char>, pat: Seq<char>, i: int)
    ensures
        first_match_from(s, pat, i) matches Some(k) ==> i <= k && k + pat.len() <= s.len()
            && s.subrange(k, k + pat.len()) == pat,
    decreases s.len() + 1 - i,
{
    if !(i < 0 || i + pat.len() > s.len()) && s.subrange(i, i + pat.len()) != pat {
        lemma_first_match_from_bounds(s, pat, i + 1);
    }
}

/// Where `pat` first occurs in the window `lo..hi` of `v`, as a position of `v`.
pub fn find_pattern(v: &Vec<char>, lo: usize, hi: usize, pat: &Vec<char>) -> (r: Option<usize>)
    requires
        lo <= hi <= v@.len(),
        pat@.len() > 0,
    ensures
        match r {
            Some(k) => first_match_from(v@.subrange(lo as int, hi as int), pat@, 0) == Some(k - lo),
            None => first_match_from(v@.subrange(lo as int, hi as int), pat@, 0) is None,
        },
{
    let ghost w = v@.subrange(lo as int, hi as int);
    let plen: usize = pat.len();
    let mut i: usize = lo;
    while i < hi && plen <= hi - i
        invariant
            lo <= i <= hi <= v@.len(),
            plen == pat@.len() > 0,
            w == v@.subrange(lo as int, hi as int),
            first_match_from(w, pat@, 0) == first_match_from(w, pat@, i - lo),
        decreases hi - i,
    {
        let mut k: usize = 0;
        let mut same = true;
        while k < plen
            invariant
                0 <= k <= plen,
                lo <= i,
                i + plen <= hi <= v@.len(),
                plen == pat@.len(),
                same == (forall|m: int| 0 <= m < k ==> v@[i + m] == pat@[m]),
            decreases plen - k,
        {
            if v[i + k] != pat[k] {
                same = false;
            }
            k = k + 1;
        }
        proof {
            let off = i - lo;
            assert(w.subrange(off, off + plen) =~= v@.subrange(i as int, i + plen));
            if same {
                assert(w.subrange(off, off + plen) =~= pat@);
            } else {
                let m = choose|m: int| 0 <= m < plen && v@[i + m] != pat@[m];
                assert(w.subrange(off, off + plen)[m] != pat@[m]);
            }
        }
        if same {
            return Some(i);
        }
        i = i + 1;
    }
    proof {
        assert(first_match_from(w, pat@, i - lo) == None::<int>);
    }
    None
}

/// The window of the `n`-th piece of `v[lo..hi]` split at `pat`.
pub fn split_window(v: &Vec<char>, lo: usize, hi: usize, pat: &Vec<char>, n: usize) -> (r: Option<(usize, usize)>)
    requires
        lo <= hi <= v@.len(),
        pat@.len() > 0,
    ensures
        match r {
            Some((a, b)) => lo <= a <= b <= hi && split_field(v@.subrange(lo as int, hi as int), pat@, n as nat)
                == Some(v@.subrange(a as int, b as int)),
            None => split_field(v@.subrange(lo as int, hi as int), pat@, n as nat) is None,
        },
    decreases n,
{
    let ghost w = v@.subrange(lo as int, hi as int);
    let found = find_pattern(v, lo, hi, pat);
    proof {
        lemma_first_match_from_bounds(w, pat@, 0);
    }
    match found {
        None => {
            if n == 0 {
                Some((lo, hi))
            } else {
                None
            }
        },
        Some(k) => {
            if n == 0 {
                proof {
                    assert(w.subrange(0, k - lo) =~= v@.subrange(lo as int, k as int));
                }
                Some((lo, k))
            } else {
                let next: usize = k + pat.len();
                proof {
                    assert(w.subrange(next - lo, w.len() as int) =~= v@.subrange(next as int, hi as int));
                }
                split_window(v, next, hi, pat, n - 1)
            }
        },
    }
}

/// Parses the window `lo..hi` of `v` as `str::parse::<i32>` would.
pub fn parse_i32_window(v: &Vec<char>, lo: usize, hi: usize) -> (r: Option<i32>)
    requires
        lo <= hi <= v@.len(),
    ensures
        r == parse_i32(v@.subrange(lo as int, hi as int)),
{
    let ghost s = v@.subrange(lo as int, hi as int);
    if lo == hi {
        return None;
    }
    let neg = v[lo] == '-';
    let start: usize = if v[lo] == '-' || v[lo] == '+' { lo + 1 } else { lo };
    if start == hi {
        return None;
    }
    let ghost d = v@.subrange(start as int, hi as int);
    proof {
        if start > lo {
            assert(s.drop_first() =~= d);
        } else {
            assert(s =~= d);
        }
    }
    let mut acc: i64 = 0;
    let mut i: usize = start;
    while i < hi
        invariant
            lo <= start <= i <= hi <= v@.len(),
            start < hi,
            s == v@.subrange(lo as int, hi as int),
            d == v@.subrange(start as int, hi as int),
            neg == (s[0] == '-'),
            start > lo ==> (s[0] == '-' || s[0] == '+') && s.drop_first() == d,
            start == lo ==> s[0] != '-' && s[0] != '+' && s == d,
            0 <= acc <= 0x8000_0000,
            all_digits(d.subrange(0, i - start)),
            acc == digits_value(d.subrange(0, i - start)),
        decreases hi - i,
    {
        let c = v[i];
        proof {
            assert(d[i - start] == c);
        }
        if !('0' <= c && c <= '9') {
            proof {
                assert(!is_digit(d[i - start]));
                assert(!all_digits(d));
            }
            return None;
        }
        let dv: i64 = (c as u32 - '0' as u32) as i64;
        proof {
            let p = d.subrange(0, i + 1 - start);
            assert(p.drop_last() =~= d.subrange(0, i - start));
            assert(p.last() == c);
            assert forall|k: int| 0 <= k < p.len() implies is_digit(#[trigger] p[k]) by {
                if k < p.len() - 1 {
                    assert(p[k] == d.subrange(0, i - start)[k]);
                }
            }
        }
        acc = acc * 10 + dv;
        i = i + 1;
        if acc > 0x8000_0000 {
            proof {
                let p = d.subrange(0, i - start);
                if all_digits(d) {
                    assert(d.subrange(0, d.len() as int) =~= d);
                    lemma_digits_value_grows(d, i - start, d.len() as int);
                }
            }
            return None;
        }
    }
    proof {
        assert(d.subrange(0, i - start) =~= d);
    }
    if neg {
        Some((-acc) as i32)
    } else if acc <= 0x7fff_ffff {
        Some(acc as i32)
    } else {
        None
    }
}

/// Parses the window `lo..hi` of `v` as `str::parse::<usize>` would.
pub fn parse_usize_window(v: &Vec<char>, lo: usize, hi: usize) -> (r: Option<usize>)
    requires
        lo <= hi <= v@.len(),
    ensures
        r == parse_usize(v@.subrange(lo as int, hi as int)),
{
    let ghost s = v@.subrange(lo as int, hi as int);
    if lo == hi {
        return None;
    }
    let start: usize = if v[lo] == '+' { lo + 1 } else { lo };
    if start == hi {
        return None;
    }
    let ghost d = v@.subrange(start as int, hi as int);
    proof {
        if start > lo {
            assert(s.drop_first() =~= d);
        } else {
            assert(s =~= d);
        }
    }
    let mut acc: usize = 0;
    let mut i: usize = start;
    while i < hi
        invariant
            lo <= start <= i <= hi <= v@.len(),
            start < hi,
            s == v@.subrange(lo as int, hi as int),
            d == v@.subrange(start as int, hi as int),
            start > lo ==> s[0] == '+' && s.drop_first() == d,
            start == lo ==> s[0] != '+' && s == d,
            all_digits(d.subrange(0, i - start)),
            acc == digits_value(d.subrange(0, i - start)),
        decreases hi - i,
    {
        let c = v[i];
        proof {
            assert(d[i - start] == c);
        }
        if !('0' <= c && c <= '9') {
            proof {
                assert(!is_digit(d[i - start]));
                assert(!all_digits(d));
            }
            return None;
        }
        let dv: usize = (c as u32 - '0' as u32) as usize;
        proof {
            let p = d.subrange(0, i + 1 - start);
            assert(p.drop_last() =~= d.subrange(0, i - start));
            assert(p.last() == c);
            assert forall|k: int| 0 <= k < p.len() implies is_digit(#[trigger] p[k]) by {
                if k < p.len() - 1 {
                    assert(p[k] == d.subrange(0, i - start)[k]);
                }
            }
        }
        if acc > (usize::MAX - dv) / 10 {
            proof {
                assert(acc * 10 + dv > usize::MAX) by (nonlinear_arith)
                    requires
                        acc > (usize::MAX - dv) / 10,
                        0 <= dv <= 9,
                ;
                if all_digits(d) {
                    lemma_digits_value_grows(d, i + 1 - start, d.len() as int);
                    assert(d.subrange(0, d.len() as int) =~= d);
                }
            }
            return None;
        }
        proof {
            assert(acc * 10 + dv <= usize::MAX) by (nonlinear_arith)
                requires
                    acc <= (usize::MAX - dv) / 10,
                    0 <= dv <= 9,
            ;
        }
        acc = acc * 10 + dv;
        i = i + 1;
    }
    proof {
        assert(d.subrange(0, i - start) =~= d);
    }
    Some(acc)
}

fn digit_to_char(d: u64) -> (c: char)
    requires
        d < 10,
    ensures
        c == digit_char(d as nat),
        is_digit(c),
{
    match d {
        0 => '0',
        1 => '1',
        2 => '2',
        3 => '3',
        4 => '4',
        5 => '5',
        6 => '6',
        7 => '7',
        8 => '8',
        _ => '9',
    }
}

fn push_nat(out: &mut Vec<char>, n: u64)
    ensures
        final(out)@ == old(out)@ + nat_digits(n as nat),
    decreases n,
{
    if n >= 10 {
        push_nat(out, n / 10);
    }
    let c = digit_to_char(n % 10);
    out.push(c);
    proof {
        if n >= 10 {
            assert(nat_digits(n as nat) == nat_digits((n / 10) as nat).push(digit_char((n % 10) as nat)));
        }
    }
    assert(final(out)@ =~= old(out)@ + nat_digits(n as nat));
}

/// Appends the decimal rendering of `i` to `out`.
pub fn push_int(out: &mut Vec<char>, i: i32)
    ensures
        final(out)@ == old(out)@ + int_chars(i as int),
{
    if i < 0 {
        out.push('-');
        let n: u64 = (-(i as i64)) as u64;
        push_nat(out, n);
        assert(final(out)@ =~= old(out)@ + int_chars(i as int));
    } else {
        push_nat(out, i as u64);
    }
}


/// Appends the decimal rendering of `n` to `out`.
pub fn push_usize(out: &mut Vec<char>, n: usize)
    ensures
        final(out)@ == old(out)@ + nat_digits(n as nat),
{
    push_nat(out, n as u64);
}

/// Appends the characters of `s` to `out`.
pub fn push_str(out: &mut Vec<char>, s: &str)
    ensures
        final(out)@ == old(out)@ + s@,
{
    let n: usize = s.unicode_len();
    let mut i: usize = 0;
    while i < n
        invariant
            n == s@.len(),
            0 <= i <= n,
            out@ == old(out)@ + s@.subrange(0, i as int),
        decreases n - i,
    {
        let c = s.get_char(i);
        out.push(c);
        assert(s@.subrange(0, i + 1) =~= s@.subrange(0, i as int).push(c));
        i = i + 1;
    }
    assert(s@.subrange(0, n as int) =~= s@);
}

/// The characters of `s`.
pub fn str_chars(s: &str) -> (r: Vec<char>)
    ensures
        r@ == s@,
{
    let mut r: Vec<char> = Vec::new();
    push_str(&mut r, s);
    assert(r@ =~= s@);
    r
}

/// `String::push`: appends one character.
#[verifier::external_body]
fn string_push(s: &mut String, c: char)
    ensures
        final(s)@ == old(s)@.push(c),
{
    s.push(c);
}

/// A `String` holding exactly the characters of `v`.
pub fn chars_to_string(v: &Vec<char>) -> (r: String)
    ensures
        r@ == v@,
{
    let mut r = String::new();
    let mut i: usize = 0;
    while i < v.len()
        invariant
            0 <= i <= v@.len(),
            r@ == v@.subrange(0, i as int),
        decreases v@.len() - i,
    {
        string_push(&mut r, v[i]);
        assert(v@.subrange(0, i + 1) =~= v@.subrange(0, i as int).push(v@[i as int]));
        i = i + 1;
    }
    assert(v@.subrange(0, v@.len() as int) =~= v@);
    r
}

/// Whether the window `lo..hi` of `v` spells `lit`.
pub fn window_is(v: &Vec<char>, lo: usize, hi: usize, lit: &str) -> (r: bool)
    requires
        lo <= hi <= v@.len(),
    ensures
        r == (v@.subrange(lo as int, hi as int) == lit@),
{
    let l = str_chars(lit);
    if hi - lo != l.len() {
        proof {
            assert(v@.subrange(lo as int, hi as int).len() != lit@.len());
        }
        return false;
    }
    let mut k: usize = 0;
    while k < l.len()
        invariant
            lo <= hi <= v@.len(),
            hi - lo == l@.len(),
            l@ == lit@,
            0 <= k <= l@.len(),
            forall|m: int| 0 <= m < k ==> v@[lo + m] == l@[m],
        decreases l@.len() - k,
    {
        if v[lo + k] != l[k] {
            proof {
                assert(v@.subrange(lo as int, hi as int)[k as int] != lit@[k as int]);
            }
            return false;
        }
        k = k + 1;
    }
    assert(v@.subrange(lo as int, hi as int) =~= lit@);
    true
}


/// The first position at or after `i` holding `a` or `b`.
pub open spec fn first_any_from(s: Seq<char>, a: char, b: char, i: int) -> Option<int>
    decreases s.len() + 1 - i,
{
    if i < 0 || i >= s.len() {
        None
    } else if s[i] == a || s[i] == b {
        Some(i)
    } else {
        first_any_from(s, a, b, i + 1)
    }
}

/// The `n`-th piece of `s` split at every `a` and every `b`, as
/// `str::split(&[a, b]).nth(n)` gives it.
pub open spec fn split_field_any(s: Seq<char>, a: char, b: char, n: nat) -> Option<Seq<char>>
    decreases n,
{
    match first_any_from(s, a, b, 0) {
        None => if n == 0 {
            Some(s)
        } else {
            None
        },
        Some(k) => if n == 0 {
            Some(s.subrange(0, k))
        } else if 0 <= k < s.len() {
            split_field_any(s.subrange(k + 1, s.len() as int), a, b, (n - 1) as nat)
        } else {
            None
        },
    }
}

pub proof fn lemma_first_any_from_bounds(s: Seq<char>, a: char, b: char, i: int)
    ensures
        first_any_from(s, a, b, i) matches Some(k) ==> i <= k < s.len() && (s[k] == a || s[k] == b),
    decreases s.len() + 1 - i,
{
    if !(i < 0 || i >= s.len()) && !(s[i] == a || s[i] == b) {
        lemma_first_any_from_bounds(s, a, b, i + 1);
    }
}

/// The window of the `n`-th piece of `v[lo..hi]` split at `a` and `b`.
pub fn split_window_any(v: &Vec<char>, lo: usize, hi: usize, a: char, b: char, n: usize) -> (r: Option<(usize, usize)>)
    requires
        lo <= hi <= v@.len(),
    ensures
        match r {
            Some((x, y)) => lo <= x <= y <= hi && split_field_any(v@.subrange(lo as int, hi as int), a, b, n as nat)
                == Some(v@.subrange(x as int, y as int)),
            None => split_field_any(v@.subrange(lo as int, hi as int), a, b, n as nat) is None,
        },
    decreases n,
{
    let ghost w = v@.subrange(lo as int, hi as int);
    let mut i: usize = lo;
    while i < hi
        invariant
            lo <= i <= hi <= v@.len(),
            w == v@.subrange(lo as int, hi as int),
            first_any_from(w, a, b, 0) == first_any_from(w, a, b, i - lo),
        ensures
            lo <= i <= hi,
            first_any_from(w, a, b, 0) == first_any_from(w, a, b, i - lo),
            i < hi ==> (v@[i as int] == a || v@[i as int] == b),
        decreases hi - i,
    {
        if v[i] == a || v[i] == b {
            break;
        }
        i = i + 1;
    }
    proof {
        lemma_first_any_from_bounds(w, a, b, 0);
    }
    if i == hi {
        proof {
            assert(first_any_from(w, a, b, i - lo) == None::<int>);
        }
        if n == 0 {
            Some((lo, hi))
        } else {
            None
        }
    } else {
        proof {
            assert(w[i - lo] == v@[i as int]);
            assert(first_any_from(w, a, b, i - lo) == Some(i - lo));
        }
        if n == 0 {
            proof {
                assert(w.subrange(0, i - lo) =~= v@.subrange(lo as int, i as int));
            }
            Some((lo, i))
        } else {
            proof {
                assert(w.subrange(i - lo + 1, w.len() as int) =~= v@.subrange(i + 1, hi as int));
            }
            split_window_any(v, i + 1, hi, a, b, n - 1)
        }
    }
}


pub open spec fn lacks(s: Seq<char>, c: char) -> bool {
    forall|k: int| 0 <= k < s.len() ==> s[k] != c
}

proof fn lemma_first_match_at(s: Seq<char>, pat: Seq<char>, i: int, k: int)
    requires
        0 <= i <= k,
        pat.len() > 0,
        k + pat.len() <= s.len(),
        s.subrange(k, k + pat.len()) == pat,
        forall|j: int| i <= j < k ==> s[j] != pat[0],
    ensures
        first_match_from(s, pat, i) == Some(k),
    decreases k - i,
{
    if i < k {
        assert(s.subrange(i, i + pat.len())[0] == s[i]);
        lemma_first_match_at(s, pat, i + 1, k);
    }
}

proof fn lemma_first_match_none(s: Seq<char>, pat: Seq<char>, i: int)
    requires
        0 <= i,
        pat.len() > 0,
        forall|j: int| i <= j < s.len() ==> s[j] != pat[0],
    ensures
        first_match_from(s, pat, i) == None::<int>,
    decreases s.len() + 1 - i,
{
    if i + pat.len() <= s.len() {
        assert(s.subrange(i, i + pat.len())[0] == s[i]);
        lemma_first_match_none(s, pat, i + 1);
    }
}

/// Splitting `a + pat + b` at `pat`, where `a` holds no `pat[0]`, cuts right after `a`.
pub proof fn lemma_split_after(a: Seq<char>, pat: Seq<char>, b: Seq<char>)
    requires
        pat.len() > 0,
        lacks(a, pat[0]),
    ensures
        split_field(a + pat + b, pat, 0) == Some(a),
        split_field(a + pat + b, pat, 1) == split_field(b, pat, 0),
        split_field(a + pat + b, pat, 2) == split_field(b, pat, 1),
        split_field(a + pat + b, pat, 3) == split_field(b, pat, 2),
{
    let s = a + pat + b;
    assert(s.subrange(a.len() as int, (a.len() + pat.len()) as int) =~= pat);
    assert forall|j: int| 0 <= j < a.len() implies s[j] != pat[0] by {
        assert(s[j] == a[j]);
    }
    lemma_first_match_at(s, pat, 0, a.len() as int);
    assert(s.subrange(0, a.len() as int) =~= a);
    assert(s.subrange((a.len() + pat.len()) as int, s.len() as int) =~= b);
}

/// A sequence holding no `pat[0]` is a single piece.
pub proof fn lemma_first_match_at_pub(s: Seq<char>, pat: Seq<char>, i: int, k: int)
    requires
        0 <= i <= k,
        pat.len() > 0,
        k + pat.len() <= s.len(),
        s.subrange(k, k + pat.len()) == pat,
        forall|j: int| i <= j < k ==> s[j] != pat[0],
    ensures
        first_match_from(s, pat, i) == Some(k),
{
    lemma_first_match_at(s, pat, i, k);
}

pub proof fn lemma_split_whole(a: Seq<char>, pat: Seq<char>)
    requires
        pat.len() > 0,
        lacks(a, pat[0]),
    ensures
        split_field(a, pat, 0) == Some(a),
        split_field(a, pat, 1) == None::<Seq<char>>,
{
    lemma_first_match_none(a, pat, 0);
}

proof fn lemma_first_any_at(s: Seq<char>, x: char, y: char, i: int, k: int)
    requires
        0 <= i <= k < s.len(),
        s[k] == x || s[k] == y,
        forall|j: int| i <= j < k ==> s[j] != x && s[j] != y,
    ensures
        first_any_from(s, x, y, i) == Some(k),
    decreases k - i,
{
    if i < k {
        lemma_first_any_at(s, x, y, i + 1, k);
    }
}

/// Splitting `a + [c] + b` at `x` or `y`, where `c` is one of them and `a`
/// holds neither, cuts right after `a`.
pub proof fn lemma_split_any_after(a: Seq<char>, c: char, b: Seq<char>, x: char, y: char)
    requires
        c == x || c == y,
        lacks(a, x),
        lacks(a, y),
    ensures
        split_field_any(a + seq![c] + b, x, y, 0) == Some(a),
        split_field_any(a + seq![c] + b, x, y, 1) == split_field_any(b, x, y, 0),
        split_field_any(a + seq![c] + b, x, y, 2) == split_field_any(b, x, y, 1),
        split_field_any(a + seq![c] + b, x, y, 3) == split_field_any(b, x, y, 2),
{
    let s = a + seq![c] + b;
    assert forall|j: int| 0 <= j < a.len() implies s[j] != x && s[j] != y by {
        assert(s[j] == a[j]);
    }
    lemma_first_any_at(s, x, y, 0, a.len() as int);
    assert(s.subrange(0, a.len() as int) =~= a);
    assert(s.subrange((a.len() + 1) as int, s.len() as int) =~= b);
}

/// The characters of a decimal rendering: digits and a minus sign.
pub proof fn lemma_int_chars_lacks(i: i32, c: char)
    requires
        c != '-',
        !is_digit(c),
    ensures
        lacks(int_chars(i as int), c),
        int_chars(i as int).len() > 0,
{
    lemma_parse_int_chars(i);
    if i < 0 {
        lemma_nat_digits((-i) as nat);
    } else {
        lemma_nat_digits(i as nat);
    }
}

/// Whether two texts are the same.
pub fn str_equal(a: &str, b: &str) -> (r: bool)
    ensures
        r == (a@ == b@),
{
    let n = a.unicode_len();
    if n != b.unicode_len() {
        return false;
    }
    let mut i: usize = 0;
    while i < n
        invariant
            n == a@.len(),
            n == b@.len(),
            0 <= i <= n,
            forall|j: int| 0 <= j < i ==> a@[j] == b@[j],
        decreases n - i,
    {
        if a.get_char(i) != b.get_char(i) {
            return false;
        }
        i = i + 1;
    }
    assert(a@ =~= b@);
    true
}

} // verus!
