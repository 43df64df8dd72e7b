//! Splitting chart lines into fields and reading the decimal numbers in them.
use vstd::prelude::*;

verus! {

pub open spec fn is_digit(c: u8) -> bool {
    48 <= c <= 57
}

/// Value of a run of decimal digits.
pub open spec fn digits_value(s: Seq<u8>) -> int
    decreases s.len(),
{
    if s.len() == 0 {
        0
    } else {
        digits_value(s.drop_last()) * 10 + (s.last() - 48)
    }
}

pub open spec fn all_digits(s: Seq<u8>) -> bool {
    forall|i: int| 0 <= i < s.len() ==> is_digit(#[trigger] s[i])
}

/// An integer written as an optional sign and at least one digit.
pub open spec fn int_of(s: Seq<u8>) -> Option<int> {
    if s.len() > 0 && (s[0] == 45u8 || s[0] == 43u8) {
        let rest = s.subrange(1, s.len() as int);
        if rest.len() > 0 && all_digits(rest) {
            Some(if s[0] == 45u8 { -digits_value(rest) } else { digits_value(rest) })
        } else {
            None
        }
    } else if s.len() > 0 && all_digits(s) {
        Some(digits_value(s))
    } else {
        None
    }
}

/// Most digits read in one number; longer numbers are refused.
pub const MAX_DIGITS: usize = 18;

proof fn lemma_digits_bound(s: Seq<u8>)
    requires
        all_digits(s),
    ensures
        0 <= digits_value(s) < pow10(s.len()),
    decreases s.len(),
{
    if s.len() > 0 {
        assert(all_digits(s.drop_last()));
        lemma_digits_bound(s.drop_last());
        assert(is_digit(s[s.len() - 1]));
    }
}

pub open spec fn pow10(n: nat) -> int
    decreases n,
{
    if n == 0 { 1 } else { 10 * pow10((n - 1) as nat) }
}

proof fn lemma_pow10_pos(n: nat)
    ensures
        pow10(n) >= 1,
    decreases n,
{
    if n > 0 {
        lemma_pow10_pos((n - 1) as nat);
    }
}

proof fn lemma_pow10_mono(a: nat, b: nat)
    requires
        a <= b,
    ensures
        pow10(a) <= pow10(b),
    decreases b,
{
    if a < b {
        lemma_pow10_mono(a, (b - 1) as nat);
        lemma_pow10_pos((b - 1) as nat);
    }
}

/// Reads the digits `s[lo..hi]` (at most 18 of them).
fn read_digits(s: &[u8], lo: usize, hi: usize) -> (r: Option<i64>)
    requires
        lo <= hi <= s@.len(),
    ensures
        hi - lo <= MAX_DIGITS && all_digits(s@.subrange(lo as int, hi as int)) ==> r.is_some()
            && r.unwrap() as int == digits_value(s@.subrange(lo as int, hi as int)),
        !(hi - lo <= MAX_DIGITS && all_digits(s@.subrange(lo as int, hi as int))) ==> r.is_none(),
        r.is_some() ==> 0 <= r.unwrap() < 1_000_000_000_000_000_000,
{
    if hi - lo > MAX_DIGITS {
        return None;
    }
    let mut v: i64 = 0;
    let mut i: usize = lo;
    while i < hi
        invariant
            lo <= i <= hi,
            hi <= s@.len(),
            hi - lo <= MAX_DIGITS,
            all_digits(s@.subrange(lo as int, i as int)),
            v == digits_value(s@.subrange(lo as int, i as int)),
            0 <= v < pow10((i - lo) as nat),
        decreases hi - i,
    {
        let c = s[i];
        if c < 48u8 || c > 57u8 {
            proof {
                assert(!is_digit(s@.subrange(lo as int, hi as int)[i - lo]));
            }
            return None;
        }
        proof {
            assert(s@.subrange(lo as int, i + 1).drop_last() =~= s@.subrange(lo as int, i as int));
            lemma_pow10_mono((i - lo) as nat, 17);
            reveal_with_fuel(pow10, 18);
            assert(pow10(17) == 100_000_000_000_000_000);
        }
        v = v * 10 + (c - 48u8) as i64;
        i += 1;
        proof {
            assert forall|k: int| 0 <= k < i - lo implies is_digit(#[trigger] s@.subrange(lo as int, i as int)[k]) by {
                if k < i - 1 - lo {
                    assert(s@.subrange(lo as int, i as int)[k] == s@.subrange(lo as int, i - 1)[k]);
                }
            }
        }
    }
    proof {
        lemma_pow10_mono((hi - lo) as nat, 18);
        reveal_with_fuel(pow10, 19);
        assert(pow10(18) == 1_000_000_000_000_000_000);
    }
    Some(v)
}

/// Reads an integer: an optional sign and at most 18 digits.
pub fn parse_int(s: &[u8]) -> (r: Option<i64>)
    ensures
        r.is_some() ==> int_of(s@) == Some(r.unwrap() as int),
        int_of(s@).is_some() && s@.len() <= MAX_DIGITS ==> r.is_some(),
{
    let n = s.len();
    if n == 0 {
        return None;
    }
    if s[0] == 45u8 || s[0] == 43u8 {
        if n == 1 {
            return None;
        }
        let d = read_digits(s, 1, n);
        proof {
            assert(s@.subrange(1, s@.len() as int) =~= s@.subrange(1, n as int));
        }
        match d {
            Some(v) => {
                if s[0] == 45u8 { Some(-v) } else { Some(v) }
            },
            None => None,
        }
    } else {
        proof {
            assert(s@.subrange(0, n as int) =~= s@);
        }
        read_digits(s, 0, n)
    }
}

/// Position of the first `c` in `s`, or its length when there is none.
pub open spec fn index_of(s: Seq<u8>, c: u8) -> int
    decreases s.len(),
{
    if s.len() == 0 {
        0
    } else {
        let p = index_of(s.drop_last(), c);
        if p < s.len() - 1 {
            p
        } else if s.last() == c {
            s.len() - 1
        } else {
            s.len() as int
        }
    }
}

proof fn lemma_index_of(s: Seq<u8>, c: u8, k: int)
    requires
        0 <= k <= s.len(),
        forall|j: int| 0 <= j < k ==> s[j] != c,
        k < s.len() ==> s[k] == c,
    ensures
        index_of(s, c) == k,
    decreases s.len(),
{
    if s.len() > 0 {
        if k < s.len() {
            if k < s.len() - 1 {
                lemma_index_of(s.drop_last(), c, k);
            } else {
                lemma_index_of(s.drop_last(), c, s.len() - 1);
            }
        } else {
            lemma_index_of(s.drop_last(), c, s.len() - 1);
        }
    }
}

/// The first `c` of `s` stands at `k` (or `k` is the length) when no earlier
/// byte is `c`.
pub proof fn lemma_index_of_public(s: Seq<u8>, c: u8, k: int)
    requires
        0 <= k <= s.len(),
        forall|j: int| 0 <= j < k ==> s[j] != c,
        k < s.len() ==> s[k] == c,
    ensures
        index_of(s, c) == k,
{
    lemma_index_of(s, c, k);
}

/// A decimal number's value times 1000, rounded toward zero: an optional
/// sign, digits, and optionally a point followed by digits (at least one
/// digit in all).
pub open spec fn milli_of_decimal(s: Seq<u8>) -> Option<int> {
    let neg = s.len() > 0 && s[0] == 45u8;
    let signed = s.len() > 0 && (s[0] == 45u8 || s[0] == 43u8);
    let body = if signed { s.subrange(1, s.len() as int) } else { s };
    let k = index_of(body, 46u8);
    let dot = k < body.len();
    let whole = body.subrange(0, k);
    let frac = if dot { body.subrange(k + 1, body.len() as int) } else { seq![] };
    let frac3 = frac.subrange(0, if frac.len() < 3 { frac.len() as int } else { 3 });
    if (whole.len() + frac.len() > 0) && all_digits(whole) && all_digits(frac) {
        let v = digits_value(whole) * 1000 + digits_value(frac3) * pow10((3 - frac3.len()) as nat);
        Some(if neg { -v } else { v })
    } else {
        None
    }
}

/// Whether `s[lo..hi]` holds only digits.
fn digits_only(s: &[u8], lo: usize, hi: usize) -> (r: bool)
    requires
        lo <= hi <= s@.len(),
    ensures
        r == all_digits(s@.subrange(lo as int, hi as int)),
{
    let mut j: usize = lo;
    while j < hi
        invariant
            lo <= j <= hi,
            hi <= s@.len(),
            forall|m: int| lo <= m < j ==> is_digit(s@[m]),
        decreases hi - j,
    {
        if s[j] < 48u8 || s[j] > 57u8 {
            proof {
                assert(s@.subrange(lo as int, hi as int)[j - lo] == s@[j as int]);
            }
            return false;
        }
        j += 1;
    }
    proof {
        assert forall|m: int| 0 <= m < hi - lo implies is_digit(#[trigger] s@.subrange(lo as int, hi as int)[m]) by {
            assert(s@.subrange(lo as int, hi as int)[m] == s@[lo + m]);
        }
    }
    true
}

/// Reads a decimal number as thousandths, rounded toward zero. Succeeds on
/// every well-formed number with at most 18 whole digits whose value fits.
#[verifier::rlimit(100)]
pub fn parse_decimal_milli(s: &[u8]) -> (r: Option<i64>)
    ensures
        r.is_some() ==> milli_of_decimal(s@) == Some(r.unwrap() as int),
        milli_of_decimal(s@).is_some() && i64::MIN < milli_of_decimal(s@).unwrap() <= i64::MAX
            && index_of(s@, 46u8) <= 18 ==> r.is_some(),
        milli_of_decimal(s@).is_some() && index_of(s@, 46u8) <= 15 ==> r.is_some(),
{
    let n = s.len();
    let signed = n > 0 && (s[0] == 45u8 || s[0] == 43u8);
    let neg = n > 0 && s[0] == 45u8;
    let start: usize = if signed { 1 } else { 0 };
    let ghost body = if signed { s@.subrange(1, n as int) } else { s@ };
    let mut k: usize = start;
    while k < n && s[k] != 46u8
        invariant
            start <= k <= n,
            n == s@.len(),
            forall|j: int| start <= j < k ==> s@[j] != 46u8,
        decreases n - k,
    {
        k += 1;
    }
    let dot = k < n;
    let frac_end: usize = if dot { n } else { k };
    let frac_lo: usize = if dot { k + 1 } else { k };
    let f3_end: usize = if frac_end - frac_lo < 3 { frac_end } else { frac_lo + 3 };
    let ghost kk = (k - start) as int;
    let ghost wh = body.subrange(0, kk);
    let ghost fr = if dot { body.subrange(kk + 1, body.len() as int) } else { Seq::<u8>::empty() };
    let ghost fr3 = fr.subrange(0, if fr.len() < 3 { fr.len() as int } else { 3 });
    proof {
        assert(body.len() == n - start);
        assert forall|j: int| 0 <= j < kk implies body[j] != 46u8 by {
            assert(body[j] == s@[j + start]);
        }
        if dot {
            assert(body[kk] == s@[k as int]);
        }
        lemma_index_of(body, 46u8, kk);
        assert forall|j: int| 0 <= j < k implies s@[j] != 46u8 by {
            if j < start {
                assert(s@[0] == 45u8 || s@[0] == 43u8);
            }
        }
        lemma_index_of(s@, 46u8, k as int);
        assert(wh =~= s@.subrange(start as int, k as int));
        assert(fr =~= s@.subrange(frac_lo as int, frac_end as int));
        assert(fr3 =~= s@.subrange(frac_lo as int, f3_end as int));
    }
    if (k - start) + (frac_end - frac_lo) == 0 {
        return None;
    }
    let whole = match read_digits(s, start, k) {
        Some(v) => v,
        None => return None,
    };
    // every fraction digit must be a digit, though only three are kept
    if !digits_only(s, frac_lo, frac_end) {
        return None;
    }
    proof {
        assert(all_digits(fr3)) by {
            assert forall|m: int| 0 <= m < fr3.len() implies is_digit(#[trigger] fr3[m]) by {
                assert(fr3[m] == fr[m]);
            }
        }
    }
    let f3 = match read_digits(s, frac_lo, f3_end) {
        Some(v) => v,
        None => return None,
    };
    let scale: i64 = if f3_end - frac_lo == 0 { 1000 } else if f3_end - frac_lo == 1 { 100 } else if f3_end - frac_lo == 2 { 10 } else { 1 };
    proof {
        reveal_with_fuel(pow10, 4);
        assert(pow10((3 - fr3.len()) as nat) == scale);
    }
    assert(0 <= whole < 1_000_000_000_000_000_000);
    assert(0 <= f3 < 1_000_000_000_000_000_000);
    assert(0 <= (f3 as int) * (scale as int) <= 1_000_000_000_000_000_000_000) by (nonlinear_arith)
        requires
            0 <= f3 < 1_000_000_000_000_000_000,
            1 <= scale <= 1000,
    ;
    let v: i128 = whole as i128 * 1000 + f3 as i128 * scale as i128;
    proof {
        assert(v == digits_value(wh) * 1000 + digits_value(fr3) * pow10((3 - fr3.len()) as nat));
    }
    if v > i64::MAX as i128 {
        proof {
            if k <= 15 {
                assert(all_digits(wh));
                lemma_digits_bound(wh);
                lemma_pow10_mono(wh.len(), 15);
                reveal_with_fuel(pow10, 16);
                assert(pow10(15) == 1_000_000_000_000_000);
                assert(digits_value(fr3) < 1000) by {
                    lemma_digits_bound(fr3);
                    lemma_pow10_mono(fr3.len(), 3);
                }
                assert(digits_value(fr3) * pow10((3 - fr3.len()) as nat) <= 999 * 1000) by (nonlinear_arith)
                    requires
                        0 <= digits_value(fr3) < 1000,
                        1 <= pow10((3 - fr3.len()) as nat) <= 1000,
                ;
            }
        }
        return None;
    }
    let v64 = v as i64;
    if neg { Some(-v64) } else { Some(v64) }
}

/// Space, tab, carriage return or line feed.
pub open spec fn is_ws(c: u8) -> bool {
    c == 32u8 || c == 9u8 || c == 13u8 || c == 10u8
}

/// Number of leading whitespace bytes.
pub open spec fn lead_ws(s: Seq<u8>) -> int
    decreases s.len(),
{
    if s.len() == 0 {
        0
    } else if is_ws(s[0]) {
        1 + lead_ws(s.subrange(1, s.len() as int))
    } else {
        0
    }
}

/// Number of trailing whitespace bytes.
pub open spec fn trail_ws(s: Seq<u8>) -> int
    decreases s.len(),
{
    if s.len() == 0 {
        0
    } else if is_ws(s.last()) {
        1 + trail_ws(s.drop_last())
    } else {
        0
    }
}

/// `s` without leading and trailing whitespace.
pub open spec fn trim_ws(s: Seq<u8>) -> Seq<u8> {
    let a = s.subrange(lead_ws(s), s.len() as int);
    a.subrange(0, a.len() - trail_ws(a))
}

proof fn lemma_lead_ws(s: Seq<u8>, k: int)
    requires
        0 <= k <= s.len(),
        forall|j: int| 0 <= j < k ==> is_ws(s[j]),
        k < s.len() ==> !is_ws(s[k]),
    ensures
        lead_ws(s) == k,
    decreases s.len(),
{
    if s.len() > 0 && k > 0 {
        let t = s.subrange(1, s.len() as int);
        assert forall|j: int| 0 <= j < k - 1 implies is_ws(t[j]) by {
            assert(t[j] == s[j + 1]);
        }
        if k < s.len() {
            assert(t[k - 1] == s[k]);
        }
        lemma_lead_ws(t, k - 1);
    }
}

proof fn lemma_trail_ws(s: Seq<u8>, k: int)
    requires
        0 <= k <= s.len(),
        forall|j: int| s.len() - k <= j < s.len() ==> is_ws(s[j]),
        k < s.len() ==> !is_ws(s[s.len() - k - 1]),
    ensures
        trail_ws(s) == k,
    decreases s.len(),
{
    if s.len() > 0 && k > 0 {
        lemma_trail_ws(s.drop_last(), k - 1);
    }
}

/// Bounds `[lo, hi)` of `s[from..to]` without surrounding whitespace.
pub fn trim_bounds(s: &[u8], from: usize, to: usize) -> (r: (usize, usize))
    requires
        from <= to <= s@.len(),
    ensures
        from <= r.0 <= r.1 <= to,
        s@.subrange(r.0 as int, r.1 as int) == trim_ws(s@.subrange(from as int, to as int)),
{
    let ghost t = s@.subrange(from as int, to as int);
    let mut lo: usize = from;
    while lo < to && (s[lo] == 32u8 || s[lo] == 9u8 || s[lo] == 13u8 || s[lo] == 10u8)
        invariant
            from <= lo <= to,
            to <= s@.len(),
            forall|j: int| from <= j < lo ==> is_ws(s@[j]),
        decreases to - lo,
    {
        lo += 1;
    }
    let mut hi: usize = to;
    while hi > lo && (s[hi - 1] == 32u8 || s[hi - 1] == 9u8 || s[hi - 1] == 13u8 || s[hi - 1] == 10u8)
        invariant
            lo <= hi <= to,
            to <= s@.len(),
            forall|j: int| hi <= j < to ==> is_ws(s@[j]),
        decreases hi - lo,
    {
        hi -= 1;
    }
    proof {
        let k = (lo - from) as int;
        assert forall|j: int| 0 <= j < k implies is_ws(t[j]) by {
            assert(t[j] == s@[from + j]);
        }
        if k < t.len() {
            assert(t[k] == s@[lo as int]);
        }
        lemma_lead_ws(t, k);
        let a = t.subrange(k, t.len() as int);
        assert(a =~= s@.subrange(lo as int, to as int));
        let m = (to - hi) as int;
        assert forall|j: int| a.len() - m <= j < a.len() implies is_ws(a[j]) by {
            assert(a[j] == s@[lo + j]);
        }
        if m < a.len() {
            assert(a[a.len() - m - 1] == s@[hi - 1]);
        }
        lemma_trail_ws(a, m);
        assert(a.subrange(0, a.len() - m) =~= s@.subrange(lo as int, hi as int));
    }
    (lo, hi)
}

/// `s` cut at each `sep`: the pieces between separators, in order.
pub open spec fn split_on(s: Seq<u8>, sep: u8) -> Seq<Seq<u8>>
    decreases s.len(),
{
    if s.len() == 0 {
        seq![seq![]]
    } else {
        let p = split_on(s.drop_last(), sep);
        if s.last() == sep {
            p.push(seq![])
        } else {
            p.update(p.len() - 1, p.last().push(s.last()))
        }
    }
}

proof fn lemma_split_nonempty(s: Seq<u8>, sep: u8)
    ensures
        split_on(s, sep).len() >= 1,
    decreases s.len(),
{
    if s.len() > 0 {
        lemma_split_nonempty(s.drop_last(), sep);
    }
}

/// Cuts a line at each separator byte.
pub fn split_fields(s: &[u8], sep: u8) -> (r: Vec<Vec<u8>>)
    ensures
        r@.len() == split_on(s@, sep).len(),
        forall|i: int| 0 <= i < r@.len() ==> (#[trigger] r@[i])@ == split_on(s@, sep)[i],
{
    let mut fields: Vec<Vec<u8>> = Vec::new();
    let mut cur: Vec<u8> = Vec::new();
    let mut i: usize = 0;
    proof {
        assert(s@.subrange(0, 0) =~= Seq::<u8>::empty());
    }
    while i < s.len()
        invariant
            i <= s@.len(),
            fields@.len() + 1 == split_on(s@.subrange(0, i as int), sep).len(),
            forall|j: int| 0 <= j < fields@.len() ==> (#[trigger] fields@[j])@ == split_on(s@.subrange(0, i as int), sep)[j],
            cur@ == split_on(s@.subrange(0, i as int), sep).last(),
        decreases s@.len() - i,
    {
        let c = s[i];
        proof {
            assert(s@.subrange(0, i + 1).drop_last() =~= s@.subrange(0, i as int));
            lemma_split_nonempty(s@.subrange(0, i as int), sep);
        }
        if c == sep {
            let done = cur;
            fields.push(done);
            cur = Vec::new();
        } else {
            cur.push(c);
        }
        i += 1;
    }
    fields.push(cur);
    proof {
        assert(s@.subrange(0, i as int) =~= s@);
    }
    fields
}

} // verus!
