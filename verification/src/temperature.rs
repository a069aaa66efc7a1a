//! Exact decimal model of a Celsius temperature.
//!
//! The upstream service reports each temperature as a decimal number, and
//! the report interpolates it exactly as Rust's default formatting wrote
//! it. This module therefore keeps the number's text verbatim — a sign and
//! the digit runs of its whole and fractional parts, of any length — and
//! decides the warning threshold by exact decimal arithmetic on the digit
//! runs. The one bound is a machine limit on the digit count, orders of
//! magnitude beyond the roughly eleven hundred characters a formatted
//! `f64` can reach.

use vstd::arithmetic::mul::lemma_mul_is_associative;
use vstd::arithmetic::mul::lemma_mul_inequality;
use vstd::prelude::*;
use vstd::string::StrSliceExecFns;
use vstd::string::StringExecFns;

verus! {

/// Machine limit on the digits of one number; sums of a few such lengths
/// stay well within a 32-bit `usize`.
pub const MAX_NUMBER_LEN: usize = 268435455;

/// A temperature, kept as the decimal text the service reported: a sign,
/// the whole part's digits, and the fractional part's digits (empty when
/// the text has no point). Digits are stored as values 0 to 9.
pub struct Temperature {
    pub negative: bool,
    pub whole: Vec<u8>,
    pub frac: Vec<u8>,
}

pub open spec fn digit_seq(s: Seq<u8>) -> bool {
    forall|i: int| 0 <= i < s.len() ==> #[trigger] s[i] < 10
}

impl Temperature {
    /// At least one whole digit, every entry a digit, and the total digit
    /// count within the machine limit.
    pub open spec fn wf(self) -> bool {
        self.whole@.len() >= 1 && digit_seq(self.whole@) && digit_seq(self.frac@)
            && self.whole@.len() + self.frac@.len() <= MAX_NUMBER_LEN as int
    }
}

pub open spec fn abs_int(m: int) -> int {
    if m < 0 {
        -m
    } else {
        m
    }
}

pub open spec fn max_int(a: int, b: int) -> int {
    if a >= b {
        a
    } else {
        b
    }
}

pub open spec fn is_digit(c: char) -> bool {
    48 <= c as int <= 57
}

pub open spec fn all_digits(s: Seq<char>) -> bool {
    forall|i: int| 0 <= i < s.len() ==> is_digit(#[trigger] s[i])
}

pub open spec fn digit_char(d: int) -> char {
    if d == 0 {
        '0'
    } else if d == 1 {
        '1'
    } else if d == 2 {
        '2'
    } else if d == 3 {
        '3'
    } else if d == 4 {
        '4'
    } else if d == 5 {
        '5'
    } else if d == 6 {
        '6'
    } else if d == 7 {
        '7'
    } else if d == 8 {
        '8'
    } else {
        '9'
    }
}

/// The characters of a digit run.
pub open spec fn chars_of(ds: Seq<u8>) -> Seq<char> {
    ds.map_values(|d: u8| digit_char(d as int))
}

/// The text of a temperature: its sign, its whole digits, and — when the
/// fractional run is not empty — a point and the fractional digits. For a
/// parsed temperature this is the input text, unchanged.
pub open spec fn temp_text(t: Temperature) -> Seq<char> {
    let sign: Seq<char> = if t.negative {
        seq!['-']
    } else {
        Seq::<char>::empty()
    };
    let frac_part: Seq<char> = if t.frac@.len() > 0 {
        seq!['.'] + chars_of(t.frac@)
    } else {
        Seq::<char>::empty()
    };
    sign + chars_of(t.whole@) + frac_part
}

/// The shape a numeric text must have: an optional minus sign, at least
/// one whole digit, and optionally a point followed by at least one more
/// digit — exactly the texts Rust's default float formatting writes.
pub open spec fn is_decimal_text(s: Seq<char>) -> bool {
    let b = if s.len() >= 1 && s[0] == '-' {
        s.subrange(1, s.len() as int)
    } else {
        s
    };
    match b.index_of_first('.') {
        None => b.len() >= 1 && all_digits(b),
        Some(i) => {
            let ip = b.subrange(0, i);
            let fp = b.subrange(i + 1, b.len() as int);
            ip.len() >= 1 && all_digits(ip) && fp.len() >= 1 && all_digits(fp)
        },
    }
}

/// Value of a run of digits, most significant first.
pub open spec fn digits_int(s: Seq<u8>) -> int
    decreases s.len(),
{
    if s.len() == 0 {
        0
    } else {
        digits_int(s.drop_last()) * 10 + s.last()
    }
}

pub open spec fn pow10(n: nat) -> int
    decreases n,
{
    if n == 0 {
        1
    } else {
        10 * pow10((n - 1) as nat)
    }
}

/// The magnitude of a temperature scaled to `f` fractional digits, as an
/// integer: its digits followed by `f - frac.len()` zeros.
pub open spec fn scaled_mag(t: Temperature, f: int) -> int {
    digits_int(t.whole@ + t.frac@) * pow10((f - t.frac@.len()) as nat)
}

pub open spec fn signed_scaled(t: Temperature, f: int) -> int {
    if t.negative {
        -scaled_mag(t, f)
    } else {
        scaled_mag(t, f)
    }
}

/// The warning threshold, decided exactly: at the common scale of the two
/// fractional parts, the magnitudes differ by at least five degrees.
pub open spec fn spec_warning_pair(a: Temperature, b: Temperature) -> bool {
    let f = max_int(a.frac@.len() as int, b.frac@.len() as int);
    abs_int(signed_scaled(a, f) - signed_scaled(b, f)) >= 5 * pow10(f as nat)
}

proof fn lemma_pow10_pos(n: nat)
    ensures
        pow10(n) >= 1,
    decreases n,
{
    if n > 0 {
        lemma_pow10_pos((n - 1) as nat);
    }
}

proof fn lemma_digits_single(d: u8)
    ensures
        digits_int(seq![d]) == d,
{
    reveal_with_fuel(digits_int, 2);
    assert(seq![d].drop_last() =~= Seq::<u8>::empty());
    assert(seq![d].last() == d);
}

proof fn lemma_digits_int_bounds(s: Seq<u8>)
    requires
        digit_seq(s),
    ensures
        0 <= digits_int(s) < pow10(s.len()),
    decreases s.len(),
{
    if s.len() > 0 {
        assert forall|j: int| 0 <= j < s.drop_last().len() implies #[trigger] s.drop_last()[j]
            < 10 by {
            assert(s.drop_last()[j] == s[j]);
        }
        lemma_digits_int_bounds(s.drop_last());
        assert(s.last() == s[s.len() - 1]);
    }
}

proof fn lemma_digits_split(s: Seq<u8>, i: int)
    requires
        0 <= i <= s.len(),
    ensures
        digits_int(s) == digits_int(s.subrange(0, i)) * pow10((s.len() - i) as nat) + digits_int(
            s.subrange(i, s.len() as int),
        ),
    decreases s.len(),
{
    if i == s.len() {
        assert(s.subrange(0, i) =~= s);
        assert(s.subrange(i, s.len() as int) =~= Seq::<u8>::empty());
    } else {
        let t = s.drop_last();
        lemma_digits_split(t, i);
        assert(t.subrange(0, i) =~= s.subrange(0, i));
        let suf = s.subrange(i, s.len() as int);
        assert(suf.drop_last() =~= t.subrange(i, t.len() as int));
        assert(suf.last() == s.last());
        let a = digits_int(s.subrange(0, i));
        let k = s.len() - i;
        lemma_mul_is_associative(a, pow10((k - 1) as nat), 10);
    }
}

proof fn lemma_zeros_value(s: Seq<u8>)
    requires
        forall|j: int| 0 <= j < s.len() ==> #[trigger] s[j] == 0,
    ensures
        digits_int(s) == 0,
    decreases s.len(),
{
    if s.len() > 0 {
        assert forall|j: int| 0 <= j < s.drop_last().len() implies #[trigger] s.drop_last()[j]
            == 0 by {
            assert(s.drop_last()[j] == s[j]);
        }
        lemma_zeros_value(s.drop_last());
        assert(s.last() == s[s.len() - 1]);
    }
}

proof fn lemma_leading_zeros(s: Seq<u8>, k: int)
    requires
        0 <= k <= s.len(),
        forall|j: int| 0 <= j < k ==> #[trigger] s[j] == 0,
    ensures
        digits_int(s) == digits_int(s.subrange(k, s.len() as int)),
{
    lemma_digits_split(s, k);
    assert forall|j: int| 0 <= j < s.subrange(0, k).len() implies #[trigger] s.subrange(0, k)[j]
        == 0 by {
        assert(s.subrange(0, k)[j] == s[j]);
    }
    lemma_zeros_value(s.subrange(0, k));
}

proof fn lemma_trailing_zeros(s: Seq<u8>, k: int)
    requires
        0 <= k <= s.len(),
        forall|j: int| s.len() - k <= j < s.len() ==> #[trigger] s[j] == 0,
    ensures
        digits_int(s) == digits_int(s.subrange(0, s.len() - k)) * pow10(k as nat),
{
    lemma_digits_split(s, s.len() - k);
    let suf = s.subrange(s.len() - k, s.len() as int);
    assert forall|j: int| 0 <= j < suf.len() implies #[trigger] suf[j] == 0 by {
        assert(suf[j] == s[s.len() - k + j]);
    }
    lemma_zeros_value(suf);
}

proof fn lemma_lex_lt(a: Seq<u8>, b: Seq<u8>, i: int)
    requires
        a.len() == b.len(),
        digit_seq(a),
        digit_seq(b),
        0 <= i < a.len(),
        forall|j: int| 0 <= j < i ==> a[j] == b[j],
        a[i] < b[i],
    ensures
        digits_int(a) < digits_int(b),
{
    lemma_digits_split(a, i);
    lemma_digits_split(b, i);
    assert(a.subrange(0, i) =~= b.subrange(0, i));
    let sa = a.subrange(i, a.len() as int);
    let sb = b.subrange(i, b.len() as int);
    let k = a.len() - i;
    lemma_digits_split(sa, 1);
    lemma_digits_split(sb, 1);
    assert(sa.subrange(0, 1) =~= seq![a[i]]);
    assert(sb.subrange(0, 1) =~= seq![b[i]]);
    assert(seq![a[i]].drop_last() =~= Seq::<u8>::empty());
    assert(seq![b[i]].drop_last() =~= Seq::<u8>::empty());
    let ra = sa.subrange(1, k);
    let rb = sb.subrange(1, k);
    assert forall|j: int| 0 <= j < ra.len() implies #[trigger] ra[j] < 10 by {
        assert(ra[j] == a[i + 1 + j]);
    }
    assert forall|j: int| 0 <= j < rb.len() implies #[trigger] rb[j] < 10 by {
        assert(rb[j] == b[i + 1 + j]);
    }
    lemma_digits_int_bounds(ra);
    lemma_digits_int_bounds(rb);
    lemma_pow10_pos((k - 1) as nat);
    let p = pow10((k - 1) as nat);
    lemma_digits_single(a[i]);
    lemma_digits_single(b[i]);
    assert(digits_int(sa) == a[i] * p + digits_int(ra));
    assert(digits_int(sb) == b[i] * p + digits_int(rb));
    assert((a[i] + 1) * p == a[i] * p + p) by (nonlinear_arith);
    lemma_mul_inequality(a[i] + 1, b[i] as int, p);
    assert(digits_int(sa) < digits_int(sb));
    assert(digits_int(a) == digits_int(a.subrange(0, i)) * pow10(k as nat) + digits_int(sa));
    assert(digits_int(b) == digits_int(b.subrange(0, i)) * pow10(k as nat) + digits_int(sb));
}

/// Adds two equally long digit runs and an incoming carry; the result has
/// one more digit.
fn add_digits(a: Vec<u8>, b: Vec<u8>, carry: u8) -> (r: Vec<u8>)
    requires
        a@.len() == b@.len(),
        carry <= 1,
        digit_seq(a@),
        digit_seq(b@),
    ensures
        r@.len() == a@.len() + 1,
        digit_seq(r@),
        digits_int(r@) == digits_int(a@) + digits_int(b@) + carry,
    decreases a@.len(),
{
    let ghost a0 = a@;
    let ghost b0 = b@;
    let mut a = a;
    let mut b = b;
    if a.len() == 0 {
        let mut r: Vec<u8> = Vec::new();
        r.push(carry);
        proof {
            assert(r@ =~= seq![carry]);
            lemma_digits_single(carry);
        }
        r
    } else {
        proof {
            assert(a0[a0.len() - 1] < 10);
            assert(b0[b0.len() - 1] < 10);
        }
        let da = a.pop().unwrap();
        let db = b.pop().unwrap();
        let s2: u8 = da + db + carry;
        let d: u8 = s2 % 10;
        let c2: u8 = s2 / 10;
        proof {
            assert forall|j: int| 0 <= j < a@.len() implies #[trigger] a@[j] < 10 by {
                assert(a@[j] == a0[j]);
            }
            assert forall|j: int| 0 <= j < b@.len() implies #[trigger] b@[j] < 10 by {
                assert(b@[j] == b0[j]);
            }
        }
        let ghost a1 = a@;
        let ghost b1 = b@;
        let mut r = add_digits(a, b, c2);
        let ghost r0 = r@;
        r.push(d);
        proof {
            assert(r@.drop_last() =~= r0);
            assert(r@.last() == d);
            assert(digits_int(r@) == digits_int(r0) * 10 + d);
            assert(digits_int(r0) == digits_int(a1) + digits_int(b1) + c2);
            assert(a0.drop_last() =~= a1);
            assert(b0.drop_last() =~= b1);
            assert(digits_int(a0) == digits_int(a1) * 10 + da);
            assert(digits_int(b0) == digits_int(b1) * 10 + db);
            assert(s2 == 10 * c2 + d);
            assert(digits_int(r@) == digits_int(a0) + digits_int(b0) + carry);
        }
        r
    }
}

/// Compares two equally long digit runs by value.
fn le_digits(a: &Vec<u8>, b: &Vec<u8>) -> (r: bool)
    requires
        a@.len() == b@.len(),
        digit_seq(a@),
        digit_seq(b@),
    ensures
        r == (digits_int(a@) <= digits_int(b@)),
{
    let n = a.len();
    let mut i: usize = 0;
    while i < n
        invariant
            i <= n,
            n == a@.len() == b@.len(),
            digit_seq(a@),
            digit_seq(b@),
            forall|j: int| 0 <= j < i ==> a@[j] == b@[j],
        decreases n - i,
    {
        let da = a[i];
        let db = b[i];
        if da < db {
            proof {
                lemma_lex_lt(a@, b@, i as int);
            }
            return true;
        }
        if da > db {
            proof {
                lemma_lex_lt(b@, a@, i as int);
            }
            return false;
        }
        i = i + 1;
    }
    proof {
        assert(a@ =~= b@);
    }
    true
}

/// Pads a digit run with leading zeros up to a target length, keeping its
/// value.
fn pad_front(v: Vec<u8>, target: usize) -> (r: Vec<u8>)
    requires
        v@.len() <= target,
        digit_seq(v@),
    ensures
        r@.len() == target,
        digit_seq(r@),
        digits_int(r@) == digits_int(v@),
{
    let k = target - v.len();
    let mut r: Vec<u8> = Vec::new();
    let mut i: usize = 0;
    while i < k
        invariant
            i <= k,
            r@.len() == i,
            forall|j: int| 0 <= j < i ==> #[trigger] r@[j] == 0,
        decreases k - i,
    {
        r.push(0);
        i = i + 1;
    }
    let mut j2: usize = 0;
    while j2 < v.len()
        invariant
            j2 <= v@.len(),
            r@.len() == k + j2,
            k + v@.len() == target,
            digit_seq(v@),
            forall|j: int| 0 <= j < k ==> #[trigger] r@[j] == 0,
            forall|j: int| k <= j < k + j2 ==> #[trigger] r@[j] == v@[j - k],
        decreases v@.len() - j2,
    {
        r.push(v[j2]);
        j2 = j2 + 1;
    }
    proof {
        lemma_leading_zeros(r@, k as int);
        assert(r@.subrange(k as int, r@.len() as int) =~= v@);
        assert forall|j: int| 0 <= j < r@.len() implies #[trigger] r@[j] < 10 by {
            if j >= k {
                assert(r@[j] == v@[j - k]);
            }
        }
    }
    r
}

/// The digit run of a temperature's magnitude at scale `f`: its whole and
/// fractional digits followed by `f - frac.len()` zeros.
fn scaled_digits(t: &Temperature, f: usize) -> (m: Vec<u8>)
    requires
        t.wf(),
        t.frac@.len() <= f,
        f <= MAX_NUMBER_LEN,
    ensures
        m@.len() == t.whole@.len() + f,
        digit_seq(m@),
        digits_int(m@) == scaled_mag(*t, f as int),
{
    let mut m: Vec<u8> = Vec::new();
    let mut i: usize = 0;
    while i < t.whole.len()
        invariant
            i <= t.whole@.len(),
            m@ == t.whole@.subrange(0, i as int),
        decreases t.whole@.len() - i,
    {
        m.push(t.whole[i]);
        proof {
            assert(m@ =~= t.whole@.subrange(0, i as int + 1));
        }
        i = i + 1;
    }
    proof {
        assert(t.whole@.subrange(0, t.whole@.len() as int) =~= t.whole@);
    }
    let mut j: usize = 0;
    while j < t.frac.len()
        invariant
            j <= t.frac@.len(),
            m@ == t.whole@ + t.frac@.subrange(0, j as int),
        decreases t.frac@.len() - j,
    {
        m.push(t.frac[j]);
        proof {
            assert(m@ =~= t.whole@ + t.frac@.subrange(0, j as int + 1));
        }
        j = j + 1;
    }
    let ghost base = t.whole@ + t.frac@;
    proof {
        assert(t.frac@.subrange(0, t.frac@.len() as int) =~= t.frac@);
        assert(m@ == base);
    }
    let target = t.whole.len() + f;
    while m.len() < target
        invariant
            base.len() <= m@.len() <= target,
            target == t.whole@.len() + f,
            base == t.whole@ + t.frac@,
            m@.subrange(0, base.len() as int) == base,
            forall|j2: int| base.len() <= j2 < m@.len() ==> #[trigger] m@[j2] == 0,
        decreases target - m@.len(),
    {
        let ghost m0 = m@;
        m.push(0);
        proof {
            assert(m@.subrange(0, base.len() as int) =~= m0.subrange(0, base.len() as int));
        }
    }
    proof {
        let k = m@.len() - base.len();
        lemma_trailing_zeros(m@, k);
        assert(m@.subrange(0, m@.len() - k) == base);
        assert(digit_seq(base)) by {
            assert forall|j2: int| 0 <= j2 < base.len() implies #[trigger] base[j2] < 10 by {
                if j2 < t.whole@.len() {
                    assert(base[j2] == t.whole@[j2]);
                } else {
                    assert(base[j2] == t.frac@[j2 - t.whole@.len()]);
                }
            }
        }
        assert forall|j2: int| 0 <= j2 < m@.len() implies #[trigger] m@[j2] < 10 by {
            if j2 < base.len() {
                assert(m@[j2] == m@.subrange(0, base.len() as int)[j2]);
            }
        }
    }
    m
}

/// The digit run of five degrees at scale `f`: a five followed by `f`
/// zeros.
fn five_scaled(f: usize) -> (r: Vec<u8>)
    requires
        f <= MAX_NUMBER_LEN,
    ensures
        r@.len() == f + 1,
        digit_seq(r@),
        digits_int(r@) == 5 * pow10(f as nat),
{
    let mut r: Vec<u8> = Vec::new();
    r.push(5);
    proof {
        assert(r@ =~= seq![5u8]);
    }
    while r.len() < f + 1
        invariant
            f <= MAX_NUMBER_LEN,
            1 <= r@.len() <= f + 1,
            r@[0] == 5,
            forall|j: int| 1 <= j < r@.len() ==> #[trigger] r@[j] == 0,
        decreases f + 1 - r@.len(),
    {
        r.push(0);
    }
    proof {
        lemma_trailing_zeros(r@, r@.len() - 1);
        assert(r@.subrange(0, 1) =~= seq![5u8]);
        lemma_digits_single(5);
    }
    r
}

/// Decides, exactly, whether two temperatures differ by at least five
/// degrees: their magnitudes are brought to a common scale and compared by
/// exact decimal arithmetic, with no rounding at any length.
pub fn warning_pair(a: &Temperature, b: &Temperature) -> (r: bool)
    requires
        a.wf(),
        b.wf(),
    ensures
        r == spec_warning_pair(*a, *b),
{
    let fa = a.frac.len();
    let fb = b.frac.len();
    let f = if fa >= fb {
        fa
    } else {
        fb
    };
    let ma = scaled_digits(a, f);
    let mb = scaled_digits(b, f);
    let la = ma.len();
    let lb = mb.len();
    let l = if la >= lb {
        la
    } else {
        lb
    };
    let ma = pad_front(ma, l);
    let mb = pad_front(mb, l);
    let five = five_scaled(f);
    let five = pad_front(five, l);
    let ghost va = digits_int(ma@);
    let ghost vb = digits_int(mb@);
    proof {
        lemma_digits_int_bounds(ma@);
        lemma_digits_int_bounds(mb@);
        lemma_pow10_pos(f as nat);
    }
    if a.negative == b.negative {
        let a_le_b = le_digits(&ma, &mb);
        let (lo, hi) = if a_le_b {
            (ma, mb)
        } else {
            (mb, ma)
        };
        let ghost lov = digits_int(lo@);
        let ghost hiv = digits_int(hi@);
        let sum = add_digits(lo, five, 0);
        let hi_p = pad_front(hi, l + 1);
        let w = le_digits(&sum, &hi_p);
        proof {
            assert(abs_int(signed_scaled(*a, f as int) - signed_scaled(*b, f as int)) == hiv
                - lov);
        }
        w
    } else {
        let sum = add_digits(ma, mb, 0);
        let five_p = pad_front(five, l + 1);
        let w = le_digits(&five_p, &sum);
        proof {
            assert(abs_int(signed_scaled(*a, f as int) - signed_scaled(*b, f as int)) == va + vb);
        }
        w
    }
}

/// Finds the first occurrence of `needle` at or after `start`.
fn find_char(s: &str, start: usize, needle: char) -> (r: Option<usize>)
    requires
        start <= s@.len(),
    ensures
        match r {
            Some(i) => start <= i < s@.len() && s@[i as int] == needle && forall|j: int|
                start <= j < i ==> s@[j] != needle,
            None => forall|j: int| start <= j < s@.len() ==> s@[j] != needle,
        },
{
    let n = s.unicode_len();
    let mut i: usize = start;
    while i < n
        invariant
            start <= i <= n,
            n == s@.len(),
            forall|j: int| start <= j < i ==> s@[j] != needle,
        decreases n - i,
    {
        if s.get_char(i) == needle {
            return Some(i);
        }
        i = i + 1;
    }
    None
}

/// Collects the digit run `s[from..to]`, refusing an empty run or a
/// non-digit.
fn collect_digits(s: &str, from: usize, to: usize) -> (r: Option<Vec<u8>>)
    requires
        from <= to <= s@.len(),
    ensures
        r is Some <==> (from < to && all_digits(s@.subrange(from as int, to as int))),
        r matches Some(ds) ==> ds@.len() == to - from && digit_seq(ds@) && chars_of(ds@)
            == s@.subrange(from as int, to as int),
{
    let ghost sub = s@.subrange(from as int, to as int);
    if from >= to {
        return None;
    }
    let mut ds: Vec<u8> = Vec::new();
    let mut i: usize = from;
    while i < to
        invariant
            from <= i <= to <= s@.len(),
            sub == s@.subrange(from as int, to as int),
            ds@.len() == i - from,
            digit_seq(ds@),
            forall|j: int| 0 <= j < i - from ==> s@[from + j] == digit_char(#[trigger] ds@[j] as int),
            all_digits(s@.subrange(from as int, i as int)),
        decreases to - i,
    {
        let c = s.get_char(i);
        let u = c as u32;
        if u < 48 || u > 57 {
            proof {
                assert(sub[i - from] == s@[i as int]);
                assert(!is_digit(sub[i - from]));
            }
            return None;
        }
        let d: u8 = (u - 48) as u8;
        let ghost ds0 = ds@;
        ds.push(d);
        proof {
            assert(c == digit_char(d as int));
            assert forall|j: int| 0 <= j < i as int + 1 - from implies s@[from + j] == digit_char(
                #[trigger] ds@[j] as int,
            ) by {
                if j < i as int - from {
                    assert(ds@[j] == ds0[j]);
                }
            }
            assert forall|j: int| 0 <= j < i as int + 1 - from implies is_digit(
                #[trigger] s@.subrange(from as int, i as int + 1)[j],
            ) by {
                assert(s@.subrange(from as int, i as int + 1)[j] == s@[from + j]);
                if j < i as int - from {
                    assert(s@[from + j] == s@.subrange(from as int, i as int)[j]);
                }
            }
        }
        i = i + 1;
    }
    proof {
        assert(s@.subrange(from as int, i as int) =~= sub);
        assert(chars_of(ds@) =~= sub);
    }
    Some(ds)
}

/// Reads a decimal temperature text — an optional minus sign, whole
/// digits, and an optional point with fractional digits — keeping its
/// digits verbatim. Returns `None` exactly when the text is not of that
/// shape or exceeds the machine limit on its length.
pub fn parse_temperature(s: &str) -> (r: Option<Temperature>)
    ensures
        r is Some <==> (is_decimal_text(s@) && s@.len() <= MAX_NUMBER_LEN as int),
        r matches Some(t) ==> t.wf() && temp_text(t) == s@,
{
    let n = s.unicode_len();
    if n > MAX_NUMBER_LEN {
        return None;
    }
    let neg = n > 0 && s.get_char(0) == '-';
    let start: usize = if neg {
        1
    } else {
        0
    };
    let ghost b = s@.subrange(start as int, s@.len() as int);
    proof {
        if !neg {
            assert(b =~= s@);
        }
        b.index_of_first_ensures('.');
    }
    let dot = find_char(s, start, '.');
    match dot {
        None => {
            proof {
                assert forall|k: int| 0 <= k < b.len() implies b[k] != '.' by {
                    assert(b[k] == s@[start + k]);
                }
                assert(!b.contains('.'));
                assert(b.index_of_first('.') is None);
            }
            match collect_digits(s, start, n) {
                None => {
                    proof {
                        assert(s@.subrange(start as int, n as int) == b);
                    }
                    None
                },
                Some(whole) => {
                    let t = Temperature { negative: neg, whole, frac: Vec::new() };
                    proof {
                        assert(s@.subrange(start as int, n as int) == b);
                        assert(temp_text(t) =~= s@);
                    }
                    Some(t)
                },
            }
        },
        Some(dot_i) => {
            proof {
                assert(b[dot_i - start] == s@[dot_i as int]);
                match b.index_of_first('.') {
                    None => {
                        assert(b.contains('.'));
                    },
                    Some(k) => {
                        if k < dot_i - start {
                            assert(b[k] == s@[start + k]);
                        }
                        if k > dot_i - start {
                            assert(b[dot_i - start] != '.');
                        }
                        assert(k == dot_i - start);
                    },
                }
            }
            let ghost ip = b.subrange(0, dot_i - start);
            let ghost fp = b.subrange(dot_i - start + 1, b.len() as int);
            proof {
                assert(ip =~= s@.subrange(start as int, dot_i as int));
                assert(fp =~= s@.subrange(dot_i as int + 1, n as int));
            }
            let whole = match collect_digits(s, start, dot_i) {
                None => {
                    return None;
                },
                Some(w) => w,
            };
            let frac = match collect_digits(s, dot_i + 1, n) {
                None => {
                    return None;
                },
                Some(fr) => fr,
            };
            let t = Temperature { negative: neg, whole, frac };
            proof {
                assert(temp_text(t) =~= s@);
            }
            Some(t)
        },
    }
}

fn digit_str(d: u8) -> (r: &'static str)
    requires
        d < 10,
    ensures
        r@ == seq![digit_char(d as int)],
{
    let r = match d {
        0 => "0",
        1 => "1",
        2 => "2",
        3 => "3",
        4 => "4",
        5 => "5",
        6 => "6",
        7 => "7",
        8 => "8",
        _ => "9",
    };
    proof {
        reveal_strlit("0");
        reveal_strlit("1");
        reveal_strlit("2");
        reveal_strlit("3");
        reveal_strlit("4");
        reveal_strlit("5");
        reveal_strlit("6");
        reveal_strlit("7");
        reveal_strlit("8");
        reveal_strlit("9");
        assert(r@ =~= seq![digit_char(d as int)]);
    }
    r
}

/// Writes a temperature's text: exactly the digits it was parsed from,
/// sign and point included.
pub fn render_temperature(t: &Temperature) -> (r: String)
    requires
        t.wf(),
    ensures
        r@ == temp_text(*t),
{
    let ghost sign: Seq<char> = if t.negative {
        seq!['-']
    } else {
        Seq::<char>::empty()
    };
    let mut m = String::new();
    if t.negative {
        m.append("-");
    }
    proof {
        reveal_strlit("-");
        assert(m@ =~= sign + chars_of(t.whole@.subrange(0, 0)));
    }
    let mut i: usize = 0;
    while i < t.whole.len()
        invariant
            t.wf(),
            i <= t.whole@.len(),
            sign == (if t.negative {
                seq!['-']
            } else {
                Seq::<char>::empty()
            }),
            m@ == sign + chars_of(t.whole@.subrange(0, i as int)),
        decreases t.whole@.len() - i,
    {
        proof {
            assert(t.whole@[i as int] < 10);
        }
        m.append(digit_str(t.whole[i]));
        proof {
            assert(m@ =~= sign + chars_of(t.whole@.subrange(0, i as int + 1)));
        }
        i = i + 1;
    }
    proof {
        assert(t.whole@.subrange(0, t.whole@.len() as int) =~= t.whole@);
    }
    if t.frac.len() > 0 {
        m.append(".");
        proof {
            reveal_strlit(".");
            assert(m@ =~= sign + chars_of(t.whole@) + seq!['.'] + chars_of(
                t.frac@.subrange(0, 0),
            ));
        }
        let mut j: usize = 0;
        while j < t.frac.len()
            invariant
                t.wf(),
                j <= t.frac@.len(),
                sign == (if t.negative {
                    seq!['-']
                } else {
                    Seq::<char>::empty()
                }),
                m@ == sign + chars_of(t.whole@) + seq!['.'] + chars_of(
                    t.frac@.subrange(0, j as int),
                ),
            decreases t.frac@.len() - j,
        {
            proof {
                assert(t.frac@[j as int] < 10);
            }
            m.append(digit_str(t.frac[j]));
            proof {
                assert(m@ =~= sign + chars_of(t.whole@) + seq!['.'] + chars_of(
                    t.frac@.subrange(0, j as int + 1),
                ));
            }
            j = j + 1;
        }
        proof {
            assert(t.frac@.subrange(0, t.frac@.len() as int) =~= t.frac@);
        }
    }
    proof {
        assert(m@ =~= temp_text(*t));
    }
    m
}

} // verus!
