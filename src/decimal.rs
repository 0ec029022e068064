//! Exact decimal numbers, as carried by the number variants of the wire format.
//!
//! A number travels as text (`"10.5"`, `"-3"`, `"0.25"`). It is kept here as a
//! sign, an unsigned magnitude and a scale: the value is
//! `±magnitude / 10^scale`. Values are canonical: a non-zero scale never leaves a
//! trailing zero digit, and zero is never negative, so two decimals with the same
//! value have the same fields.
use crate::text::push_char;
use vstd::prelude::*;

verus! {

/// An exact decimal number `±magnitude / 10^scale` in canonical form.
#[derive(Clone, Copy, Debug, PartialEq, Eq, Structural)]
pub struct Decimal {
    pub negative: bool,
    pub magnitude: u64,
    pub scale: usize,
}

pub open spec fn is_digit(c: char) -> bool {
    '0' <= c && c <= '9'
}

pub open spec fn digit_value(c: char) -> nat {
    (c as nat - '0' as nat) as nat
}

pub open spec fn digit_char(d: nat) -> char {
    ('0' as nat + d) as char
}

pub open spec fn all_digits(s: Seq<char>) -> bool {
    forall|i: int| 0 <= i < s.len() ==> is_digit(#[trigger] s[i])
}

/// The natural number that a string of decimal digits denotes.
pub open spec fn digits_value(s: Seq<char>) -> nat
    decreases s.len(),
{
    if s.len() == 0 {
        0
    } else {
        digits_value(s.drop_last()) * 10 + digit_value(s.last())
    }
}

pub open spec fn pow10(n: nat) -> nat
    decreases n,
{
    if n == 0 {
        1
    } else {
        10 * pow10((n - 1) as nat)
    }
}

/// The shortest decimal digit string of `n` (`"0"` for zero).
pub open spec fn nat_digits(n: nat) -> Seq<char>
    decreases n,
{
    if n < 10 {
        seq![digit_char(n)]
    } else {
        nat_digits(n / 10).push(digit_char(n % 10))
    }
}

/// `s` without its trailing `'0'` characters.
pub open spec fn trim_zeros(s: Seq<char>) -> Seq<char>
    decreases s.len(),
{
    if s.len() > 0 && s.last() == '0' {
        trim_zeros(s.drop_last())
    } else {
        s
    }
}

/// The index of the first `'.'` of `s`, or its length where there is none.
pub open spec fn first_dot(s: Seq<char>) -> nat
    decreases s.len(),
{
    if s.len() == 0 {
        0
    } else if s[0] == '.' {
        0
    } else {
        1 + first_dot(s.skip(1))
    }
}

/// The number of leading sign characters (`'+'` or `'-'`): zero or one.
pub open spec fn sign_len(s: Seq<char>) -> int {
    if s.len() > 0 && (s[0] == '-' || s[0] == '+') {
        1
    } else {
        0
    }
}

/// The digits of a number text, without its sign.
pub open spec fn body_of(s: Seq<char>) -> Seq<char> {
    s.subrange(sign_len(s), s.len() as int)
}

/// The digits before the point.
pub open spec fn int_part(s: Seq<char>) -> Seq<char> {
    body_of(s).subrange(0, first_dot(body_of(s)) as int)
}

/// The digits after the point (empty where there is no point).
pub open spec fn frac_part(s: Seq<char>) -> Seq<char> {
    let b = body_of(s);
    let d = first_dot(b);
    if d < b.len() {
        b.subrange(d as int + 1, b.len() as int)
    } else {
        Seq::empty()
    }
}

/// A plain decimal text: an optional sign, digits, and at most one point,
/// with at least one digit. No exponent, no spaces.
pub open spec fn is_number_text(s: Seq<char>) -> bool {
    all_digits(int_part(s)) && all_digits(frac_part(s)) && int_part(s).len() + frac_part(s).len()
        > 0
}

/// The exact magnitude of a number text, scaled by `10^scale_of_text(s)`.
pub open spec fn magnitude_of_text(s: Seq<char>) -> nat {
    digits_value(int_part(s) + trim_zeros(frac_part(s)))
}

pub open spec fn scale_of_text(s: Seq<char>) -> nat {
    trim_zeros(frac_part(s)).len()
}

/// What a number text denotes: `None` where it is not a plain decimal text, or
/// where its digits (trailing fractional zeros left out) exceed 64 bits.
pub open spec fn parse_decimal(s: Seq<char>) -> Option<Decimal> {
    if is_number_text(s) && magnitude_of_text(s) <= u64::MAX {
        Some(
            Decimal {
                negative: s[0] == '-' && magnitude_of_text(s) != 0,
                magnitude: magnitude_of_text(s) as u64,
                scale: scale_of_text(s) as usize,
            },
        )
    } else {
        None
    }
}

/// `k` characters `'0'`.
pub open spec fn zeros(k: nat) -> Seq<char> {
    Seq::new(k, |i: int| '0')
}

/// `s` with `'0'` characters in front, to at least `width` characters.
pub open spec fn pad_zeros(s: Seq<char>, width: nat) -> Seq<char> {
    if s.len() < width {
        zeros((width - s.len()) as nat) + s
    } else {
        s
    }
}

/// The canonical decimal of value `±m / 10^s`: trailing zero digits of `m`
/// dropped while the scale allows.
pub open spec fn canonical(negative: bool, m: nat, s: nat) -> Decimal
    decreases s,
{
    if s > 0 && m % 10 == 0 {
        canonical(negative, m / 10, (s - 1) as nat)
    } else {
        Decimal { negative: negative && m != 0, magnitude: m as u64, scale: s as usize }
    }
}

impl Decimal {
    /// Canonical form: no trailing zero after the point, no negative zero.
    pub open spec fn wf(&self) -> bool {
        &&& (self.scale == 0 || self.magnitude % 10 != 0)
        &&& (self.magnitude == 0 ==> !self.negative)
    }

    /// The value times `10^scale`, with its sign.
    pub open spec fn signed_units(&self) -> int {
        if self.negative {
            -(self.magnitude as int)
        } else {
            self.magnitude as int
        }
    }

    /// The digits of the magnitude, padded so that at least one stands before
    /// the point.
    pub open spec fn padded_digits(&self) -> Seq<char> {
        pad_zeros(nat_digits(self.magnitude as nat), self.scale as nat + 1)
    }

    /// The plain text of the number: `-` for negative values, then the digits,
    /// with a point before the last `scale` of them.
    pub open spec fn text(&self) -> Seq<char> {
        let ds = self.padded_digits();
        let p = ds.len() - self.scale;
        let body = if self.scale == 0 {
            ds
        } else {
            ds.subrange(0, p) + seq!['.'] + ds.subrange(p, ds.len() as int)
        };
        if self.negative {
            seq!['-'] + body
        } else {
            body
        }
    }

    /// Whether the decimal is in canonical form.
    pub fn is_canonical(&self) -> (r: bool)
        ensures
            r == self.wf(),
    {
        (self.scale == 0 || self.magnitude % 10 != 0) && (self.magnitude != 0 || !self.negative)
    }

    /// Builds the canonical decimal equal to `±magnitude / 10^scale`.
    pub fn new(negative: bool, magnitude: u64, scale: usize) -> (r: Decimal)
        ensures
            r.wf(),
            r.signed_units() * pow10(scale as nat) == (if negative {
                -(magnitude as int)
            } else {
                magnitude as int
            }) * pow10(r.scale as nat),
            r.scale as nat <= scale,
            r == canonical(negative, magnitude as nat, scale as nat),
    {
        let mut m = magnitude;
        let mut k = scale;
        let ghost mut e: nat = 0;
        assert(pow10(0) == 1);
        assert(m as int * pow10(e) == magnitude as int) by (nonlinear_arith)
            requires
                pow10(e) == 1,
                m == magnitude,
        ;
        while k > 0 && m % 10 == 0
            invariant
                k + e == scale,
                m as int * pow10(e) == magnitude as int,
                canonical(negative, m as nat, k as nat) == canonical(negative, magnitude as nat, scale as nat),
            decreases k,
        {
            proof {
                lemma_pow10_succ(e);
                assert((m / 10) as int * pow10(e + 1) == m as int * pow10(e)) by (nonlinear_arith)
                    requires
                        pow10(e + 1) == 10 * pow10(e),
                        m % 10 == 0,
                ;
                e = e + 1;
            }
            m = m / 10;
            k = k - 1;
        }
        proof {
            lemma_pow10_add(k as nat, e);
            let pk = pow10(k as nat);
            let pe = pow10(e);
            assert(m as int * (pk * pe) == (m as int * pe) * pk) by (nonlinear_arith);
            assert(-(m as int) * (pk * pe) == -((m as int * pe) * pk)) by (nonlinear_arith);
            assert(-(magnitude as int) * pk == -(magnitude as int * pk)) by (nonlinear_arith);
        }
        Decimal { negative: negative && m != 0, magnitude: m, scale: k }
    }
}

pub proof fn lemma_pow10_pos(n: nat)
    ensures
        pow10(n) > 0,
    decreases n,
{
    if n > 0 {
        lemma_pow10_pos((n - 1) as nat);
    }
}

pub proof fn lemma_pow10_succ(n: nat)
    ensures
        pow10(n + 1) == 10 * pow10(n),
{
    assert(((n + 1) as nat - 1) as nat == n);
}

pub proof fn lemma_pow10_add(a: nat, b: nat)
    ensures
        pow10(a + b) == pow10(a) * pow10(b),
    decreases b,
{
    if b == 0 {
        assert(pow10(0) == 1);
        assert(a + b == a);
    } else {
        lemma_pow10_add(a, (b - 1) as nat);
        assert(pow10(a + b) == 10 * pow10((a + b - 1) as nat));
        assert(pow10(b) == 10 * pow10((b - 1) as nat));
        assert(pow10(a) * (10 * pow10((b - 1) as nat)) == 10 * (pow10(a) * pow10((b - 1) as nat)))
            by (nonlinear_arith);
    }
}


pub proof fn lemma_digits_push(s: Seq<char>, c: char)
    ensures
        digits_value(s.push(c)) == digits_value(s) * 10 + digit_value(c),
{
    assert(s.push(c).drop_last() =~= s);
}

/// The value of a concatenation of digit strings.
pub proof fn lemma_digits_concat(a: Seq<char>, b: Seq<char>)
    ensures
        digits_value(a + b) == digits_value(a) * pow10(b.len()) + digits_value(b),
    decreases b.len(),
{
    if b.len() == 0 {
        assert(a + b =~= a);
        assert(pow10(0) == 1);
    } else {
        let b0 = b.drop_last();
        lemma_digits_concat(a, b0);
        assert((a + b).drop_last() =~= a + b0);
        assert((a + b).last() == b.last());
        lemma_pow10_succ(b0.len());
        assert(b0.len() + 1 == b.len());
        let x = digits_value(a);
        let p = pow10(b0.len());
        let y = digits_value(b0);
        assert((x * p + y) * 10 == x * (10 * p) + y * 10) by (nonlinear_arith);
    }
}

/// A digit string is worth at least as much as any of its prefixes.
pub proof fn lemma_digits_prefix_le(s: Seq<char>, k: int)
    requires
        0 <= k <= s.len(),
    ensures
        digits_value(s.subrange(0, k)) <= digits_value(s),
{
    let a = s.subrange(0, k);
    let b = s.subrange(k, s.len() as int);
    assert(a + b =~= s);
    lemma_digits_concat(a, b);
    lemma_pow10_pos(b.len());
    assert(digits_value(a) * pow10(b.len()) >= digits_value(a)) by (nonlinear_arith)
        requires
            pow10(b.len()) > 0,
    ;
}

pub proof fn lemma_digits_mod10(s: Seq<char>)
    requires
        s.len() > 0,
        is_digit(s.last()),
    ensures
        digits_value(s) % 10 == digit_value(s.last()),
{
    let x = digits_value(s.drop_last());
    let d = digit_value(s.last());
    assert(d < 10);
    assert((x * 10 + d) % 10 == d) by (nonlinear_arith)
        requires
            d < 10,
    ;
}

/// Where no point stands before `k`, the first point is at `k` or later; at `k`
/// exactly where `k` is the end or holds a point.
pub proof fn lemma_first_dot(b: Seq<char>, k: int)
    requires
        0 <= k <= b.len(),
        forall|j: int| 0 <= j < k ==> b[j] != '.',
    ensures
        k <= first_dot(b) <= b.len(),
        (k == b.len() || b[k] == '.') ==> first_dot(b) == k,
    decreases b.len(),
{
    if b.len() > 0 && b[0] != '.' {
        lemma_first_dot(b.skip(1), 0);
    }
    if k > 0 {
        let t = b.skip(1);
        assert forall|j: int| 0 <= j < k - 1 implies t[j] != '.' by {
            assert(t[j] == b[j + 1]);
        }
        if k < b.len() {
            assert(t[k - 1] == b[k]);
        }
        lemma_first_dot(t, k - 1);
    }
}

/// Trimming trailing zeros keeps exactly the prefix up to the last non-zero.
pub proof fn lemma_trim_zeros(f: Seq<char>, k: int)
    requires
        0 <= k <= f.len(),
        forall|i: int| k <= i < f.len() ==> f[i] == '0',
        k == 0 || f[k - 1] != '0',
    ensures
        trim_zeros(f) == f.subrange(0, k),
    decreases f.len(),
{
    if f.len() > k {
        let g = f.drop_last();
        lemma_trim_zeros(g, k);
        assert(g.subrange(0, k) =~= f.subrange(0, k));
    } else {
        assert(f.subrange(0, k) =~= f);
    }
}


/// `acc * 10 + digit`, or `None` where that exceeds 64 bits.
fn shift_in(acc: u64, c: char) -> (r: Option<u64>)
    requires
        is_digit(c),
    ensures
        acc * 10 + digit_value(c) <= u64::MAX ==> r == Some((acc * 10 + digit_value(c)) as u64),
        acc * 10 + digit_value(c) > u64::MAX ==> r is None,
{
    let dv = (c as u32 - '0' as u32) as u64;
    match acc.checked_mul(10) {
        None => None,
        Some(x) => x.checked_add(dv),
    }
}

/// Folds the digits `s@[from..to]` into `acc`, the value of `pre`: the value
/// of `pre` followed by those digits, or `None` where it exceeds 64 bits.
fn accumulate(s: &str, from: usize, to: usize, acc: u64, Ghost(pre): Ghost<Seq<char>>) -> (r:
    Option<u64>)
    requires
        from <= to <= s@.len(),
        forall|k: int| from <= k < to ==> is_digit(#[trigger] s@[k]),
        acc == digits_value(pre),
    ensures
        r matches Some(v) ==> v == digits_value(pre + s@.subrange(from as int, to as int)),
        r is None ==> digits_value(pre + s@.subrange(from as int, to as int)) > u64::MAX,
{
    let ghost full = pre + s@.subrange(from as int, to as int);
    let mut acc = acc;
    let mut p: usize = from;
    assert(pre + s@.subrange(from as int, from as int) =~= pre);
    while p < to
        invariant
            from <= p <= to <= s@.len(),
            forall|k: int| from <= k < to ==> is_digit(#[trigger] s@[k]),
            full == pre + s@.subrange(from as int, to as int),
            acc == digits_value(pre + s@.subrange(from as int, p as int)),
        decreases to - p,
    {
        let c = s.get_char(p);
        let ghost cur = pre + s@.subrange(from as int, p as int);
        proof {
            lemma_digits_push(cur, c);
            assert(pre + s@.subrange(from as int, p + 1) =~= cur.push(c));
            assert(full.subrange(0, pre.len() + p + 1 - from) =~= cur.push(c));
        }
        match shift_in(acc, c) {
            None => {
                proof {
                    lemma_digits_prefix_le(full, pre.len() + p + 1 - from);
                }
                return None;
            },
            Some(x) => {
                acc = x;
            },
        }
        p = p + 1;
    }
    Some(acc)
}

impl Decimal {
    /// Reads a plain decimal text: an optional `+` or `-`, digits with at most
    /// one point, at least one digit. Trailing zeros after the point do not
    /// count toward the 64 bits that the digits must fit in.
    #[verifier::rlimit(60)]
    pub fn parse(s: &str) -> (r: Option<Decimal>)
        ensures
            r == parse_decimal(s@),
            r matches Some(d) ==> d.wf(),
    {
        let n = s.unicode_len();
        let ghost sv = s@;
        let mut start: usize = 0;
        let mut negative = false;
        if n > 0 {
            let c = s.get_char(0);
            if c == '-' {
                negative = true;
                start = 1;
            } else if c == '+' {
                start = 1;
            }
        }
        let ghost b = body_of(sv);
        assert(b.len() == n - start);
        assert forall|j: int| 0 <= j < n - start implies b[j] == sv[j + start] by {}
        // The digits before the point.
        let mut i: usize = start;
        while i < n && s.get_char(i) != '.'
            invariant
                start <= i <= n,
                n == sv.len(),
                sv == s@,
                start == sign_len(sv),
                b == body_of(sv),
                b.len() == n - start,
                forall|j: int| 0 <= j < n - start ==> b[j] == sv[j + start],
                forall|j: int| start <= j < i ==> is_digit(sv[j]) && sv[j] != '.',
            decreases n - i,
        {
            let c = s.get_char(i);
            if !('0' <= c && c <= '9') {
                proof {
                    lemma_first_dot(b, i - start + 1);
                    assert(int_part(sv)[i - start] == sv[i as int]);
                }
                return None;
            }
            i = i + 1;
        }
        let d = i;
        proof {
            lemma_first_dot(b, d - start);
            assert(int_part(sv) =~= sv.subrange(start as int, d as int));
        }
        // The digits after the point, and the end of their non-zero prefix.
        let fstart: usize = if d < n {
            d + 1
        } else {
            n
        };
        assert(frac_part(sv) =~= sv.subrange(fstart as int, n as int));
        let mut kend: usize = fstart;
        let mut j: usize = fstart;
        while j < n
            invariant
                fstart <= kend <= j <= n,
                n == sv.len(),
                sv == s@,
                frac_part(sv) == sv.subrange(fstart as int, n as int),
                forall|q: int| fstart <= q < j ==> is_digit(sv[q]),
                forall|q: int| kend <= q < j ==> sv[q] == '0',
                kend == fstart || sv[kend - 1] != '0',
            decreases n - j,
        {
            let c = s.get_char(j);
            if !('0' <= c && c <= '9') {
                assert(frac_part(sv)[j - fstart] == sv[j as int]);
                return None;
            }
            if c != '0' {
                kend = j + 1;
            }
            j = j + 1;
        }
        if d - start + (n - fstart) == 0 {
            return None;
        }
        let ghost ip = sv.subrange(start as int, d as int);
        let ghost t = sv.subrange(fstart as int, kend as int);
        let ghost full = ip + t;
        proof {
            let f = frac_part(sv);
            assert forall|q: int| kend - fstart <= q < f.len() implies f[q] == '0' by {
                assert(f[q] == sv[q + fstart]);
            }
            lemma_trim_zeros(f, kend - fstart);
            assert(f.subrange(0, kend - fstart) =~= t);
            assert(is_number_text(sv));
            assert(magnitude_of_text(sv) == digits_value(full));
        }
        // The value of the integer digits, then of the kept fractional digits.
        let acc = match accumulate(s, start, d, 0, Ghost(Seq::empty())) {
            None => {
                proof {
                    assert(Seq::<char>::empty() + ip =~= ip);
                    assert(full.subrange(0, ip.len() as int) =~= ip);
                    lemma_digits_prefix_le(full, ip.len() as int);
                }
                return None;
            },
            Some(v) => v,
        };
        assert(Seq::<char>::empty() + ip =~= ip);
        let acc = match accumulate(s, fstart, kend, acc, Ghost(ip)) {
            None => {
                return None;
            },
            Some(v) => v,
        };
        proof {
            assert(sv.subrange(fstart as int, kend as int) =~= t);
            if kend > fstart {
                assert(full.last() == sv[kend - 1]);
                lemma_digits_mod10(full);
            }
            if negative {
                assert(sv[0] == '-');
            }
        }
        Some(Decimal { negative: negative && acc != 0, magnitude: acc, scale: kend - fstart })
    }
}


pub proof fn lemma_digit_char(d: nat)
    requires
        d < 10,
    ensures
        is_digit(digit_char(d)),
        digit_value(digit_char(d)) == d,
{
}

pub proof fn lemma_nat_digits(n: nat)
    ensures
        nat_digits(n).len() >= 1,
        all_digits(nat_digits(n)),
        digits_value(nat_digits(n)) == n,
        nat_digits(n).last() == digit_char(n % 10),
    decreases n,
{
    if n < 10 {
        lemma_digit_char(n);
        assert(seq![digit_char(n)].drop_last() =~= Seq::<char>::empty());
        assert(digits_value(Seq::<char>::empty()) == 0);
    } else {
        lemma_nat_digits(n / 10);
        lemma_digit_char(n % 10);
        lemma_digits_push(nat_digits(n / 10), digit_char(n % 10));
        assert((n / 10) * 10 + n % 10 == n) by (nonlinear_arith);
        let s = nat_digits(n / 10).push(digit_char(n % 10));
        assert forall|i: int| 0 <= i < s.len() implies is_digit(#[trigger] s[i]) by {
            if i < s.len() - 1 {
                assert(s[i] == nat_digits(n / 10)[i]);
            }
        }
    }
}

pub proof fn lemma_zeros_value(s: Seq<char>, k: nat)
    ensures
        digits_value(zeros(k) + s) == digits_value(s),
    decreases k,
{
    let z = zeros(k);
    lemma_digits_concat(z, s);
    lemma_zeros_only(k);
    assert(0 * pow10(k) == 0);
}

proof fn lemma_zeros_only(k: nat)
    ensures
        digits_value(zeros(k)) == 0,
    decreases k,
{
    if k > 0 {
        let z = zeros(k);
        assert(z.drop_last() =~= zeros((k - 1) as nat));
        lemma_zeros_only((k - 1) as nat);
    }
}

/// The number of digits of `n`.
fn digit_count(n: u64) -> (r: usize)
    ensures
        r == nat_digits(n as nat).len(),
    decreases n,
{
    if n < 10 {
        1
    } else {
        proof {
            lemma_nat_digits((n / 10) as nat);
            lemma_digit_count_bound((n / 10) as nat);
        }
        digit_count(n / 10) + 1
    }
}

proof fn lemma_digit_count_bound(n: nat)
    requires
        n <= u64::MAX,
    ensures
        nat_digits(n).len() <= 20,
{
    reveal_with_fuel(pow10, 21);
    assert(pow10(20) == 100000000000000000000nat);
    lemma_digit_count_le(n, 20);
}

proof fn lemma_digit_count_le(n: nat, k: nat)
    requires
        n < pow10(k),
        k >= 1,
    ensures
        nat_digits(n).len() <= k,
    decreases n,
{
    if n >= 10 {
        lemma_pow10_succ((k - 1) as nat);
        assert(k >= 2) by {
            if k == 1 {
                assert(pow10(1) == 10 * pow10(0));
                assert(pow10(0) == 1);
            }
        }
        assert(n / 10 < pow10((k - 1) as nat)) by (nonlinear_arith)
            requires
                n < pow10(k),
                pow10(k) == 10 * pow10((k - 1) as nat),
        ;
        lemma_digit_count_le(n / 10, (k - 1) as nat);
    }
}

/// Appends the digits of `n` to `out`.
fn push_digits(n: u64, out: &mut Vec<char>)
    ensures
        final(out)@ == old(out)@ + nat_digits(n as nat),
    decreases n,
{
    if n < 10 {
        out.push(((n as u8) + 48) as char);
        assert(old(out)@.push(digit_char(n as nat)) =~= old(out)@ + nat_digits(n as nat));
    } else {
        push_digits(n / 10, out);
        out.push((((n % 10) as u8) + 48) as char);
        assert(old(out)@ + nat_digits((n / 10) as nat) + seq![digit_char((n % 10) as nat)]
            =~= old(out)@ + nat_digits(n as nat));
    }
}


proof fn lemma_padded_digits(d: Decimal)
    ensures
        d.padded_digits().len() >= d.scale + 1,
        all_digits(d.padded_digits()),
        digits_value(d.padded_digits()) == d.magnitude,
        d.padded_digits().last() == digit_char(d.magnitude as nat % 10),
{
    let nd = nat_digits(d.magnitude as nat);
    lemma_nat_digits(d.magnitude as nat);
    let w = d.scale as nat + 1;
    if nd.len() < w {
        let z = zeros((w - nd.len()) as nat);
        lemma_zeros_value(nd, (w - nd.len()) as nat);
        let ds = z + nd;
        assert(ds.last() == nd.last());
        assert forall|i: int| 0 <= i < ds.len() implies is_digit(#[trigger] ds[i]) by {
            if i >= z.len() {
                assert(ds[i] == nd[i - z.len()]);
            }
        }
    }
}

/// The text without its sign, as `text` builds it.
pub open spec fn text_body(d: Decimal) -> Seq<char> {
    let ds = d.padded_digits();
    let p = ds.len() - d.scale;
    if d.scale == 0 {
        ds
    } else {
        ds.subrange(0, p) + seq!['.'] + ds.subrange(p, ds.len() as int)
    }
}

proof fn lemma_text_sign(d: Decimal)
    ensures
        body_of(d.text()) == text_body(d),
        d.text().len() > 0,
        (d.text()[0] == '-') == d.negative,
{
    let ds = d.padded_digits();
    lemma_padded_digits(d);
    let body = text_body(d);
    let t = d.text();
    assert(is_digit(ds[0]));
    assert(body[0] == ds[0]);
    if d.negative {
        assert(t[0] == '-');
        assert(body_of(t) =~= body);
    } else {
        assert(t == body);
        assert(sign_len(t) == 0);
        assert(body_of(t) =~= body);
    }
}

proof fn lemma_text_parts(d: Decimal)
    requires
        d.wf(),
    ensures
        all_digits(int_part(d.text())),
        all_digits(frac_part(d.text())),
        int_part(d.text()).len() > 0,
        int_part(d.text()) + trim_zeros(frac_part(d.text())) == d.padded_digits(),
        trim_zeros(frac_part(d.text())).len() == d.scale,
{
    let ds = d.padded_digits();
    lemma_padded_digits(d);
    lemma_text_sign(d);
    let len = ds.len();
    let p = len - d.scale;
    let body = text_body(d);
    let t = d.text();
    if d.scale == 0 {
        lemma_first_dot(body, len as int);
        assert(int_part(t) =~= ds);
        assert(frac_part(t) =~= Seq::<char>::empty());
        assert(trim_zeros(Seq::<char>::empty()) =~= Seq::<char>::empty());
        assert(ds + Seq::<char>::empty() =~= ds);
    } else {
        assert forall|j: int| 0 <= j < p implies body[j] != '.' by {
            assert(body[j] == ds[j]);
        }
        assert(body[p] == '.');
        lemma_first_dot(body, p);
        assert(int_part(t) =~= ds.subrange(0, p));
        assert(frac_part(t) =~= ds.subrange(p, len as int));
        let f = ds.subrange(p, len as int);
        assert(f.last() == ds.last());
        assert(digit_char(d.magnitude as nat % 10) != '0');
        assert(trim_zeros(f) == f);
        assert(ds.subrange(0, p) + f =~= ds);
    }
}

/// Reading back the text of a canonical decimal gives that decimal.
pub proof fn lemma_text_parses(d: Decimal)
    requires
        d.wf(),
    ensures
        parse_decimal(d.text()) == Some(d),
{
    lemma_padded_digits(d);
    lemma_text_sign(d);
    lemma_text_parts(d);
}

impl Decimal {
    /// The plain text of the number, with no exponent: it reads back as the
    /// same decimal.
    pub fn to_text(&self) -> (r: String)
        ensures
            r@ == self.text(),
    {
        let len = digit_count(self.magnitude);
        let mut ds: Vec<char> = Vec::new();
        if len <= self.scale {
            let pad = self.scale - len + 1;
            let mut z: usize = 0;
            while z < pad
                invariant
                    z <= pad,
                    ds@ == zeros(z as nat),
                decreases pad - z,
            {
                ds.push('0');
                z = z + 1;
                assert(ds@ =~= zeros(z as nat));
            }
        }
        push_digits(self.magnitude, &mut ds);
        assert(ds@ =~= self.padded_digits());
        proof {
            lemma_padded_digits(*self);
        }
        let ghost head: Seq<char> = if self.negative {
            seq!['-']
        } else {
            Seq::empty()
        };
        let mut out = String::new();
        if self.negative {
            push_char(&mut out, '-');
        }
        assert(out@ =~= head);
        let n = ds.len();
        let p = n - self.scale;
        let mut i: usize = 0;
        while i < n
            invariant
                n == ds@.len(),
                n >= self.scale + 1,
                p == n - self.scale,
                i <= n,
                i <= p ==> out@ == head + ds@.subrange(0, i as int),
                i > p ==> self.scale > 0 && out@ == head + ds@.subrange(0, p as int) + seq!['.']
                    + ds@.subrange(p as int, i as int),
            decreases n - i,
        {
            if i == p && self.scale > 0 {
                push_char(&mut out, '.');
            }
            push_char(&mut out, ds[i]);
            i = i + 1;
            assert(ds@.subrange(0, i as int) =~= ds@.subrange(0, i - 1).push(ds@[i - 1]));
            if i > p {
                assert(ds@.subrange(p as int, i as int) =~= ds@.subrange(p as int, i - 1).push(
                    ds@[i - 1],
                ));
                assert(ds@.subrange(p as int, p as int) =~= Seq::<char>::empty());
            }
        }
        proof {
            if self.scale == 0 {
                assert(ds@.subrange(0, n as int) =~= ds@);
            }
            if self.negative {
                assert(self.text() =~= out@);
            } else {
                assert(self.text() =~= out@);
            }
        }
        out
    }
}


/// The magnitude `m / 10^s` in hundredths, rounded half away from zero
/// (for `s > 2`).
pub open spec fn rounded_cents(m: nat, s: nat) -> nat {
    let p = pow10((s - 2) as nat);
    m / p + (if 2 * (m % p) >= p {
        1nat
    } else {
        0nat
    })
}

impl Decimal {
    /// The decimal rounded to two places after the point, half away from
    /// zero; one with at most two places is kept as it is.
    pub open spec fn cents_rounded(self) -> Decimal {
        if self.scale <= 2 {
            self
        } else {
            canonical(self.negative, rounded_cents(self.magnitude as nat, self.scale as nat), 2)
        }
    }

    /// Rounds to two places after the point, half away from zero.
    pub fn round_to_cents(&self) -> (r: Decimal)
        requires
            self.wf(),
        ensures
            r == self.cents_rounded(),
            r.wf(),
    {
        if self.scale <= 2 {
            return *self;
        }
        let k = self.scale - 2;
        let m = self.magnitude;
        let cents: u64 = if k >= 20 {
            proof {
                lemma_pow10_add(20, (k - 20) as nat);
                lemma_pow10_pos((k - 20) as nat);
                reveal_with_fuel(pow10, 21);
                assert(pow10(20) == 100000000000000000000nat);
                let p = pow10(k as nat);
                assert(p >= pow10(20)) by (nonlinear_arith)
                    requires
                        p == pow10(20) * pow10((k - 20) as nat),
                        pow10((k - 20) as nat) > 0,
                ;
                vstd::arithmetic::div_mod::lemma_basic_div(m as int, p as int);
                vstd::arithmetic::div_mod::lemma_small_mod(m as nat, p);
            }
            0
        } else {
            proof {
                reveal_with_fuel(pow10, 20);
                assert(pow10(19) == 10000000000000000000nat);
            }
            let mut p: u64 = 1;
            let mut i: usize = 0;
            assert(pow10(0) == 1);
            while i < k
                invariant
                    i <= k <= 19,
                    p == pow10(i as nat),
                    pow10(19) == 10000000000000000000nat,
                decreases k - i,
            {
                proof {
                    lemma_pow10_succ(i as nat);
                    lemma_pow10_add((i + 1) as nat, (19 - (i + 1)) as nat);
                    lemma_pow10_pos((19 - (i + 1)) as nat);
                    assert(pow10((i + 1) as nat) <= pow10(19)) by (nonlinear_arith)
                        requires
                            pow10(19) == pow10((i + 1) as nat) * pow10((19 - (i + 1)) as nat),
                            pow10((19 - (i + 1)) as nat) > 0,
                    ;
                }
                p = p * 10;
                i = i + 1;
            }
            proof {
                lemma_pow10_pos(k as nat);
                lemma_pow10_succ((k - 1) as nat);
                lemma_pow10_pos((k - 1) as nat);
            }
            let q = m / p;
            let rem = m % p;
            if rem >= p - rem {
                assert(q < u64::MAX) by (nonlinear_arith)
                    requires
                        q == m / p,
                        p >= 10,
                        m <= u64::MAX,
                ;
                q + 1
            } else {
                q
            }
        };
        Decimal::new(self.negative, cents, 2)
    }
}

} // verus!
