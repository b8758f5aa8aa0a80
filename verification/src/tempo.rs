//! Tempo and time signatures.
use vstd::prelude::*;
use crate::duration::{abs, Duration, lowest_terms, ratio_new_panics, same_value};
use crate::error::CoreError;
use vstd::arithmetic::div_mod::lemma_fundamental_div_mod;
use crate::text::{
    digit_char, digit_str, lemma_nat_text, lemma_parse_int_text, nat_text, parse_int, parse_u32,
    push_nat, trim, trim_end, trim_start, trim_str, is_space,
};

verus! {

/// Decimal text of `m / 1000` as `Display` writes a float: the integer part,
/// then a point and the thousandths without trailing zeros when there are any.
pub open spec fn milli_text(m: int) -> Seq<char> {
    let a = abs(m) as int;
    let f = a % 1000;
    let sign = if m < 0 { seq!['-'] } else { Seq::<char>::empty() };
    let frac = if f == 0 {
        Seq::<char>::empty()
    } else if f % 100 == 0 {
        seq!['.', digit_char(f / 100)]
    } else if f % 10 == 0 {
        seq!['.', digit_char(f / 100), digit_char((f / 10) % 10)]
    } else {
        seq!['.', digit_char(f / 100), digit_char((f / 10) % 10), digit_char(f % 10)]
    };
    sign + nat_text((a / 1000) as nat) + frac
}

/// `1000 * 2^52`: a value `x` with `mantissa_bound() <= x < 2 * mantissa_bound()`
/// is `1000` times an integer of 53 bits, a double's mantissa.
pub open spec fn mantissa_bound() -> int {
    4_503_599_627_370_496_000
}

/// `x` doubled until it reaches `mantissa_bound()`: for `x = m`, this is
/// `m * 2^k` with `m * 2^k / 1000` in the mantissa range of a double.
pub open spec fn mantissa_scaled(x: int) -> int
    decreases mantissa_bound() - x,
{
    if x <= 0 || x >= mantissa_bound() {
        x
    } else if 2 * x >= mantissa_bound() {
        2 * x
    } else {
        mantissa_scaled(2 * x)
    }
}

/// `m / 100` rounded to an integer as `{:.1}` rounds the double nearest to
/// `m / 1000`: away from the tie when `m` is not one, and at a tie
/// (`m % 100 == 50`) by the side of it that double lies on, which is the
/// rounding of `mantissa_scaled(m) / 1000` to an integer: above the tie
/// when the remainder passes 500, exactly on it when there is no remainder
/// (then ties go to even), below it otherwise.
pub open spec fn tenths_of_milli(m: int) -> int {
    let q = m / 100;
    let r = m % 100;
    if r > 50 {
        q + 1
    } else if r < 50 {
        q
    } else {
        let s = mantissa_scaled(m) % 1000;
        if s > 500 || (s == 0 && q % 2 == 1) { q + 1 } else { q }
    }
}

/// `m / 1000` written with one decimal, as the `{:.1}` format writes the
/// double nearest to it.
pub open spec fn one_decimal_text(m: int) -> Seq<char> {
    let t = tenths_of_milli(m);
    nat_text((t / 10) as nat).push('.').push(digit_char(t % 10))
}

/// `mantissa_scaled(m) % 1000`: which side of `m / 1000` its nearest
/// double lies on.
fn mantissa_remainder(m: u32) -> (r: u32)
    requires
        m >= 1,
    ensures
        r == mantissa_scaled(m as int) % 1000,
{
    let mut x: u128 = m as u128;
    while x < 4_503_599_627_370_496_000u128
        invariant
            1 <= x < 2 * mantissa_bound(),
            mantissa_scaled(x as int) == mantissa_scaled(m as int),
        decreases 2 * mantissa_bound() - x,
    {
        x = x * 2;
    }
    (x % 1000) as u32
}

/// Microseconds per quarter note at `m` thousandths of a beat per minute,
/// rounded half away from zero and saturated to `u32`.
pub open spec fn micros_per_quarter(m: int) -> int {
    let v = (2 * 60_000_000_000 + m) / (2 * m);
    if v > u32::MAX { u32::MAX as int } else { v }
}

/// `2^k`.
pub open spec fn pow2(k: nat) -> nat
    decreases k,
{
    if k == 0 { 1 } else { 2 * pow2((k - 1) as nat) }
}

/// `d` is a power of two (`u32::is_power_of_two`).
pub open spec fn is_pow2(d: int) -> bool {
    exists|k: nat| k < 32 && pow2(k) == d
}

proof fn lemma_pow2_mono(j: nat, k: nat)
    requires
        j <= k,
    ensures
        pow2(j) <= pow2(k),
        pow2(j) >= 1,
    decreases k,
{
    if k > 0 && j < k {
        lemma_pow2_mono(j, (k - 1) as nat);
    }
    if k > 0 && j == k {
        lemma_pow2_mono(0, (k - 1) as nat);
    }
}

/// The two powers of two that bound a `u32`.
proof fn lemma_pow2_31_32()
    ensures
        pow2(31) == 0x8000_0000,
        pow2(32) == 0x1_0000_0000,
{
    reveal_with_fuel(pow2, 33);
}

/// The `k` with `2^k == d` when `d` is a power of two below `2^32`.
pub fn log2_exact(d: u32) -> (r: Option<u32>)
    ensures
        match r {
            Some(k) => k < 32 && pow2(k as nat) == d,
            None => !is_pow2(d as int),
        },
{
    proof {
        lemma_pow2_31_32();
    }
    let mut p: u64 = 1;
    let mut k: u32 = 0;
    while p < d as u64
        invariant
            pow2(31) == 0x8000_0000,
            pow2(32) == 0x1_0000_0000,
            p == pow2(k as nat),
            p >= 1,
            k <= 32,
            forall|j: nat| j < k ==> #[trigger] pow2(j) < d,
            p <= 0x1_0000_0000,
        decreases 0x2_0000_0000 - p,
    {
        proof {
            assert(pow2((k + 1) as nat) == 2 * pow2(k as nat));
            if k >= 32 {
                lemma_pow2_mono(32, k as nat);
            }
            lemma_pow2_mono(k as nat, 31);
        }
        p = p * 2;
        k = k + 1;
    }
    if p == d as u64 {
        proof {
            if k >= 32 {
                lemma_pow2_mono(32, k as nat);
            }
        }
        Some(k)
    } else {
        proof {
            assert forall|j: nat| j < 32 implies #[trigger] pow2(j) != d by {
                if j >= k {
                    lemma_pow2_mono(k as nat, j);
                }
            }
        }
        None
    }
}

/// Musical time signature (4/4, 3/4, 6/8, 7/8, ...).
#[derive(Debug, Clone, Copy, PartialEq, Eq, Structural)]
pub struct TimeSignature {
    pub numerator: u32,
    pub denominator: u32,
}

/// Numbers that `TimeSignature::new` accepts.
pub open spec fn valid_time_signature(numerator: int, denominator: int) -> bool {
    numerator != 0 && denominator != 0 && is_pow2(denominator)
}

impl TimeSignature {
    pub fn four_four() -> (r: TimeSignature)
        ensures
            r == (TimeSignature { numerator: 4, denominator: 4 }),
    {
        TimeSignature { numerator: 4, denominator: 4 }
    }

    pub fn three_four() -> (r: TimeSignature)
        ensures
            r == (TimeSignature { numerator: 3, denominator: 4 }),
    {
        TimeSignature { numerator: 3, denominator: 4 }
    }

    pub fn two_four() -> (r: TimeSignature)
        ensures
            r == (TimeSignature { numerator: 2, denominator: 4 }),
    {
        TimeSignature { numerator: 2, denominator: 4 }
    }

    pub fn five_four() -> (r: TimeSignature)
        ensures
            r == (TimeSignature { numerator: 5, denominator: 4 }),
    {
        TimeSignature { numerator: 5, denominator: 4 }
    }

    pub fn six_eight() -> (r: TimeSignature)
        ensures
            r == (TimeSignature { numerator: 6, denominator: 8 }),
    {
        TimeSignature { numerator: 6, denominator: 8 }
    }

    pub fn seven_eight() -> (r: TimeSignature)
        ensures
            r == (TimeSignature { numerator: 7, denominator: 8 }),
    {
        TimeSignature { numerator: 7, denominator: 8 }
    }

    pub fn five_eight() -> (r: TimeSignature)
        ensures
            r == (TimeSignature { numerator: 5, denominator: 8 }),
    {
        TimeSignature { numerator: 5, denominator: 8 }
    }

    pub fn nine_eight() -> (r: TimeSignature)
        ensures
            r == (TimeSignature { numerator: 9, denominator: 8 }),
    {
        TimeSignature { numerator: 9, denominator: 8 }
    }

    pub fn twelve_eight() -> (r: TimeSignature)
        ensures
            r == (TimeSignature { numerator: 12, denominator: 8 }),
    {
        TimeSignature { numerator: 12, denominator: 8 }
    }

    /// A time signature; the numerator must be positive and the denominator a
    /// power of two.
    pub fn new(numerator: u32, denominator: u32) -> (r: Result<TimeSignature, CoreError>)
        ensures
            r is Ok <==> valid_time_signature(numerator as int, denominator as int),
            r matches Ok(ts) ==> ts == (TimeSignature { numerator, denominator }),
            r matches Err(e) ==> e == (CoreError::InvalidTimeSignature { numerator, denominator }),
    {
        if numerator == 0 || denominator == 0 || log2_exact(denominator).is_none() {
            return Err(CoreError::InvalidTimeSignature { numerator, denominator });
        }
        Ok(TimeSignature { numerator, denominator })
    }

    /// Length of one full measure, as a fraction of a whole note
    /// (`numerator/denominator`, each taken as an `i32`).
    pub fn measure_duration(&self) -> (r: Duration)
        requires
            !ratio_new_panics(self.numerator as i32 as int, self.denominator as i32 as int),
        ensures
            lowest_terms(r@.0, r@.1),
            same_value(r@.0, r@.1, self.numerator as i32 as int, self.denominator as i32 as int),
    {
        Duration::new(self.numerator as i32, self.denominator as i32)
    }

    /// Compound meter: eighth-note denominator, numerator a multiple of 3 from 6 up.
    pub fn is_compound(&self) -> (r: bool)
        ensures
            r == (self.denominator == 8 && self.numerator % 3 == 0 && self.numerator >= 6),
    {
        self.denominator == 8 && (self.numerator % 3 == 0) && self.numerator >= 6
    }

    /// Odd meter: 5/8, 7/8 or 11/8.
    pub fn is_asymmetric(&self) -> (r: bool)
        ensures
            r == (self.denominator == 8 && (self.numerator == 5 || self.numerator == 7
                || self.numerator == 11)),
    {
        self.denominator == 8 && (self.numerator == 5 || self.numerator == 7 || self.numerator == 11)
    }
}


/// Musical tempo, kept in thousandths of a beat (quarter note) per minute.
#[derive(Debug, Clone, Copy, PartialEq, Eq, Structural)]
pub struct Tempo {
    milli_bpm: u32,
}

impl View for Tempo {
    type V = int;

    closed spec fn view(&self) -> int {
        self.milli_bpm as int
    }
}

/// Appends `m / 1000` in decimal, as `milli_text` describes.
fn push_milli(out: &mut String, m: i64)
    ensures
        final(out)@ == old(out)@ + milli_text(m as int),
{
    proof {
        reveal_strlit("-");
        reveal_strlit(".");
    }
    if m < 0 {
        out.append("-");
    }
    let a: u64 = if m < 0 { (0 - (m as i128)) as u64 } else { m as u64 };
    push_nat(out, a / 1000);
    let f = a % 1000;
    if f != 0 {
        out.append(".");
        out.append(digit_str(f / 100));
        if f % 100 != 0 {
            out.append(digit_str((f / 10) % 10));
            if f % 10 != 0 {
                out.append(digit_str(f % 10));
            }
        }
    }
    assert(out@ =~= old(out)@ + milli_text(m as int));
}

impl Tempo {
    #[verifier::type_invariant]
    spec fn inv(self) -> bool {
        1 <= self.milli_bpm <= 1_000_000
    }

    /// A tempo of `milli_bpm / 1000` beats per minute; it must lie in
    /// `(0, 1000]` BPM. The error message shows the refused BPM value.
    pub fn from_milli_bpm(milli_bpm: i64) -> (r: Result<Tempo, CoreError>)
        ensures
            r is Ok <==> 1 <= milli_bpm <= 1_000_000,
            r matches Ok(t) ==> t@ == milli_bpm,
            r matches Err(e) ==> e matches CoreError::InvalidPitchNotation(m) && m@ == "Invalid BPM: "@
                + milli_text(milli_bpm as int),
    {
        if milli_bpm <= 0 || milli_bpm > 1_000_000 {
            let mut m = String::from_str("Invalid BPM: ");
            push_milli(&mut m, milli_bpm);
            return Err(CoreError::InvalidPitchNotation(m));
        }
        Ok(Tempo { milli_bpm: milli_bpm as u32 })
    }

    /// Thousandths of a beat per minute.
    pub fn milli_bpm(&self) -> (r: u32)
        ensures
            r == self@,
            1 <= r <= 1_000_000,
    {
        proof {
            use_type_invariant(self);
        }
        self.milli_bpm
    }

    /// Length of a quarter note in microseconds (the MIDI tempo value).
    pub fn quarter_note_micros(&self) -> (r: u32)
        ensures
            r == micros_per_quarter(self@),
    {
        proof {
            use_type_invariant(self);
        }
        let m = self.milli_bpm as u64;
        let v = (2 * 60_000_000_000u64 + m) / (2 * m);
        if v > 0xffff_ffff {
            0xffff_ffff
        } else {
            v as u32
        }
    }

    /// The BPM with one decimal, e.g. "140.0".
    pub fn bpm_text(&self) -> (r: String)
        ensures
            r@ == one_decimal_text(self@),
    {
        proof {
            use_type_invariant(self);
            reveal_strlit(".");
        }
        let m = self.milli_bpm as u64;
        let q = m / 100;
        let rem = m % 100;
        let t = if rem > 50 {
            q + 1
        } else if rem < 50 {
            q
        } else {
            let s = mantissa_remainder(self.milli_bpm);
            if s > 500 || (s == 0 && q % 2 == 1) { q + 1 } else { q }
        };
        let mut out = String::new();
        push_nat(&mut out, t / 10);
        out.append(".");
        out.append(digit_str(t % 10));
        assert(out@ =~= one_decimal_text(self@));
        out
    }

    /// The BPM with one decimal and the unit, e.g. "120.0 BPM".
    pub fn to_string(&self) -> (r: String)
        ensures
            r@ == one_decimal_text(self@) + " BPM"@,
    {
        let mut out = self.bpm_text();
        out.append(" BPM");
        out
    }
}

impl Default for Tempo {
    /// 120 beats per minute.
    fn default() -> (r: Tempo)
        ensures
            r@ == 120_000,
    {
        Tempo { milli_bpm: 120_000 }
    }
}

/// `t` holds exactly one `/`, at `i`.
pub open spec fn single_slash(t: Seq<char>, i: int) -> bool {
    &&& 0 <= i < t.len()
    &&& t[i] == '/'
    &&& forall|j: int| 0 <= j < t.len() && j != i ==> t[j] != '/'
}

/// Outcome of reading time-signature text.
pub enum TimeSignatureText {
    Value(int, int),
    /// Not exactly one `/`.
    BadFormat,
    /// The part before the `/` is not a `u32`.
    BadNumerator(Seq<char>),
    /// The part after the `/` is not a `u32`.
    BadDenominator(Seq<char>),
    /// Both parts are numbers that `TimeSignature::new` refuses.
    Invalid(int, int),
}

/// Time-signature text: surrounding whitespace, then `numerator/denominator`.
pub open spec fn parse_time_signature(s: Seq<char>) -> TimeSignatureText {
    let t = trim(s);
    if exists|i: int| single_slash(t, i) {
        let i = choose|i: int| single_slash(t, i);
        let a = t.take(i);
        let b = t.skip(i + 1);
        match parse_int(a, false, 0, 0xffff_ffff) {
            None => TimeSignatureText::BadNumerator(a),
            Some(n) => match parse_int(b, false, 0, 0xffff_ffff) {
                None => TimeSignatureText::BadDenominator(b),
                Some(d) => if valid_time_signature(n, d) {
                    TimeSignatureText::Value(n, d)
                } else {
                    TimeSignatureText::Invalid(n, d)
                },
            },
        }
    } else {
        TimeSignatureText::BadFormat
    }
}

/// The text `numerator/denominator`.
pub open spec fn time_signature_text(n: int, d: int) -> Seq<char> {
    nat_text(n as nat) + seq!['/'] + nat_text(d as nat)
}

pub open spec fn quoted(s: Seq<char>) -> Seq<char> {
    seq!['\''] + s + seq!['\'']
}

impl TimeSignature {
    /// Reads `numerator/denominator` text such as "6/8", ignoring surrounding
    /// whitespace.
    pub fn from_str(s: &str) -> (r: Result<TimeSignature, CoreError>)
        ensures
            match parse_time_signature(s@) {
                TimeSignatureText::Value(n, d) => r == Ok::<TimeSignature, CoreError>(
                    TimeSignature { numerator: n as u32, denominator: d as u32 },
                ),
                TimeSignatureText::BadFormat => r matches Err(CoreError::InvalidPitchNotation(m))
                    && m@ == "Invalid time signature format (expected e.g. 4/4 or 6/8): "@ + quoted(s@),
                TimeSignatureText::BadNumerator(a) => r matches Err(CoreError::InvalidPitchNotation(m))
                    && m@ == "Invalid numerator: "@ + quoted(a),
                TimeSignatureText::BadDenominator(b) => r matches Err(
                    CoreError::InvalidPitchNotation(m),
                ) && m@ == "Invalid denominator: "@ + quoted(b),
                TimeSignatureText::Invalid(n, d) => r == Err::<TimeSignature, CoreError>(
                    CoreError::InvalidTimeSignature { numerator: n as u32, denominator: d as u32 },
                ),
            },
    {
        proof {
            reveal_strlit("'");
        }
        let t = trim_str(s);
        let n = t.unicode_len();
        let mut count: usize = 0;
        let mut at: usize = 0;
        let mut i: usize = 0;
        while i < n
            invariant
                n == t@.len(),
                i <= n,
                count <= i,
                count == 0 ==> forall|j: int| 0 <= j < i ==> t@[j] != '/',
                count == 1 ==> at < i && t@[at as int] == '/' && forall|j: int|
                    0 <= j < i && j != at ==> t@[j] != '/',
                count >= 2 ==> exists|j: int, k: int|
                    0 <= j < k < i && t@[j] == '/' && t@[k] == '/',
            decreases n - i,
        {
            if t.get_char(i) == '/' {
                if count == 1 {
                    assert(t@[at as int] == '/' && t@[i as int] == '/');
                }
                if count == 0 {
                    at = i;
                }
                if count < 2 {
                    count = count + 1;
                }
            }
            i = i + 1;
        }
        if count != 1 {
            proof {
                if count >= 2 {
                    let (j, k) = choose|j: int, k: int|
                        0 <= j < k < n && t@[j] == '/' && t@[k] == '/';
                    assert forall|x: int| !single_slash(t@, x) by {
                        if single_slash(t@, x) {
                            assert(j == x);
                            assert(k == x);
                        }
                    }
                }
            }
            let mut m = String::from_str("Invalid time signature format (expected e.g. 4/4 or 6/8): ");
            m.append("'");
            m.append(s);
            m.append("'");
            assert(m@ =~= "Invalid time signature format (expected e.g. 4/4 or 6/8): "@ + quoted(s@));
            return Err(CoreError::InvalidPitchNotation(m));
        }
        assert(single_slash(t@, at as int));
        assert(forall|x: int| single_slash(t@, x) ==> x == at);
        let a = t.substring_char(0, at);
        let b = t.substring_char(at + 1, n);
        assert(a@ =~= t@.take(at as int));
        assert(b@ =~= t@.skip(at + 1));
        let numerator = match parse_u32(a) {
            None => {
                let mut m = String::from_str("Invalid numerator: ");
                m.append("'");
                m.append(a);
                m.append("'");
                assert(m@ =~= "Invalid numerator: "@ + quoted(a@));
                return Err(CoreError::InvalidPitchNotation(m));
            },
            Some(v) => v,
        };
        let denominator = match parse_u32(b) {
            None => {
                let mut m = String::from_str("Invalid denominator: ");
                m.append("'");
                m.append(b);
                m.append("'");
                assert(m@ =~= "Invalid denominator: "@ + quoted(b@));
                return Err(CoreError::InvalidPitchNotation(m));
            },
            Some(v) => v,
        };
        Self::new(numerator, denominator)
    }

    /// The text `numerator/denominator`, e.g. "7/8".
    pub fn to_string(&self) -> (r: String)
        ensures
            r@ == time_signature_text(self.numerator as int, self.denominator as int),
    {
        proof {
            reveal_strlit("/");
        }
        let mut out = String::new();
        push_nat(&mut out, self.numerator as u64);
        out.append("/");
        push_nat(&mut out, self.denominator as u64);
        assert(out@ =~= time_signature_text(self.numerator as int, self.denominator as int));
        out
    }
}

impl Default for TimeSignature {
    /// Common time, 4/4.
    fn default() -> (r: TimeSignature)
        ensures
            r == (TimeSignature { numerator: 4, denominator: 4 }),
    {
        TimeSignature::four_four()
    }
}

/// Reading the text that `TimeSignature::to_string` writes gives back the
/// time signature, for every signature that `TimeSignature::new` accepts.
pub proof fn lemma_time_signature_text_roundtrip(n: int, d: int)
    requires
        0 <= n <= u32::MAX,
        0 <= d <= u32::MAX,
        valid_time_signature(n, d),
    ensures
        parse_time_signature(time_signature_text(n, d)) == TimeSignatureText::Value(n, d),
{
    let a = nat_text(n as nat);
    let b = nat_text(d as nat);
    let t = time_signature_text(n, d);
    lemma_nat_text(n as nat);
    lemma_nat_text(d as nat);
    assert(t[0] == a[0]);
    assert(t.last() == b.last());
    assert(crate::text::is_digit(a[0]));
    assert(crate::text::is_digit(b[b.len() - 1]));
    assert(!is_space(t[0]));
    assert(!is_space(t.last()));
    assert(trim_start(t) == t);
    assert(trim_end(t) == t);
    let i = a.len() as int;
    assert(single_slash(t, i)) by {
        assert forall|j: int| 0 <= j < t.len() && j != i implies t[j] != '/' by {
            if j < i {
                assert(t[j] == a[j]);
                assert(crate::text::is_digit(a[j]));
            } else {
                assert(t[j] == b[j - i - 1]);
                assert(crate::text::is_digit(b[j - i - 1]));
            }
        }
    }
    assert(forall|x: int| single_slash(t, x) ==> x == i);
    assert(t.take(i) =~= a);
    assert(t.skip(i + 1) =~= b);
    lemma_parse_int_text(n, false, 0, 0xffff_ffff);
    lemma_parse_int_text(d, false, 0, 0xffff_ffff);
}

/// The MIDI tempo is a minute divided by the tempo, rounded: at `m`
/// thousandths of a BPM (from 14 up, where it fits a `u32`) the microseconds
/// per quarter note `v` satisfy `|v * m - 60_000_000_000| <= m / 2`; below
/// 14 the value saturates at `u32::MAX`.
pub proof fn lemma_micros_per_quarter_rounds(m: int)
    requires
        1 <= m <= 1_000_000,
    ensures
        ({
            let v = micros_per_quarter(m);
            &&& m >= 14 ==> 2 * v * m - m <= 120_000_000_000 && 120_000_000_000 < 2 * v * m + m
            &&& m < 14 ==> v == u32::MAX
        }),
{
    let n = 2 * 60_000_000_000 + m;
    let q = n / (2 * m);
    lemma_fundamental_div_mod(n, 2 * m);
    let r = n % (2 * m);
    assert(0 <= r < 2 * m);
    assert(n == 2 * m * q + r);
    if m >= 14 {
        assert(q <= 4_285_714_286) by (nonlinear_arith)
            requires
                n == 2 * m * q + r,
                0 <= r,
                m >= 14,
                n == 120_000_000_000 + m,
                m <= 1_000_000,
        ;
        assert(micros_per_quarter(m) == q);
        assert(2 * q * m - m <= 120_000_000_000 && 120_000_000_000 < 2 * q * m + m) by (nonlinear_arith)
            requires
                n == 2 * m * q + r,
                0 <= r < 2 * m,
                n == 120_000_000_000 + m,
        ;
    } else {
        assert(q > u32::MAX) by (nonlinear_arith)
            requires
                n == 2 * m * q + r,
                0 <= r < 2 * m,
                1 <= m < 14,
                n == 120_000_000_000 + m,
        ;
    }
}

} // verus!
