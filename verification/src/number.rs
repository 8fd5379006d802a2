//! Decimal numerals: reading them from text and writing them back.
//!
//! A text writes a number if it is an optional sign followed by `inf`,
//! `infinity` or `nan` in any case, or by a decimal numeral: digits with an
//! optional point among them, at least one digit, and an optional exponent,
//! `e` or `E` with an optional sign and digits. Quantities that are not
//! whole numbers are kept to eighteen decimal places.

use vstd::prelude::*;
use vstd::string::*;
use crate::text::{chars_of, trim, trimmed};

verus! {

/// Whether `c` is one of `0` to `9`.
pub open spec fn is_digit(c: char) -> bool {
    48 <= c as u32 <= 57
}

/// The number that the digit `c` stands for.
pub open spec fn digit_value(c: char) -> nat {
    (c as u32 - 48) as nat
}

/// The character that writes the digit `d`.
pub open spec fn digit_char(d: nat) -> char {
    ((48 + d) as u8) as char
}

/// Whether every character of `s` is a digit.
pub open spec fn all_digits(s: Seq<char>) -> bool {
    forall|i: int| 0 <= i < s.len() ==> is_digit(#[trigger] s[i])
}

/// The number written by a run of digits.
pub open spec fn digits_value(s: Seq<char>) -> nat
    decreases s.len(),
{
    if s.len() == 0 {
        0
    } else {
        digits_value(s.drop_last()) * 10 + digit_value(s.last())
    }
}

/// The position of the first `a` or `b` in `s`, or the length of `s` if it
/// has neither.
pub open spec fn mark_at(s: Seq<char>, a: char, b: char) -> int
    decreases s.len(),
{
    if s.len() == 0 || s[0] == a || s[0] == b {
        0
    } else {
        1 + mark_at(s.drop_first(), a, b)
    }
}

/// Whether `s` is the lower-case `word` with each letter in either case.
pub open spec fn spells(s: Seq<char>, word: Seq<char>) -> bool {
    &&& s.len() == word.len()
    &&& forall|i: int|
        0 <= i < s.len() ==> (#[trigger] s[i]) == word[i] || s[i] as u32 + 32 == word[i] as u32
}

/// `s` after its sign, if it has one.
pub open spec fn unsigned_part(s: Seq<char>) -> Seq<char> {
    if s.len() > 0 && (s[0] == '-' || s[0] == '+') {
        s.drop_first()
    } else {
        s
    }
}

/// Whether `s` begins with a minus sign.
pub open spec fn has_minus(s: Seq<char>) -> bool {
    s.len() > 0 && s[0] == '-'
}

/// The integer that a sign and at least one digit write.
pub open spec fn signed_digits(s: Seq<char>) -> Option<int> {
    let d = unsigned_part(s);
    if d.len() > 0 && all_digits(d) {
        Some(
            if has_minus(s) {
                -(digits_value(d) as int)
            } else {
                digits_value(d) as int
            },
        )
    } else {
        None
    }
}

/// A decimal numeral taken apart: the digits before and after the point,
/// and the power of ten that the exponent names.
pub struct Numeral {
    pub negative: bool,
    pub whole: Seq<char>,
    pub fraction: Seq<char>,
    pub exponent: int,
}

/// What a text writes.
pub enum Number {
    Finite(Numeral),
    Infinite { negative: bool },
    Undefined,
}

/// The numeral that `body` writes after its sign, if it writes one.
pub open spec fn numeral(body: Seq<char>, negative: bool) -> Option<Numeral> {
    let q = mark_at(body, 'e', 'E');
    let mantissa = body.take(q);
    let p = mark_at(mantissa, '.', '.');
    let whole = mantissa.take(p);
    let fraction = if p < mantissa.len() {
        mantissa.skip(p + 1)
    } else {
        Seq::empty()
    };
    let exponent = if q < body.len() {
        signed_digits(body.skip(q + 1))
    } else {
        Some(0int)
    };
    if all_digits(whole) && all_digits(fraction) && whole.len() + fraction.len() > 0
        && exponent is Some {
        Some(Numeral { negative, whole, fraction, exponent: exponent->0 })
    } else {
        None
    }
}

/// The number that `s` writes, if it writes one.
pub open spec fn number(s: Seq<char>) -> Option<Number> {
    let body = unsigned_part(s);
    if spells(body, "inf"@) || spells(body, "infinity"@) {
        Some(Number::Infinite { negative: has_minus(s) })
    } else if spells(body, "nan"@) {
        Some(Number::Undefined)
    } else {
        match numeral(body, has_minus(s)) {
            Some(n) => Some(Number::Finite(n)),
            None => None,
        }
    }
}

/// Ten to the power `k`.
pub open spec fn pow10(k: nat) -> nat
    decreases k,
{
    if k == 0 {
        1
    } else {
        10 * pow10((k - 1) as nat)
    }
}

/// The number written by the digits of `d` that stand left of position
/// `p`: nothing when `p` is not positive, and followed by zeros when `p`
/// lies beyond the digits.
pub open spec fn shifted(d: Seq<char>, p: int) -> nat {
    if p <= 0 {
        0
    } else if p <= d.len() {
        digits_value(d.take(p))
    } else {
        digits_value(d) * pow10((p - d.len()) as nat)
    }
}

/// The digit of `d` at position `p`, zero outside the digits.
pub open spec fn digit_at(d: Seq<char>, p: int) -> nat {
    if 0 <= p < d.len() {
        digit_value(d[p])
    } else {
        0
    }
}

/// `shifted(d, p)`, one more if the digit at `p` is five or more.
pub open spec fn rounded(d: Seq<char>, p: int) -> nat {
    shifted(d, p) + if digit_at(d, p) >= 5 {
        1nat
    } else {
        0nat
    }
}

/// `v` held between `lo` and `hi`.
pub open spec fn clamp(v: int, lo: int, hi: int) -> int {
    if v < lo {
        lo
    } else if v > hi {
        hi
    } else {
        v
    }
}

/// `t`, negated if `negative`.
pub open spec fn signed(negative: bool, t: nat) -> int {
    if negative {
        -(t as int)
    } else {
        t as int
    }
}

impl Numeral {
    /// All digits of the numeral, the point left out.
    pub open spec fn digits(self) -> Seq<char> {
        self.whole + self.fraction
    }

    /// Where the point stands among the digits once the exponent has
    /// moved it.
    pub open spec fn point(self) -> int {
        self.whole.len() + self.exponent
    }

    /// The numeral's value with the fraction dropped.
    pub open spec fn whole_value(self) -> int {
        signed(self.negative, shifted(self.digits(), self.point()))
    }

    /// The numeral's value counted in units of ten to the power minus
    /// `places`, rounded to the nearest unit, halves away from zero.
    pub open spec fn scaled_value(self, places: nat) -> int {
        signed(self.negative, rounded(self.digits(), self.point() + places))
    }
}

impl Number {
    /// The number with its fraction dropped, held between `lo` and `hi`.
    /// An infinite number lies at the bound on its side; an undefined one
    /// counts as zero.
    pub open spec fn whole_within(self, lo: int, hi: int) -> int {
        match self {
            Number::Finite(n) => clamp(n.whole_value(), lo, hi),
            Number::Infinite { negative } => if negative {
                lo
            } else {
                hi
            },
            Number::Undefined => clamp(0, lo, hi),
        }
    }

    /// The number counted in units of ten to the power minus `places`,
    /// rounded, and held between `lo` and `hi`. An infinite number lies at
    /// the bound on its side; an undefined one counts as zero.
    pub open spec fn scaled_within(self, places: nat, lo: int, hi: int) -> int {
        match self {
            Number::Finite(n) => clamp(n.scaled_value(places), lo, hi),
            Number::Infinite { negative } => if negative {
                lo
            } else {
                hi
            },
            Number::Undefined => clamp(0, lo, hi),
        }
    }
}

/// Whether the trimmed text writes a number.
pub open spec fn reads_number(s: Seq<char>) -> bool {
    number(trimmed(s)) is Some
}

/// The whole number that the trimmed text writes, fraction dropped, held
/// between `lo` and `hi`.
pub open spec fn whole_of(s: Seq<char>, lo: int, hi: int) -> Option<int> {
    match number(trimmed(s)) {
        Some(n) => Some(n.whole_within(lo, hi)),
        None => None,
    }
}

/// The count of units of ten to the power minus eighteen that the trimmed
/// text writes, rounded to the nearest and held within the range of `i128`.
pub open spec fn units_of(s: Seq<char>) -> Option<int> {
    match number(trimmed(s)) {
        Some(n) => Some(n.scaled_within(18, i128::MIN as int, i128::MAX as int)),
        None => None,
    }
}

/// The decimal digits of `n`, most significant first.
pub open spec fn nat_text(n: nat) -> Seq<char>
    decreases n,
{
    if n < 10 {
        seq![digit_char(n)]
    } else {
        nat_text(n / 10).push(digit_char(n % 10))
    }
}

/// How many decimal places a quantity keeps.
pub const PLACES: u8 = 18;

/// How many units make one: ten to the power `PLACES`.
pub const UNIT: u128 = 1_000_000_000_000_000_000;

/// The first `places` decimal places of `f` units of ten to the power
/// minus `places`, up to the last that is not zero.
pub open spec fn fraction_digits(f: nat, places: nat) -> Seq<char>
    decreases places,
{
    if f == 0 || places == 0 {
        Seq::empty()
    } else {
        let unit = pow10((places - 1) as nat);
        seq![digit_char(f / unit)] + fraction_digits(f % unit, (places - 1) as nat)
    }
}

/// The shortest decimal writing of `t` units: a minus sign if negative,
/// the whole part, and the fraction after a point if there is one.
pub open spec fn decimal_text(t: int) -> Seq<char> {
    let a = if t < 0 {
        -t
    } else {
        t
    };
    let sign = if t < 0 {
        seq!['-']
    } else {
        Seq::empty()
    };
    let fraction = if a % (UNIT as int) == 0 {
        Seq::empty()
    } else {
        seq!['.'] + fraction_digits((a % (UNIT as int)) as nat, PLACES as nat)
    };
    sign + nat_text((a / (UNIT as int)) as nat) + fraction
}

/// A quantity with eighteen decimal places, held as a count of units of ten
/// to the power minus eighteen.
#[derive(Clone, Copy, Debug, PartialEq, Eq, Structural)]
pub struct Decimal {
    pub units: i128,
}

/// The largest number that reading keeps apart from larger ones: two to
/// the power 127, one beyond the range of `i128`.
const READ_LIMIT: u128 = 170_141_183_460_469_231_731_687_303_715_884_105_728;

/// The largest exponent that reading keeps apart from larger ones.
const EXPONENT_LIMIT: u128 = 10_000_000_000_000_000_000_000_000;

/// What reading a text yields. For a numeral: its sign, its digits, and
/// where the point stands among them.
enum Scanned {
    Finite { negative: bool, digits: Vec<char>, point: i128 },
    Infinite { negative: bool },
    Undefined,
}

/// Whether two positions of the point give the same reading of `len`
/// digits: they are the same, or both lie far to one side of the digits.
spec fn alike(p: int, q: int, len: int) -> bool {
    ||| p == q
    ||| p > len + 60 && q > len + 60
    ||| p < -60 && q < -60
}

/// `t` held at `READ_LIMIT`.
spec fn capped(t: nat) -> nat {
    if t < READ_LIMIT {
        t
    } else {
        READ_LIMIT as nat
    }
}

/// Whether `c` is a digit.
fn char_is_digit(c: char) -> (b: bool)
    ensures
        b == is_digit(c),
{
    let n: u32 = c as u32;
    48 <= n && n <= 57
}

/// The number that the digit `c` stands for.
fn char_digit(c: char) -> (d: u8)
    requires
        is_digit(c),
    ensures
        d == digit_value(c),
        d <= 9,
{
    let n: u32 = c as u32;
    (n - 48) as u8
}

/// The character that writes the digit `d`.
fn digit_to_char(d: u8) -> (c: char)
    requires
        d <= 9,
    ensures
        c == digit_char(d as nat),
{
    (48u8 + d) as char
}

proof fn lemma_mark_skip(s: Seq<char>, a: char, b: char, i: int)
    requires
        0 <= i <= s.len(),
        forall|k: int| 0 <= k < i ==> #[trigger] s[k] != a && s[k] != b,
    ensures
        mark_at(s, a, b) == i + mark_at(s.skip(i), a, b),
    decreases i,
{
    if i == 0 {
        assert(s.skip(0) =~= s);
    } else {
        assert(s[0] != a && s[0] != b);
        assert forall|k: int| 0 <= k < i - 1 implies #[trigger] s.drop_first()[k] != a
            && s.drop_first()[k] != b by {
            assert(s.drop_first()[k] == s[k + 1]);
        }
        lemma_mark_skip(s.drop_first(), a, b, i - 1);
        assert(s.drop_first().skip(i - 1) =~= s.skip(i));
    }
}

proof fn lemma_digits_push(s: Seq<char>, c: char)
    ensures
        digits_value(s.push(c)) == digits_value(s) * 10 + digit_value(c),
{
    assert(s.push(c).drop_last() =~= s);
}

proof fn lemma_pow10_grows(j: nat, k: nat)
    requires
        j <= k,
    ensures
        0 < pow10(j) <= pow10(k),
    decreases k,
{
    if k == 0 {
    } else if j == k {
        lemma_pow10_grows((k - 1) as nat, (k - 1) as nat);
    } else {
        lemma_pow10_grows(j, (k - 1) as nat);
    }
}

proof fn lemma_pow10_39()
    ensures
        pow10(39) == 1_000_000_000_000_000_000_000_000_000_000_000_000_000,
{
    reveal_with_fuel(pow10, 11);
    assert(pow10(10) == 10_000_000_000);
    assert(pow10(20) == 100_000_000_000_000_000_000);
    assert(pow10(30) == 1_000_000_000_000_000_000_000_000_000_000);
}

/// Far beyond the digits the point gives nothing or more than is kept
/// apart; far before them it gives nothing.
proof fn lemma_far(d: Seq<char>, p: int)
    ensures
        p > d.len() + 39 ==> digit_at(d, p) == 0 && capped(shifted(d, p)) == if digits_value(d)
            == 0 {
            0nat
        } else {
            READ_LIMIT as nat
        },
        p < 0 ==> digit_at(d, p) == 0 && shifted(d, p) == 0,
{
    if p > d.len() + 39 {
        let k = (p - d.len()) as nat;
        let v = digits_value(d);
        lemma_pow10_grows(39, k);
        lemma_pow10_39();
        if v > 0 {
            assert(v * pow10(k) >= pow10(k)) by (nonlinear_arith)
                requires
                    v >= 1,
                    pow10(k) > 0,
            ;
        } else {
            assert(v * pow10(k) == 0) by (nonlinear_arith)
                requires
                    v == 0,
            ;
        }
    }
}

proof fn lemma_alike(d: Seq<char>, p: int, q: int, k: int)
    requires
        alike(p, q, d.len() as int),
        0 <= k <= 18,
    ensures
        capped(shifted(d, p + k)) == capped(shifted(d, q + k)),
        digit_at(d, p + k) == digit_at(d, q + k),
{
    lemma_far(d, p + k);
    lemma_far(d, q + k);
}

/// Where the first `a` or `b` stands in `v[from..to]`, or `to` if neither
/// occurs there.
fn find_mark(v: &Vec<char>, from: usize, to: usize, a: char, b: char) -> (at: usize)
    requires
        from <= to <= v.len(),
    ensures
        from <= at <= to,
        at - from == mark_at(v@.subrange(from as int, to as int), a, b),
{
    let ghost s = v@.subrange(from as int, to as int);
    let mut i: usize = from;
    while i < to && v[i] != a && v[i] != b
        invariant
            from <= i <= to <= v.len(),
            s == v@.subrange(from as int, to as int),
            forall|k: int| 0 <= k < i - from ==> #[trigger] s[k] != a && s[k] != b,
        decreases to - i,
    {
        assert(s[i - from] == v@[i as int]);
        i += 1;
    }
    proof {
        lemma_mark_skip(s, a, b, i - from);
        if i < to {
            assert(s.skip(i - from)[0] == v@[i as int]);
        }
    }
    i
}

/// Whether `v[from..to]` holds digits only.
fn digits_only(v: &Vec<char>, from: usize, to: usize) -> (r: bool)
    requires
        from <= to <= v.len(),
    ensures
        r == all_digits(v@.subrange(from as int, to as int)),
{
    let ghost s = v@.subrange(from as int, to as int);
    let mut i: usize = from;
    while i < to
        invariant
            from <= i <= to <= v.len(),
            s == v@.subrange(from as int, to as int),
            forall|k: int| 0 <= k < i - from ==> is_digit(#[trigger] s[k]),
        decreases to - i,
    {
        if !char_is_digit(v[i]) {
            assert(s[i - from] == v@[i as int]);
            return false;
        }
        assert(s[i - from] == v@[i as int]);
        i += 1;
    }
    true
}

/// Whether `v[from..]` spells `word`, letters in either case.
fn spells_word(v: &Vec<char>, from: usize, word: &str) -> (r: bool)
    requires
        from <= v.len(),
    ensures
        r == spells(v@.skip(from as int), word@),
{
    let w = chars_of(word);
    if v.len() - from != w.len() {
        return false;
    }
    let ghost s = v@.skip(from as int);
    let mut i: usize = 0;
    while i < w.len()
        invariant
            i <= w.len(),
            from + w.len() == v.len(),
            w@ == word@,
            s == v@.skip(from as int),
            forall|k: int|
                0 <= k < i ==> (#[trigger] s[k]) == w@[k] || s[k] as u32 + 32 == w@[k] as u32,
        decreases w.len() - i,
    {
        let c: u32 = v[from + i] as u32;
        let l: u32 = w[i] as u32;
        assert(s[i as int] == v@[from + i]);
        if !(v[from + i] == w[i] || (c < l && l - c == 32)) {
            return false;
        }
        i += 1;
    }
    true
}

/// The number that the digits `v[from..to]` write, held at `cap`.
fn digits_capped(v: &Vec<char>, from: usize, to: usize, cap: u128) -> (w: u128)
    requires
        from <= to <= v.len(),
        all_digits(v@.subrange(from as int, to as int)),
        cap >= 10,
    ensures
        w == if digits_value(v@.subrange(from as int, to as int)) < cap {
            digits_value(v@.subrange(from as int, to as int))
        } else {
            cap as nat
        },
{
    let mut i: usize = from;
    let mut w: u128 = 0;
    while i < to
        invariant
            from <= i <= to <= v.len(),
            all_digits(v@.subrange(from as int, to as int)),
            cap >= 10,
            w == if digits_value(v@.subrange(from as int, i as int)) < cap {
                digits_value(v@.subrange(from as int, i as int))
            } else {
                cap as nat
            },
        decreases to - i,
    {
        proof {
            let before = v@.subrange(from as int, i as int);
            assert(v@.subrange(from as int, i + 1) =~= before.push(v@[i as int]));
            lemma_digits_push(before, v@[i as int]);
            assert(v@.subrange(from as int, to as int)[i - from] == v@[i as int]);
        }
        let d = char_digit(v[i]) as u128;
        if w >= cap || w > (cap - d) / 10 {
            w = cap;
        } else {
            w = w * 10 + d;
        }
        i += 1;
    }
    w
}

/// The number written by the digits left of position `p`, held at
/// `READ_LIMIT`.
fn capped_shift(d: &Vec<char>, p: i128) -> (w: u128)
    requires
        all_digits(d@),
    ensures
        w == capped(shifted(d@, p as int)),
{
    if p <= 0 {
        return 0;
    }
    let n = d.len();
    if p <= n as i128 {
        let upto: usize = p as usize;
        assert(d@.take(upto as int) =~= d@.subrange(0, upto as int));
        assert forall|k: int| 0 <= k < upto implies is_digit(
            #[trigger] d@.subrange(0, upto as int)[k],
        ) by {
            assert(d@.subrange(0, upto as int)[k] == d@[k]);
        }
        return digits_capped(d, 0, upto, READ_LIMIT);
    }
    assert(d@.subrange(0, n as int) =~= d@);
    let mut w = digits_capped(d, 0, n, READ_LIMIT);
    let extra: i128 = p - n as i128;
    let ghost value = digits_value(d@);
    let mut k: i128 = 0;
    assert(value * pow10(0) == value) by (nonlinear_arith)
        requires
            pow10(0) == 1,
    ;
    while k < extra && w != 0 && w < READ_LIMIT
        invariant
            0 <= k <= extra,
            value == digits_value(d@),
            w == capped(value * pow10(k as nat)),
        decreases extra - k,
    {
        proof {
            let now = pow10(k as nat);
            assert(pow10((k + 1) as nat) == 10 * now);
            assert(value * (10 * now) == (value * now) * 10) by (nonlinear_arith);
        }
        if w > READ_LIMIT / 10 {
            w = READ_LIMIT;
        } else {
            w = w * 10;
        }
        k += 1;
    }
    proof {
        let now = pow10(k as nat);
        let all = pow10(extra as nat);
        lemma_pow10_grows(k as nat, extra as nat);
        if k < extra {
            if w == 0 {
                assert(value == 0) by (nonlinear_arith)
                    requires
                        value * now == 0,
                        now > 0,
                ;
                assert(value * all == 0) by (nonlinear_arith)
                    requires
                        value == 0,
                ;
            } else {
                assert(value * all >= value * now) by (nonlinear_arith)
                    requires
                        all >= now,
                        value >= 0,
                ;
            }
        }
    }
    w
}

/// The digit at position `p`, zero outside the digits.
fn digit_near(d: &Vec<char>, p: i128) -> (r: u8)
    requires
        all_digits(d@),
    ensures
        r == digit_at(d@, p as int),
        r <= 9,
{
    if 0 <= p && p < d.len() as i128 {
        char_digit(d[p as usize])
    } else {
        0
    }
}

/// `t`, known only held at `READ_LIMIT`, with its sign and held between
/// `lo` and `hi`.
fn hold(negative: bool, w: u128, lo: i128, hi: i128, Ghost(t): Ghost<nat>) -> (r: i128)
    requires
        w == capped(t),
    ensures
        r == clamp(signed(negative, t), lo as int, hi as int),
{
    if w >= READ_LIMIT {
        if negative {
            lo
        } else {
            hi
        }
    } else {
        let m: i128 = if negative {
            -(w as i128)
        } else {
            w as i128
        };
        if m < lo {
            lo
        } else if m > hi {
            hi
        } else {
            m
        }
    }
}

/// Zero held between `lo` and `hi`.
fn hold_zero(lo: i128, hi: i128) -> (r: i128)
    ensures
        r == clamp(0, lo as int, hi as int),
{
    if 0 < lo {
        lo
    } else if 0 > hi {
        hi
    } else {
        0
    }
}

/// The sign and digits in `v[from..]`, held at `EXPONENT_LIMIT` either
/// way. `None` when they are no sign and digits.
fn read_exponent(v: &Vec<char>, from: usize) -> (r: Option<i128>)
    requires
        from <= v.len(),
    ensures
        r is Some <==> signed_digits(v@.skip(from as int)) is Some,
        r matches Some(e) ==> e == clamp(
            signed_digits(v@.skip(from as int))->0,
            -(EXPONENT_LIMIT as int),
            EXPONENT_LIMIT as int,
        ),
{
    let n = v.len();
    let ghost s = v@.skip(from as int);
    let minus = from < n && v[from] == '-';
    let start: usize = if from < n && (v[from] == '-' || v[from] == '+') {
        from + 1
    } else {
        from
    };
    proof {
        if from < n {
            assert(s[0] == v@[from as int]);
        }
        assert(unsigned_part(s) =~= v@.subrange(start as int, n as int));
    }
    if start == n || !digits_only(v, start, n) {
        return None;
    }
    let w = digits_capped(v, start, n, EXPONENT_LIMIT);
    if minus {
        Some(-(w as i128))
    } else {
        Some(w as i128)
    }
}

/// The characters `v[a..b]` followed by `v[c..d]`.
fn gather(v: &Vec<char>, a: usize, b: usize, c: usize, d: usize) -> (r: Vec<char>)
    requires
        a <= b <= v.len(),
        c <= d <= v.len(),
    ensures
        r@ == v@.subrange(a as int, b as int) + v@.subrange(c as int, d as int),
{
    let mut r: Vec<char> = Vec::new();
    let mut i: usize = a;
    while i < b
        invariant
            a <= i <= b <= v.len(),
            r@ == v@.subrange(a as int, i as int),
        decreases b - i,
    {
        r.push(v[i]);
        i += 1;
    }
    i = c;
    assert(r@ =~= v@.subrange(a as int, b as int) + v@.subrange(c as int, c as int));
    while i < d
        invariant
            c <= i <= d <= v.len(),
            r@ == v@.subrange(a as int, b as int) + v@.subrange(c as int, i as int),
        decreases d - i,
    {
        r.push(v[i]);
        assert(r@ =~= v@.subrange(a as int, b as int) + v@.subrange(c as int, i + 1));
        i += 1;
    }
    r
}

/// Reads the numeral that `v[start..]` writes.
fn read_numeral(v: &Vec<char>, start: usize, negative: bool) -> (r: Option<Scanned>)
    requires
        start <= v.len(),
    ensures
        match numeral(v@.skip(start as int), negative) {
            None => r is None,
            Some(n) => {
                &&& r matches Some(Scanned::Finite { negative: sign, digits, point })
                &&& sign == negative
                &&& digits@ == n.digits()
                &&& all_digits(digits@)
                &&& alike(point as int, n.point(), digits@.len() as int)
                &&& -2 * EXPONENT_LIMIT < point < 2 * EXPONENT_LIMIT
            },
        },
{
    let n = v.len();
    let ghost body = v@.skip(start as int);
    assert(body =~= v@.subrange(start as int, n as int));
    let q = find_mark(v, start, n, 'e', 'E');
    let ghost mantissa = body.take(q - start);
    assert(mantissa =~= v@.subrange(start as int, q as int));
    let p = find_mark(v, start, q, '.', '.');
    let first: usize = if p < q {
        p + 1
    } else {
        q
    };
    proof {
        assert(mantissa.take(p - start) =~= v@.subrange(start as int, p as int));
        if p < q {
            assert(mantissa.skip(p - start + 1) =~= v@.subrange(first as int, q as int));
        } else {
            assert(Seq::<char>::empty() =~= v@.subrange(first as int, q as int));
        }
    }
    if !digits_only(v, start, p) || !digits_only(v, first, q) || (p - start) + (q - first) == 0 {
        return None;
    }
    let exponent: Option<i128> = if q < n {
        assert(body.skip(q - start + 1) =~= v@.skip(q + 1));
        read_exponent(v, q + 1)
    } else {
        Some(0)
    };
    match exponent {
        None => None,
        Some(e) => {
            let digits = gather(v, start, p, first, q);
            let point: i128 = (p - start) as i128 + e;
            Some(Scanned::Finite { negative, digits, point })
        },
    }
}

/// Reads the number that `v` writes.
fn read_number(v: &Vec<char>) -> (r: Option<Scanned>)
    ensures
        match number(v@) {
            None => r is None,
            Some(Number::Undefined) => r matches Some(Scanned::Undefined),
            Some(Number::Infinite { negative }) => r matches Some(Scanned::Infinite { negative: b })
                && b == negative,
            Some(Number::Finite(n)) => {
                &&& r matches Some(Scanned::Finite { negative, digits, point })
                &&& negative == n.negative
                &&& digits@ == n.digits()
                &&& all_digits(digits@)
                &&& alike(point as int, n.point(), digits@.len() as int)
                &&& -2 * EXPONENT_LIMIT < point < 2 * EXPONENT_LIMIT
            },
        },
{
    let n = v.len();
    let negative = n > 0 && v[0] == '-';
    let start: usize = if n > 0 && (v[0] == '-' || v[0] == '+') {
        1
    } else {
        0
    };
    assert(unsigned_part(v@) =~= v@.skip(start as int));
    if spells_word(v, start, "inf") || spells_word(v, start, "infinity") {
        return Some(Scanned::Infinite { negative });
    }
    if spells_word(v, start, "nan") {
        return Some(Scanned::Undefined);
    }
    read_numeral(v, start, negative)
}

/// Reads the whole number that `s` writes, dropping any fraction and
/// holding the result between `lo` and `hi`. `None` when `s`, trimmed,
/// writes no number.
pub fn parse_whole(s: &str, lo: i128, hi: i128) -> (r: Option<i128>)
    ensures
        r is Some <==> whole_of(s@, lo as int, hi as int) is Some,
        r matches Some(v) ==> Some(v as int) == whole_of(s@, lo as int, hi as int),
{
    let t = trim(s);
    let v = chars_of(t.as_str());
    match read_number(&v) {
        None => None,
        Some(Scanned::Undefined) => Some(hold_zero(lo, hi)),
        Some(Scanned::Infinite { negative }) => Some(
            if negative {
                lo
            } else {
                hi
            },
        ),
        Some(Scanned::Finite { negative, digits, point }) => {
            let ghost n = number(v@)->0->Finite_0;
            proof {
                lemma_alike(digits@, point as int, n.point(), 0);
            }
            let w = capped_shift(&digits, point);
            Some(hold(negative, w, lo, hi, Ghost(shifted(n.digits(), n.point()))))
        },
    }
}

/// Reads the number that `s` writes in units of ten to the power minus
/// `places`, rounded, and held between `lo` and `hi`.
fn parse_scaled(s: &str, places: u8, lo: i128, hi: i128) -> (r: Option<i128>)
    requires
        places <= 18,
    ensures
        match number(trimmed(s@)) {
            Some(n) => r matches Some(v) && v == n.scaled_within(
                places as nat,
                lo as int,
                hi as int,
            ),
            None => r is None,
        },
{
    let t = trim(s);
    let v = chars_of(t.as_str());
    match read_number(&v) {
        None => None,
        Some(Scanned::Undefined) => Some(hold_zero(lo, hi)),
        Some(Scanned::Infinite { negative }) => Some(
            if negative {
                lo
            } else {
                hi
            },
        ),
        Some(Scanned::Finite { negative, digits, point }) => {
            let ghost n = number(v@)->0->Finite_0;
            proof {
                lemma_alike(digits@, point as int, n.point(), places as int);
            }
            let at: i128 = point + places as i128;
            let floor = capped_shift(&digits, at);
            let up: u128 = if digit_near(&digits, at) >= 5 {
                1
            } else {
                0
            };
            let w: u128 = if floor >= READ_LIMIT {
                READ_LIMIT
            } else {
                floor + up
            };
            Some(hold(negative, w, lo, hi, Ghost(rounded(n.digits(), n.point() + places))))
        },
    }
}

/// Appends the decimal digits of `n` to `s`.
pub fn push_nat(s: &mut String, n: u128)
    ensures
        final(s)@ == old(s)@ + nat_text(n as nat),
    decreases n,
{
    if n >= 10 {
        push_nat(s, n / 10);
    }
    let d = digit_to_char((n % 10) as u8);
    s.push(d);
    assert(s@ =~= old(s)@ + nat_text(n as nat));
}

/// The decimal digits of `n`.
pub fn nat_to_text(n: u128) -> (r: String)
    ensures
        r@ == nat_text(n as nat),
{
    let mut r = String::new();
    push_nat(&mut r, n);
    assert(r@ =~= nat_text(n as nat));
    r
}

proof fn lemma_pow10_18()
    ensures
        pow10(18) == UNIT,
{
    reveal_with_fuel(pow10, 10);
    assert(pow10(9) == 1_000_000_000);
}

/// Ten to the power `k`.
fn power_of_ten(k: u8) -> (r: u128)
    requires
        k <= 18,
    ensures
        r == pow10(k as nat),
        0 < r <= UNIT,
{
    let mut r: u128 = 1;
    let mut i: u8 = 0;
    while i < k
        invariant
            i <= k <= 18,
            r == pow10(i as nat),
            0 < r <= UNIT,
        decreases k - i,
    {
        proof {
            lemma_pow10_grows((i + 1) as nat, 18);
            lemma_pow10_18();
        }
        r = r * 10;
        i += 1;
    }
    r
}

/// Appends the decimal places of `f` to `s`, up to the last that is not
/// zero.
fn push_fraction(s: &mut String, f: u128, places: u8)
    requires
        places <= 18,
        f < pow10(places as nat),
    ensures
        final(s)@ == old(s)@ + fraction_digits(f as nat, places as nat),
    decreases places,
{
    if f == 0 || places == 0 {
        assert(s@ =~= old(s)@ + fraction_digits(f as nat, places as nat));
        return ;
    }
    let unit = power_of_ten(places - 1);
    assert(f / unit < 10 && f % unit < unit) by (nonlinear_arith)
        requires
            f < 10 * unit,
            unit > 0,
    ;
    let d = digit_to_char((f / unit) as u8);
    s.push(d);
    push_fraction(s, f % unit, places - 1);
    assert(s@ =~= old(s)@ + fraction_digits(f as nat, places as nat));
}

impl Decimal {
    /// The quantity in units of ten to the power minus eighteen.
    pub open spec fn units(self) -> int {
        self.units as int
    }

    /// The decimal that `s` writes, rounded to eighteen places and held
    /// within the range of `i128`. `None` when `s`, trimmed, writes no
    /// number.
    pub fn parse(s: &str) -> (r: Option<Decimal>)
        ensures
            r is Some <==> units_of(s@) is Some,
            r matches Some(d) ==> d.units() == units_of(s@)->0,
    {
        match parse_scaled(s, PLACES, i128::MIN, i128::MAX) {
            Some(t) => Some(Decimal { units: t }),
            None => None,
        }
    }

    /// The shortest decimal writing of the quantity.
    pub fn to_text(&self) -> (r: String)
        ensures
            r@ == decimal_text(self.units()),
    {
        let t = self.units;
        let mut r = String::new();
        let a: u128 = if t < 0 {
            r.push('-');
            (-(t + 1)) as u128 + 1
        } else {
            t as u128
        };
        push_nat(&mut r, a / UNIT);
        let f: u128 = a % UNIT;
        if f != 0 {
            r.push('.');
            proof {
                lemma_pow10_18();
            }
            push_fraction(&mut r, f, PLACES);
        }
        assert(r@ =~= decimal_text(t as int));
        r
    }
}

} // verus!
