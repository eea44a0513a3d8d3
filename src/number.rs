use vstd::prelude::*;

verus! {

/// Number of units in one: a finite number is held as a count of millionths.
pub const SCALE: i64 = 1000000;

/// Integer part beyond which a literal can no longer be finite.
const INT_CAP: u64 = 10000000000000;

/// A number of the language: a fixed-point decimal with six fractional digits, or one of the
/// non-finite values that arithmetic reaches on overflow and division by zero.
#[derive(Clone, Copy, Debug)]
pub enum Number {
    /// `units / SCALE`.
    Finite(i64),
    PosInf,
    NegInf,
    NaN,
}

/// The number holding `v` units; values out of range become the infinity of their sign.
pub open spec fn from_units(v: int) -> Number {
    if v > i64::MAX {
        Number::PosInf
    } else if v < i64::MIN {
        Number::NegInf
    } else {
        Number::Finite(v as i64)
    }
}

/// Division of `x` by a positive `d`, rounded toward zero.
pub open spec fn trunc_div(x: int, d: int) -> int {
    if x >= 0 {
        x / d
    } else {
        -((-x) / d)
    }
}

pub open spec fn num_neg(a: Number) -> Number {
    match a {
        Number::Finite(u) => from_units(-(u as int)),
        Number::PosInf => Number::NegInf,
        Number::NegInf => Number::PosInf,
        Number::NaN => Number::NaN,
    }
}

pub open spec fn num_add(a: Number, b: Number) -> Number {
    match (a, b) {
        (Number::Finite(x), Number::Finite(y)) => from_units(x + y),
        (Number::NaN, _) => Number::NaN,
        (_, Number::NaN) => Number::NaN,
        (Number::PosInf, Number::NegInf) => Number::NaN,
        (Number::NegInf, Number::PosInf) => Number::NaN,
        (Number::PosInf, _) => Number::PosInf,
        (Number::NegInf, _) => Number::NegInf,
        (_, Number::PosInf) => Number::PosInf,
        (_, Number::NegInf) => Number::NegInf,
    }
}

pub open spec fn num_sub(a: Number, b: Number) -> Number {
    match (a, b) {
        (Number::Finite(x), Number::Finite(y)) => from_units(x - y),
        _ => num_add(a, num_neg(b)),
    }
}

/// -1, 0 or 1: the sign of a number that is not NaN.
pub open spec fn sign_of(a: Number) -> int {
    match a {
        Number::Finite(u) => if u > 0 { 1 } else if u < 0 { -1 } else { 0 },
        Number::PosInf => 1,
        Number::NegInf => -1,
        Number::NaN => 0,
    }
}

pub open spec fn infinity_of_sign(s: int) -> Number {
    if s > 0 {
        Number::PosInf
    } else if s < 0 {
        Number::NegInf
    } else {
        Number::NaN
    }
}

pub open spec fn num_mul(a: Number, b: Number) -> Number {
    match (a, b) {
        (Number::Finite(x), Number::Finite(y)) => from_units(trunc_div(x * y, SCALE as int)),
        (Number::NaN, _) => Number::NaN,
        (_, Number::NaN) => Number::NaN,
        _ => infinity_of_sign(sign_of(a) * sign_of(b)),
    }
}

pub open spec fn num_div(a: Number, b: Number) -> Number {
    match (a, b) {
        (Number::Finite(x), Number::Finite(y)) => if y > 0 {
            from_units(trunc_div(x * SCALE, y as int))
        } else if y < 0 {
            from_units(trunc_div(-(x * SCALE), -(y as int)))
        } else {
            infinity_of_sign(sign_of(a))
        },
        (Number::NaN, _) => Number::NaN,
        (_, Number::NaN) => Number::NaN,
        (Number::Finite(_), _) => Number::Finite(0),
        (_, Number::Finite(_)) => if sign_of(b) >= 0 {
            a
        } else {
            num_neg(a)
        },
        _ => Number::NaN,
    }
}

/// The position of a number that is not NaN on the extended line.
pub open spec fn rank(a: Number) -> int {
    match a {
        Number::Finite(u) => u as int,
        Number::PosInf => i64::MAX + 1,
        Number::NegInf => i64::MIN - 1,
        Number::NaN => 0,
    }
}

pub open spec fn num_lt(a: Number, b: Number) -> bool {
    !(a is NaN) && !(b is NaN) && rank(a) < rank(b)
}

pub open spec fn num_le(a: Number, b: Number) -> bool {
    !(a is NaN) && !(b is NaN) && rank(a) <= rank(b)
}

/// Equality of numbers: NaN equals nothing, itself included.
pub open spec fn num_eq(a: Number, b: Number) -> bool {
    !(a is NaN) && !(b is NaN) && rank(a) == rank(b)
}

fn from_wide(v: i128) -> (r: Number)
    ensures
        r == from_units(v as int),
{
    if v > i64::MAX as i128 {
        Number::PosInf
    } else if v < i64::MIN as i128 {
        Number::NegInf
    } else {
        Number::Finite(v as i64)
    }
}

fn div_toward_zero(x: i128, d: i128) -> (r: i128)
    requires
        d > 0,
        x > i128::MIN,
    ensures
        r == trunc_div(x as int, d as int),
{
    if x >= 0 {
        x / d
    } else {
        let m: i128 = -x;
        let q: i128 = m / d;
        proof {
            assert(0 <= q <= m) by (nonlinear_arith)
                requires q == m / d, m > 0, d > 0;
        }
        -q
    }
}

impl Number {
    pub fn negated(self) -> (r: Number)
        ensures
            r == num_neg(self),
    {
        match self {
            Number::Finite(u) => from_wide(-(u as i128)),
            Number::PosInf => Number::NegInf,
            Number::NegInf => Number::PosInf,
            Number::NaN => Number::NaN,
        }
    }

    pub fn plus(self, o: Number) -> (r: Number)
        ensures
            r == num_add(self, o),
    {
        match (self, o) {
            (Number::Finite(x), Number::Finite(y)) => from_wide(x as i128 + y as i128),
            (Number::NaN, _) => Number::NaN,
            (_, Number::NaN) => Number::NaN,
            (Number::PosInf, Number::NegInf) => Number::NaN,
            (Number::NegInf, Number::PosInf) => Number::NaN,
            (Number::PosInf, _) => Number::PosInf,
            (Number::NegInf, _) => Number::NegInf,
            (_, Number::PosInf) => Number::PosInf,
            (_, Number::NegInf) => Number::NegInf,
        }
    }

    pub fn minus(self, o: Number) -> (r: Number)
        ensures
            r == num_sub(self, o),
    {
        match (self, o) {
            (Number::Finite(x), Number::Finite(y)) => from_wide(x as i128 - y as i128),
            _ => self.plus(o.negated()),
        }
    }

    fn sign(self) -> (r: i8)
        ensures
            r as int == sign_of(self),
    {
        match self {
            Number::Finite(u) => if u > 0 { 1 } else if u < 0 { -1 } else { 0 },
            Number::PosInf => 1,
            Number::NegInf => -1,
            Number::NaN => 0,
        }
    }

    fn infinity(s: i8) -> (r: Number)
        ensures
            r == infinity_of_sign(s as int),
    {
        if s > 0 {
            Number::PosInf
        } else if s < 0 {
            Number::NegInf
        } else {
            Number::NaN
        }
    }

    pub fn times(self, o: Number) -> (r: Number)
        ensures
            r == num_mul(self, o),
    {
        match (self, o) {
            (Number::Finite(x), Number::Finite(y)) => {
                proof {
                    assert(i128::MIN < x * y <= i128::MAX) by (nonlinear_arith)
                        requires i64::MIN <= x <= i64::MAX, i64::MIN <= y <= i64::MAX;
                }
                let p: i128 = x as i128 * y as i128;
                let q = div_toward_zero(p, SCALE as i128);
                from_wide(q)
            },
            (Number::NaN, _) => Number::NaN,
            (_, Number::NaN) => Number::NaN,
            _ => {
                let s: i8 = self.sign() * o.sign();
                Number::infinity(s)
            },
        }
    }

    pub fn divided_by(self, o: Number) -> (r: Number)
        ensures
            r == num_div(self, o),
    {
        match (self, o) {
            (Number::Finite(x), Number::Finite(y)) => {
                let p: i128 = x as i128 * SCALE as i128;
                if y > 0 {
                    from_wide(div_toward_zero(p, y as i128))
                } else if y < 0 {
                    from_wide(div_toward_zero(-p, -(y as i128)))
                } else {
                    Number::infinity(self.sign())
                }
            },
            (Number::NaN, _) => Number::NaN,
            (_, Number::NaN) => Number::NaN,
            (Number::Finite(_), _) => Number::Finite(0),
            (_, Number::Finite(_)) => if o.sign() >= 0 {
                self
            } else {
                self.negated()
            },
            _ => Number::NaN,
        }
    }

    fn rank_of(self) -> (r: i128)
        requires
            !(self is NaN),
        ensures
            r as int == rank(self),
    {
        match self {
            Number::Finite(u) => u as i128,
            Number::PosInf => i64::MAX as i128 + 1,
            Number::NegInf => i64::MIN as i128 - 1,
            Number::NaN => 0,
        }
    }

    pub fn less_than(self, o: Number) -> (r: bool)
        ensures
            r == num_lt(self, o),
    {
        if self.is_nan() || o.is_nan() {
            false
        } else {
            self.rank_of() < o.rank_of()
        }
    }

    pub fn at_most(self, o: Number) -> (r: bool)
        ensures
            r == num_le(self, o),
    {
        if self.is_nan() || o.is_nan() {
            false
        } else {
            self.rank_of() <= o.rank_of()
        }
    }

    pub fn equals(self, o: Number) -> (r: bool)
        ensures
            r == num_eq(self, o),
    {
        if self.is_nan() || o.is_nan() {
            false
        } else {
            self.rank_of() == o.rank_of()
        }
    }

    pub fn is_nan(self) -> (r: bool)
        ensures
            r == (self is NaN),
    {
        match self {
            Number::NaN => true,
            _ => false,
        }
    }
}

pub open spec fn digit_char(d: int) -> char {
    (d + '0' as int) as char
}

pub open spec fn is_digit(c: char) -> bool {
    '0' <= c && c <= '9'
}

pub open spec fn digit_value(c: char) -> int {
    c as int - '0' as int
}

/// Decimal digits of `n`, most significant first, without leading zeros.
pub open spec fn dec_digits(n: nat) -> Seq<char>
    decreases n,
{
    if n < 10 {
        seq![digit_char(n as int)]
    } else {
        dec_digits(n / 10).push(digit_char((n % 10) as int))
    }
}

/// The last `k` decimal digits of `f`, zero padded.
pub open spec fn fixed_digits(f: nat, k: nat) -> Seq<char>
    decreases k,
{
    if k == 0 {
        Seq::empty()
    } else {
        fixed_digits(f / 10, (k - 1) as nat).push(digit_char((f % 10) as int))
    }
}

pub open spec fn strip_zeros(s: Seq<char>) -> Seq<char>
    decreases s.len(),
{
    if s.len() > 0 && s.last() == '0' {
        strip_zeros(s.drop_last())
    } else {
        s
    }
}

/// How a number is displayed: integer part, then the fractional digits without trailing zeros.
pub open spec fn num_text(a: Number) -> Seq<char> {
    match a {
        Number::NaN => seq!['N', 'a', 'N'],
        Number::PosInf => seq!['i', 'n', 'f'],
        Number::NegInf => seq!['-', 'i', 'n', 'f'],
        Number::Finite(u) => {
            let m: nat = (if u < 0 { -(u as int) } else { u as int }) as nat;
            let sign = if u < 0 { seq!['-'] } else { Seq::empty() };
            let ip = dec_digits(m / (SCALE as nat));
            let fp = m % (SCALE as nat);
            if fp == 0 {
                sign + ip
            } else {
                sign + ip + seq!['.'] + strip_zeros(fixed_digits(fp, 6))
            }
        },
    }
}

pub fn push_digits(n: u64, out: &mut Vec<char>)
    ensures
        final(out)@ == old(out)@ + dec_digits(n as nat),
    decreases n,
{
    if n >= 10 {
        push_digits(n / 10, out);
    }
    let d: u32 = (n % 10) as u32;
    let c: char = char_of_digit(d);
    out.push(c);
    proof {
        if n < 10 {
            assert(old(out)@ + dec_digits(n as nat) =~= old(out)@.push(c));
        } else {
            assert(old(out)@ + dec_digits((n / 10) as nat) + seq![c] =~= old(out)@
                + dec_digits(n as nat));
        }
    }
}

fn push_fixed(f: u64, k: u64, out: &mut Vec<char>)
    requires
        k <= 6,
    ensures
        final(out)@ == old(out)@ + fixed_digits(f as nat, k as nat),
    decreases k,
{
    if k == 0 {
        assert(old(out)@ + fixed_digits(f as nat, 0) =~= old(out)@);
        return;
    }
    push_fixed(f / 10, k - 1, out);
    let c: char = char_of_digit((f % 10) as u32);
    out.push(c);
    proof {
        assert(old(out)@ + fixed_digits((f / 10) as nat, (k - 1) as nat) + seq![c] =~= old(out)@
            + fixed_digits(f as nat, k as nat));
    }
}

fn char_of_digit(d: u32) -> (c: char)
    requires
        d < 10,
    ensures
        c == digit_char(d as int),
{
    match d {
        0 => '0',
        1 => '1',
        2 => '2',
        3 => '3',
        4 => '4',
        5 => '5',
        6 => '6',
        7 => '7',
        8 => '8',
        _ => '9',
    }
}

impl Number {
    /// Appends the display text of this number to `out`.
    pub fn write_to(self, out: &mut Vec<char>)
        ensures
            final(out)@ == old(out)@ + num_text(self),
    {
        match self {
            Number::NaN => {
                out.push('N');
                out.push('a');
                out.push('N');
                assert(final(out)@ =~= old(out)@ + num_text(self));
            },
            Number::PosInf => {
                out.push('i');
                out.push('n');
                out.push('f');
                assert(final(out)@ =~= old(out)@ + num_text(self));
            },
            Number::NegInf => {
                out.push('-');
                out.push('i');
                out.push('n');
                out.push('f');
                assert(final(out)@ =~= old(out)@ + num_text(self));
            },
            Number::Finite(u) => {
                let m: u64 = if u < 0 {
                    (-(u as i128)) as u64
                } else {
                    u as u64
                };
                if u < 0 {
                    out.push('-');
                }
                let ghost signed = out@;
                push_digits(m / (SCALE as u64), out);
                let fp: u64 = m % (SCALE as u64);
                if fp != 0 {
                    let ghost before_dot = out@;
                    out.push('.');
                    let mut frac: Vec<char> = Vec::new();
                    push_fixed(fp, 6, &mut frac);
                    assert(frac@ =~= fixed_digits(fp as nat, 6));
                    while frac.len() > 0 && frac[frac.len() - 1] == '0'
                        invariant
                            strip_zeros(frac@) == strip_zeros(fixed_digits(fp as nat, 6)),
                        decreases frac@.len(),
                    {
                        frac.pop();
                    }
                    let mut i: usize = 0;
                    let ghost base = out@;
                    while i < frac.len()
                        invariant
                            i <= frac@.len(),
                            out@ == base + frac@.subrange(0, i as int),
                        decreases frac@.len() - i,
                    {
                        out.push(frac[i]);
                        i = i + 1;
                        assert(out@ =~= base + frac@.subrange(0, i as int));
                    }
                    assert(frac@.subrange(0, frac@.len() as int) =~= frac@);
                    assert(strip_zeros(frac@) == frac@);
                }
                assert(final(out)@ =~= old(out)@ + num_text(self));
            },
        }
    }
}

/// Value of a run of decimal digits, most significant first.
pub open spec fn digits_value(s: Seq<char>) -> int
    decreases s.len(),
{
    if s.len() == 0 {
        0
    } else {
        digits_value(s.drop_last()) * 10 + digit_value(s.last())
    }
}

/// The first six fractional digits, zero padded.
pub open spec fn frac_window(f: Seq<char>) -> Seq<char> {
    Seq::new(6, |j: int| if j < f.len() { f[j] } else { '0' })
}

/// The number that the literal `ip.fp` (or `ip` alone, with `fp` empty) denotes; digits beyond the
/// sixth fractional one are dropped.
pub open spec fn decimal_of(ip: Seq<char>, fp: Seq<char>) -> Number {
    from_units(digits_value(ip) * SCALE + digits_value(frac_window(fp)))
}

pub open spec fn pow10(n: nat) -> int
    decreases n,
{
    if n == 0 {
        1
    } else {
        10 * pow10((n - 1) as nat)
    }
}

fn digit_at(s: &Vec<char>, i: usize) -> (d: u64)
    requires
        i < s@.len(),
        is_digit(s@[i as int]),
    ensures
        d as int == digit_value(s@[i as int]),
        d < 10,
{
    (s[i] as u32 - '0' as u32) as u64
}

impl Number {
    /// The number written by the digits `s[lo..mid]`, followed, where `flo < hi`, by the
    /// fractional digits `s[flo..hi]`.
    pub fn parse_decimal(s: &Vec<char>, lo: usize, mid: usize, flo: usize, hi: usize) -> (r: Number)
        requires
            lo <= mid <= flo <= hi <= s@.len(),
            forall|i: int| lo <= i < mid ==> is_digit(#[trigger] s@[i]),
            forall|i: int| flo <= i < hi ==> is_digit(#[trigger] s@[i]),
        ensures
            r == decimal_of(s@.subrange(lo as int, mid as int), s@.subrange(flo as int, hi as int)),
    {
        let ghost ip = s@.subrange(lo as int, mid as int);
        let ghost fs = s@.subrange(flo as int, hi as int);
        let mut acc: u64 = 0;
        let mut i: usize = lo;
        assert(s@.subrange(lo as int, lo as int) =~= Seq::<char>::empty());
        while i < mid
            invariant
                lo <= i <= mid <= s@.len(),
                forall|k: int| lo <= k < mid ==> is_digit(#[trigger] s@[k]),
                digits_value(s@.subrange(lo as int, i as int)) >= 0,
                acc <= INT_CAP,
                acc < INT_CAP ==> acc == digits_value(s@.subrange(lo as int, i as int)),
                acc == INT_CAP ==> digits_value(s@.subrange(lo as int, i as int)) >= INT_CAP,
            decreases mid - i,
        {
            let d = digit_at(s, i);
            proof {
                assert(s@.subrange(lo as int, i + 1).drop_last() =~= s@.subrange(lo as int, i as int));
            }
            if acc < INT_CAP {
                let n: u64 = acc * 10 + d;
                acc = if n < INT_CAP { n } else { INT_CAP };
            }
            i = i + 1;
        }
        assert(s@.subrange(lo as int, mid as int) == ip);
        let mut facc: u64 = 0;
        let mut j: usize = 0;
        let ghost win = frac_window(fs);
        assert(win.subrange(0, 0) =~= Seq::<char>::empty());
        while j < 6
            invariant
                j <= 6,
                flo <= hi <= s@.len(),
                forall|k: int| flo <= k < hi ==> is_digit(#[trigger] s@[k]),
                fs == s@.subrange(flo as int, hi as int),
                win == frac_window(fs),
                facc as int == digits_value(win.subrange(0, j as int)),
                facc < pow10(j as nat),
                pow10(j as nat) <= 1000000,
            decreases 6 - j,
        {
            let d: u64 = if j < hi - flo {
                digit_at(s, flo + j)
            } else {
                0
            };
            proof {
                assert(win.subrange(0, j + 1).drop_last() =~= win.subrange(0, j as int));
                assert(win[j as int] == if j < fs.len() { fs[j as int] } else { '0' });
                assert(pow10((j + 1) as nat) == 10 * pow10(j as nat));
                assert(pow10((j + 1) as nat) <= 1000000) by {
                    reveal_with_fuel(pow10, 7);
                }
                assert(facc * 10 + d < 10 * pow10(j as nat)) by (nonlinear_arith)
                    requires facc < pow10(j as nat), d < 10;
            }
            facc = facc * 10 + d;
            j = j + 1;
        }
        assert(win.subrange(0, 6) =~= win);
        let units: i128 = acc as i128 * SCALE as i128 + facc as i128;
        proof {
            let v = digits_value(ip);
            if acc == INT_CAP {
                assert(v * SCALE + facc >= INT_CAP * SCALE) by (nonlinear_arith)
                    requires v >= INT_CAP, facc >= 0;
            }
        }
        from_wide(units)
    }
}

} // verus!
