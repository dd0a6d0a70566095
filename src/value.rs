//! The tagged value type and its coercion rules.
//!
//! Integer and boolean operands are computed here exactly. Whenever one operand is a
//! float, the coercion rules promote the operation to binary64; such an operation is
//! described as a `FloatCall` for the host to carry out.
use vstd::arithmetic::div_mod::{lemma_mul_mod_noop_left, lemma_mul_mod_noop_right};
use vstd::prelude::*;

verus! {

/// Mask that clears the sign bit of a binary64 bit pattern.
pub const MAGNITUDE_MASK: u64 = 0x7fff_ffff_ffff_ffff;

/// A value of the expression language. `FVal` holds the bit pattern of a binary64 float.
#[derive(Debug, Clone)]
pub enum EVar {
    SVal(String),
    IVal(i64),
    FVal(u64),
    BVal(bool),
}

/// An operation carried out in binary64 arithmetic by the host.
///
/// Both operands are first converted to binary64: an integer exactly as `i as f64`, a
/// boolean as `0.0` or `1.0`, a float as itself, and a string by parsing the whole text
/// as a float (`NaN` when it does not parse). Unary operations ignore `rhs`.
#[derive(Debug, Clone, Copy, PartialEq, Eq, Structural)]
pub enum FloatOp {
    /// `lhs + rhs`, a float.
    Add,
    /// `lhs - rhs`, a float.
    Sub,
    /// `lhs * rhs`, a float.
    Mul,
    /// `lhs / rhs`, a float.
    Div,
    /// `lhs == rhs`, a boolean.
    Eq,
    /// `lhs != rhs`, a boolean.
    Ne,
    /// `lhs <= rhs`, a boolean.
    Le,
    /// `lhs < rhs`, a boolean.
    Lt,
    /// `lhs >= rhs`, a boolean.
    Ge,
    /// `lhs > rhs`, a boolean.
    Gt,
    /// `rhs` if `rhs > lhs`, else `lhs`; a float.
    Max,
    /// `rhs` if `rhs < lhs`, else `lhs`; a float.
    Min,
    /// `lhs.powf(rhs)`, a float.
    PowF,
    /// `lhs.powi(n as i32)` where `rhs` is the integer `n`; a float.
    PowI,
    /// `lhs.sin()`, a float.
    Sin,
    /// `lhs.cos()`, a float.
    Cos,
    /// `lhs.tan()`, a float.
    Tan,
    /// `lhs.exp()`, a float.
    Exp,
    /// `lhs.ln()`, a float.
    Ln,
    /// `lhs.log10()`, a float.
    Log10,
    /// `lhs.sqrt()`, a float.
    Sqrt,
    /// `lhs.cbrt()`, a float.
    Cbrt,
    /// `lhs as i64` (toward zero, saturating, `NaN` gives 0), an integer.
    Trunc,
    /// `lhs` itself, as a float.
    ToFloat,
}

/// A binary64 operation requested from the host, with its operands.
#[derive(Debug, Clone)]
pub struct FloatCall {
    pub op: FloatOp,
    pub lhs: EVar,
    pub rhs: EVar,
}

/// The outcome of a value operation: a value computed here, or a float operation for
/// the host whose answer is the operation's value.
#[derive(Debug, Clone)]
pub enum Calc {
    Val(EVar),
    Host(FloatCall),
}

/// Whether a binary64 bit pattern compares equal to `0.0` (both signed zeros do).
pub open spec fn float_is_zero(bits: u64) -> bool {
    bits & MAGNITUDE_MASK == 0
}

/// Wraps an unbounded integer into the two's-complement range of `i64`.
pub open spec fn wrap_i64(x: int) -> i64 {
    let m = x % 0x1_0000_0000_0000_0000;
    if m > i64::MAX {
        (m - 0x1_0000_0000_0000_0000) as i64
    } else {
        m as i64
    }
}

pub open spec fn bool_as_int(b: bool) -> i64 {
    if b {
        1
    } else {
        0
    }
}

pub open spec fn is_ascii_digit(c: char) -> bool {
    '0' <= c && c <= '9'
}

/// The value of a hexadecimal digit, or 16 for any other character.
pub open spec fn hex_digit_value(c: char) -> int {
    if '0' <= c && c <= '9' {
        c as int - '0' as int
    } else if 'a' <= c && c <= 'f' {
        c as int - 'a' as int + 10
    } else if 'A' <= c && c <= 'F' {
        c as int - 'A' as int + 10
    } else {
        16
    }
}

/// The value of a digit in base `radix` (10 or 16), or `radix` when `c` is no such digit.
pub open spec fn digit_value(c: char, radix: int) -> int {
    if radix == 10 {
        if is_ascii_digit(c) { c as int - '0' as int } else { 10 }
    } else {
        hex_digit_value(c)
    }
}

pub open spec fn all_digits(s: Seq<char>, radix: int) -> bool {
    forall|i: int| 0 <= i < s.len() ==> digit_value(#[trigger] s[i], radix) < radix
}

/// The number that a string of digits writes in base `radix`.
pub open spec fn digits_value(s: Seq<char>, radix: int) -> int
    decreases s.len(),
{
    if s.len() == 0 {
        0
    } else {
        digits_value(s.drop_last(), radix) * radix + digit_value(s.last(), radix)
    }
}

/// The unsigned number written by `s` in base `radix`: at least one digit, and no more
/// than `i64::MAX`.
pub open spec fn parse_unsigned(s: Seq<char>, radix: int) -> Option<i64> {
    if s.len() > 0 && all_digits(s, radix) && digits_value(s, radix) <= i64::MAX {
        Some(digits_value(s, radix) as i64)
    } else {
        None
    }
}

/// The decimal integer written by the whole of `s`: an optional `+` or `-`, then at least
/// one ASCII digit, within the range of `i64`.
pub open spec fn parse_i64(s: Seq<char>) -> Option<i64> {
    let neg = s.len() > 0 && s[0] == '-';
    let body = if s.len() > 0 && (s[0] == '-' || s[0] == '+') {
        s.drop_first()
    } else {
        s
    };
    if body.len() > 0 && all_digits(body, 10) {
        let v = if neg {
            -digits_value(body, 10)
        } else {
            digits_value(body, 10)
        };
        if i64::MIN <= v <= i64::MAX {
            Some(v as i64)
        } else {
            None
        }
    } else {
        None
    }
}

proof fn lemma_digits_value_nonneg(s: Seq<char>, radix: int)
    requires
        radix == 10 || radix == 16,
        all_digits(s, radix),
    ensures
        digits_value(s, radix) >= 0,
    decreases s.len(),
{
    if s.len() > 0 {
        assert(all_digits(s.drop_last(), radix)) by {
            assert forall|i: int| 0 <= i < s.drop_last().len() implies digit_value(
                #[trigger] s.drop_last()[i],
                radix,
            ) < radix by {
                assert(s.drop_last()[i] == s[i]);
            }
        }
        lemma_digits_value_nonneg(s.drop_last(), radix);
        assert(digit_value(s[s.len() - 1], radix) >= 0);
        assert(digits_value(s.drop_last(), radix) * radix >= 0) by (nonlinear_arith)
            requires
                digits_value(s.drop_last(), radix) >= 0,
                radix > 0,
        ;
    }
}

/// A digit string only grows in value when digits are appended.
proof fn lemma_digits_value_prefix(s: Seq<char>, k: int, radix: int)
    requires
        radix == 10 || radix == 16,
        0 <= k <= s.len(),
        all_digits(s, radix),
    ensures
        digits_value(s.subrange(0, k), radix) <= digits_value(s, radix),
    decreases s.len() - k,
{
    if k < s.len() {
        let t = s.subrange(0, k + 1);
        assert(t.drop_last() =~= s.subrange(0, k));
        assert(all_digits(s.subrange(0, k), radix)) by {
            assert forall|i: int| 0 <= i < s.subrange(0, k).len() implies digit_value(
                #[trigger] s.subrange(0, k)[i],
                radix,
            ) < radix by {
                assert(s.subrange(0, k)[i] == s[i]);
            }
        }
        lemma_digits_value_nonneg(s.subrange(0, k), radix);
        let p = digits_value(s.subrange(0, k), radix);
        assert(p <= p * radix) by (nonlinear_arith)
            requires
                p >= 0,
                radix > 1,
        ;
        assert(digit_value(s[k], radix) >= 0);
        assert(t.last() == s[k]);
        assert(digits_value(t, radix) == p * radix + digit_value(s[k], radix));
        lemma_digits_value_prefix(s, k + 1, radix);
    } else {
        assert(s.subrange(0, k) =~= s);
    }
}

/// Reads the digits of `s[start..]` in base `radix` (10 or 16).
pub fn parse_digits(s: &Vec<char>, start: usize, radix: u32) -> (r: Option<i64>)
    requires
        radix == 10 || radix == 16,
        start <= s@.len(),
    ensures
        r == parse_unsigned(s@.subrange(start as int, s@.len() as int), radix as int),
{
    let ghost body = s@.subrange(start as int, s@.len() as int);
    if start == s.len() {
        return None;
    }
    let mut acc: i128 = 0;
    let mut i: usize = start;
    while i < s.len()
        invariant
            radix == 10 || radix == 16,
            start <= i <= s@.len(),
            body == s@.subrange(start as int, s@.len() as int),
            all_digits(body.subrange(0, i - start), radix as int),
            acc == digits_value(body.subrange(0, i - start), radix as int),
            0 <= acc <= i64::MAX,
        decreases s.len() - i,
    {
        let c = s[i];
        let d: i128 = if radix == 10 {
            if '0' <= c && c <= '9' {
                (c as u32 - '0' as u32) as i128
            } else {
                10
            }
        } else if '0' <= c && c <= '9' {
            (c as u32 - '0' as u32) as i128
        } else if 'a' <= c && c <= 'f' {
            (c as u32 - 'a' as u32 + 10) as i128
        } else if 'A' <= c && c <= 'F' {
            (c as u32 - 'A' as u32 + 10) as i128
        } else {
            16
        };
        assert(d == digit_value(c, radix as int));
        let ghost pre = body.subrange(0, i - start);
        let ghost next = body.subrange(0, i + 1 - start);
        assert(next.drop_last() =~= pre);
        assert(next.last() == c);
        if d >= radix as i128 {
            assert(!all_digits(body, radix as int)) by {
                assert(body[i - start] == c);
            }
            return None;
        }
        assert(all_digits(next, radix as int)) by {
            assert forall|j: int| 0 <= j < next.len() implies digit_value(
                #[trigger] next[j],
                radix as int,
            ) < radix by {
                if j < pre.len() {
                    assert(next[j] == pre[j]);
                }
            }
        }
        assert(acc * (radix as i128) + d <= 16 * 0x8000_0000_0000_0000 + 16) by (nonlinear_arith)
            requires
                0 <= acc <= i64::MAX,
                radix <= 16,
                0 <= d < 16,
        ;
        acc = acc * (radix as i128) + d;
        i = i + 1;
        if acc > i64::MAX as i128 {
            proof {
                if all_digits(body, radix as int) {
                    assert(body.subrange(0, i - start) == next);
                    lemma_digits_value_prefix(body, i - start, radix as int);
                }
            }
            return None;
        }
    }
    assert(body.subrange(0, i - start) =~= body);
    Some(acc as i64)
}

/// Parses the whole text as a decimal `i64`, as `str::parse::<i64>` does.
pub fn parse_int(s: &Vec<char>) -> (r: Option<i64>)
    ensures
        r == parse_i64(s@),
{
    if s.len() > 0 && (s[0] == '-' || s[0] == '+') {
        assert(s@.drop_first() =~= s@.subrange(1, s@.len() as int));
        parse_digits_signed(s, 1, s[0] == '-')
    } else {
        assert(s@ =~= s@.subrange(0, s@.len() as int));
        parse_digits_signed(s, 0, false)
    }
}

fn parse_digits_signed(s: &Vec<char>, start: usize, neg: bool) -> (r: Option<i64>)
    requires
        start <= s@.len(),
    ensures
        ({
            let body = s@.subrange(start as int, s@.len() as int);
            r == if body.len() > 0 && all_digits(body, 10) {
                let v = if neg {
                    -digits_value(body, 10)
                } else {
                    digits_value(body, 10)
                };
                if i64::MIN <= v <= i64::MAX {
                    Some(v as i64)
                } else {
                    None
                }
            } else {
                None
            }
        }),
{
    let ghost body = s@.subrange(start as int, s@.len() as int);
    if start == s.len() {
        return None;
    }
    // Accumulate the magnitude, which may reach 2^63 for a negative number.
    let mut acc: i128 = 0;
    let mut i: usize = start;
    while i < s.len()
        invariant
            start <= i <= s@.len(),
            body == s@.subrange(start as int, s@.len() as int),
            all_digits(body.subrange(0, i - start), 10),
            acc == digits_value(body.subrange(0, i - start), 10),
            0 <= acc <= 0x8000_0000_0000_0000,
        decreases s.len() - i,
    {
        let c = s[i];
        let ghost pre = body.subrange(0, i - start);
        let ghost next = body.subrange(0, i + 1 - start);
        assert(next.drop_last() =~= pre);
        assert(next.last() == c);
        if !('0' <= c && c <= '9') {
            assert(!all_digits(body, 10)) by {
                assert(body[i - start] == c);
            }
            return None;
        }
        assert(all_digits(next, 10)) by {
            assert forall|j: int| 0 <= j < next.len() implies digit_value(#[trigger] next[j], 10)
                < 10 by {
                if j < pre.len() {
                    assert(next[j] == pre[j]);
                }
            }
        }
        assert(acc * 10 + 9 <= 10 * 0x8000_0000_0000_0000 + 9) by (nonlinear_arith)
            requires
                0 <= acc <= 0x8000_0000_0000_0000,
        ;
        acc = acc * 10 + (c as u32 - '0' as u32) as i128;
        i = i + 1;
        if acc > 0x8000_0000_0000_0000 {
            proof {
                if all_digits(body, 10) {
                    assert(body.subrange(0, i - start) == next);
                    lemma_digits_value_prefix(body, i - start, 10);
                }
            }
            return None;
        }
    }
    assert(body.subrange(0, i - start) =~= body);
    if neg {
        Some((-acc) as i64)
    } else if acc <= i64::MAX as i128 {
        Some(acc as i64)
    } else {
        None
    }
}

/// `b` raised to the natural power `e`, unbounded.
pub open spec fn int_pow(b: int, e: nat) -> int
    decreases e,
{
    if e == 0 {
        1
    } else {
        int_pow(b, (e - 1) as nat) * b
    }
}

/// Rust's truncating division, wrapped into `i64` (only `i64::MIN / -1` wraps).
pub open spec fn trunc_div(a: i64, b: i64) -> i64 {
    let q = if (a >= 0) == (b > 0) || a == 0 {
        (if a >= 0 { a as int } else { -a }) / (if b > 0 { b as int } else { -b })
    } else {
        -((if a >= 0 { a as int } else { -a }) / (if b > 0 { b as int } else { -b }))
    };
    wrap_i64(q)
}

/// The amount an integer shift moves by: the low six bits of the count.
pub open spec fn shift_amount(n: i64) -> u32 {
    (n & 63) as u32
}

proof fn lemma_wrap_mod(p: int)
    ensures
        wrap_i64(p) as int % 0x1_0000_0000_0000_0000 == p % 0x1_0000_0000_0000_0000,
{
}

proof fn lemma_wrap_mul(p: int, a: int)
    ensures
        wrap_i64(wrap_i64(p) as int * a) == wrap_i64(p * a),
{
    let m: int = 0x1_0000_0000_0000_0000;
    let w = wrap_i64(p) as int;
    lemma_wrap_mod(p);
    lemma_mul_mod_noop_left(w, a, m);
    lemma_mul_mod_noop_left(p, a, m);
}

impl EVar {
    pub open spec fn spec_is_float(&self) -> bool {
        self is FVal
    }

    /// The integer a non-float value stands for: a boolean as 0 or 1, a string as the
    /// decimal integer it writes (0 when it writes none).
    pub open spec fn spec_to_int(&self) -> i64 {
        match self {
            EVar::IVal(i) => *i,
            EVar::BVal(b) => bool_as_int(*b),
            EVar::SVal(s) => match parse_i64(s@) {
                Some(v) => v,
                None => 0,
            },
            EVar::FVal(_) => 0,
        }
    }

    /// Truth of a value: a non-zero number, `true`; a string is false.
    pub open spec fn spec_to_bool(&self) -> bool {
        match self {
            EVar::IVal(i) => *i != 0,
            EVar::BVal(b) => *b,
            EVar::FVal(bits) => !float_is_zero(*bits),
            EVar::SVal(_) => false,
        }
    }

    pub fn is_float(&self) -> (r: bool)
        ensures
            r == self.spec_is_float(),
    {
        match self {
            EVar::FVal(_) => true,
            _ => false,
        }
    }

    /// A copy of the value.
    pub fn duplicate(&self) -> (r: EVar)
        ensures
            r == *self,
    {
        match self {
            EVar::SVal(s) => EVar::SVal(s.clone()),
            EVar::IVal(i) => EVar::IVal(*i),
            EVar::FVal(f) => EVar::FVal(*f),
            EVar::BVal(b) => EVar::BVal(*b),
        }
    }

    /// The integer of a non-float value (a float goes through `FloatOp::Trunc`).
    pub fn to_int(&self) -> (r: i64)
        requires
            !self.spec_is_float(),
        ensures
            r == self.spec_to_int(),
    {
        match self {
            EVar::IVal(i) => *i,
            EVar::BVal(b) => if *b { 1 } else { 0 },
            EVar::SVal(s) => {
                let chars = chars_of(s.as_str());
                match parse_int(&chars) {
                    Some(v) => v,
                    None => 0,
                }
            },
            EVar::FVal(_) => 0,
        }
    }

    pub fn to_bool(&self) -> (r: bool)
        ensures
            r == self.spec_to_bool(),
    {
        match self {
            EVar::IVal(i) => *i != 0,
            EVar::BVal(b) => *b,
            EVar::FVal(bits) => *bits & MAGNITUDE_MASK != 0,
            EVar::SVal(_) => false,
        }
    }

    /// Logical negation: true for a zero number or `false`; a string gives false.
    pub fn ev_lognot(&self) -> (r: bool)
        ensures
            r == (!(self is SVal) && !self.spec_to_bool()),
    {
        match self {
            EVar::IVal(i) => *i == 0,
            EVar::BVal(b) => !*b,
            EVar::FVal(bits) => *bits & MAGNITUDE_MASK == 0,
            EVar::SVal(_) => false,
        }
    }

    /// Bitwise complement of a non-float value; a string gives 0.
    pub fn ev_bitnot(&self) -> (r: i64)
        requires
            !self.spec_is_float(),
        ensures
            r == if self is SVal {
                0
            } else {
                !self.spec_to_int()
            },
    {
        match self {
            EVar::IVal(i) => !*i,
            EVar::BVal(b) => if *b { !1i64 } else { !0i64 },
            _ => 0,
        }
    }

    pub fn ev_band(&self, other: &EVar) -> (r: i64)
        requires
            !self.spec_is_float(),
            !other.spec_is_float(),
        ensures
            r == self.spec_to_int() & other.spec_to_int(),
    {
        self.to_int() & other.to_int()
    }

    pub fn ev_bor(&self, other: &EVar) -> (r: i64)
        requires
            !self.spec_is_float(),
            !other.spec_is_float(),
        ensures
            r == self.spec_to_int() | other.spec_to_int(),
    {
        self.to_int() | other.to_int()
    }

    pub fn ev_bitxor(&self, other: &EVar) -> (r: i64)
        requires
            !self.spec_is_float(),
            !other.spec_is_float(),
        ensures
            r == self.spec_to_int() ^ other.spec_to_int(),
    {
        self.to_int() ^ other.to_int()
    }

    /// Left shift by the low six bits of the count, bits shifted out are lost.
    pub fn ev_shl(&self, other: &EVar) -> (r: i64)
        requires
            !self.spec_is_float(),
            !other.spec_is_float(),
        ensures
            r == self.spec_to_int().wrapping_shl(shift_amount(other.spec_to_int())),
    {
        let n = other.to_int();
        self.to_int().wrapping_shl((n & 63) as u32)
    }

    /// Arithmetic right shift by the low six bits of the count.
    pub fn ev_shr(&self, other: &EVar) -> (r: i64)
        requires
            !self.spec_is_float(),
            !other.spec_is_float(),
        ensures
            r == self.spec_to_int().wrapping_shr(shift_amount(other.spec_to_int())),
    {
        let n = other.to_int();
        self.to_int().wrapping_shr((n & 63) as u32)
    }
}

/// The characters of a string slice.
pub fn chars_of(s: &str) -> (r: Vec<char>)
    ensures
        r@ == s@,
{
    let n = s.unicode_len();
    let mut v: Vec<char> = Vec::new();
    let mut i: usize = 0;
    while i < n
        invariant
            n == s@.len(),
            i <= n,
            v@ == s@.subrange(0, i as int),
        decreases n - i,
    {
        v.push(s.get_char(i));
        i = i + 1;
        assert(v@ =~= s@.subrange(0, i as int));
    }
    assert(v@ =~= s@);
    v
}

/// Whether a binary operation on `x` and `y` is carried out in binary64.
pub open spec fn promotes(x: EVar, y: EVar) -> bool {
    x.spec_is_float() || y.spec_is_float()
}

pub open spec fn host(op: FloatOp, x: EVar, y: EVar) -> Calc {
    Calc::Host(FloatCall { op, lhs: x, rhs: y })
}

/// An integer comparison, named as the float operation that performs it on floats.
pub open spec fn int_compare(op: FloatOp, a: i64, b: i64) -> bool {
    match op {
        FloatOp::Eq => a == b,
        FloatOp::Ne => a != b,
        FloatOp::Le => a <= b,
        FloatOp::Lt => a < b,
        FloatOp::Ge => a >= b,
        _ => a > b,
    }
}

pub open spec fn is_comparison(op: FloatOp) -> bool {
    op == FloatOp::Eq || op == FloatOp::Ne || op == FloatOp::Le || op == FloatOp::Lt || op
        == FloatOp::Ge || op == FloatOp::Gt
}

/// `x + y`: a float sum when either is a float, else the wrapped integer sum.
pub open spec fn spec_add(x: EVar, y: EVar) -> Calc {
    if promotes(x, y) {
        host(FloatOp::Add, x, y)
    } else {
        Calc::Val(EVar::IVal(wrap_i64(x.spec_to_int() + y.spec_to_int())))
    }
}

pub open spec fn spec_sub(x: EVar, y: EVar) -> Calc {
    if promotes(x, y) {
        host(FloatOp::Sub, x, y)
    } else {
        Calc::Val(EVar::IVal(wrap_i64(x.spec_to_int() - y.spec_to_int())))
    }
}

pub open spec fn spec_mul(x: EVar, y: EVar) -> Calc {
    if promotes(x, y) {
        host(FloatOp::Mul, x, y)
    } else {
        Calc::Val(EVar::IVal(wrap_i64(x.spec_to_int() * y.spec_to_int())))
    }
}

pub open spec fn spec_div(x: EVar, y: EVar) -> Calc {
    if promotes(x, y) {
        host(FloatOp::Div, x, y)
    } else {
        Calc::Val(EVar::IVal(trunc_div(x.spec_to_int(), y.spec_to_int())))
    }
}

/// A comparison: a string is unequal to every value, itself included, and ordered
/// against none; otherwise a float comparison when either is a float, else an integer one.
pub open spec fn spec_compare(op: FloatOp, x: EVar, y: EVar) -> Calc {
    if x is SVal || y is SVal {
        Calc::Val(EVar::BVal(op == FloatOp::Ne))
    } else if promotes(x, y) {
        host(op, x, y)
    } else {
        Calc::Val(EVar::BVal(int_compare(op, x.spec_to_int(), y.spec_to_int())))
    }
}

/// `base` to the power `exp`. A boolean exponent is 0 when `false` (giving the integer 1)
/// and the identity when `true` (giving `base` itself, of its own type). A zero integer
/// exponent gives the integer 1 whatever the base; a float exponent, a negative one or a
/// float base give a float; otherwise the integer power, wrapped.
pub open spec fn spec_pow(base: EVar, exp: EVar) -> Calc {
    if exp is BVal {
        if exp == EVar::BVal(true) {
            Calc::Val(base)
        } else {
            Calc::Val(EVar::IVal(1))
        }
    } else if exp.spec_is_float() {
        host(FloatOp::PowF, base, exp)
    } else if exp.spec_to_int() == 0 {
        Calc::Val(EVar::IVal(1))
    } else if exp.spec_to_int() < 0 || base.spec_is_float() {
        host(FloatOp::PowI, base, EVar::IVal(exp.spec_to_int()))
    } else {
        Calc::Val(EVar::IVal(wrap_i64(int_pow(base.spec_to_int() as int, exp.spec_to_int() as nat))))
    }
}

pub open spec fn spec_max(x: EVar, y: EVar) -> Calc {
    if promotes(x, y) {
        host(FloatOp::Max, x, y)
    } else {
        let (a, b) = (x.spec_to_int(), y.spec_to_int());
        Calc::Val(EVar::IVal(if b > a { b } else { a }))
    }
}

pub open spec fn spec_min(x: EVar, y: EVar) -> Calc {
    if promotes(x, y) {
        host(FloatOp::Min, x, y)
    } else {
        let (a, b) = (x.spec_to_int(), y.spec_to_int());
        Calc::Val(EVar::IVal(if b < a { b } else { a }))
    }
}

fn host_call(op: FloatOp, x: &EVar, y: &EVar) -> (r: Calc)
    ensures
        r == host(op, *x, *y),
{
    Calc::Host(FloatCall { op, lhs: x.duplicate(), rhs: y.duplicate() })
}

proof fn lemma_pow_add(x: int, m: nat, n: nat)
    ensures
        int_pow(x, m + n) == int_pow(x, m) * int_pow(x, n),
    decreases n,
{
    if n > 0 {
        lemma_pow_add(x, m, (n - 1) as nat);
        assert(int_pow(x, m + n) == int_pow(x, (m + n - 1) as nat) * x);
        assert(int_pow(x, m) * int_pow(x, (n - 1) as nat) * x == int_pow(x, m) * (int_pow(
            x,
            (n - 1) as nat,
        ) * x)) by (nonlinear_arith);
    }
}

proof fn lemma_pow_square(x: int, j: nat)
    ensures
        int_pow(x * x, j) == int_pow(x, 2 * j),
    decreases j,
{
    if j > 0 {
        lemma_pow_square(x, (j - 1) as nat);
        lemma_pow_add(x, (2 * (j - 1)) as nat, 2);
        assert(int_pow(x, 0) == 1);
        assert(int_pow(x, 1) == x);
        assert(int_pow(x, 2) == x * x);
        assert((2 * (j - 1) + 2) as nat == 2 * j);
    }
}

proof fn lemma_congruent_mul(a: int, b: int, c: int, d: int)
    requires
        a % 0x1_0000_0000_0000_0000 == b % 0x1_0000_0000_0000_0000,
        c % 0x1_0000_0000_0000_0000 == d % 0x1_0000_0000_0000_0000,
    ensures
        (a * c) % 0x1_0000_0000_0000_0000 == (b * d) % 0x1_0000_0000_0000_0000,
{
    let m: int = 0x1_0000_0000_0000_0000;
    lemma_mul_mod_noop_left(a, c, m);
    lemma_mul_mod_noop_left(b, c, m);
    lemma_mul_mod_noop_right(b, c, m);
    lemma_mul_mod_noop_right(b, d, m);
}

proof fn lemma_congruent_pow(x: int, y: int, k: nat)
    requires
        x % 0x1_0000_0000_0000_0000 == y % 0x1_0000_0000_0000_0000,
    ensures
        int_pow(x, k) % 0x1_0000_0000_0000_0000 == int_pow(y, k) % 0x1_0000_0000_0000_0000,
    decreases k,
{
    if k > 0 {
        lemma_congruent_pow(x, y, (k - 1) as nat);
        lemma_congruent_mul(int_pow(x, (k - 1) as nat), int_pow(y, (k - 1) as nat), x, y);
    }
}

/// `a` to the power `e`, wrapped, by repeated squaring.
fn wrapped_pow(a: i64, e: u64) -> (r: i64)
    ensures
        r == wrap_i64(int_pow(a as int, e as nat)),
{
    let ghost m: int = 0x1_0000_0000_0000_0000;
    let mut acc: i64 = 1;
    let mut sq: i64 = a;
    let mut k: u64 = e;
    while k > 0
        invariant
            m == 0x1_0000_0000_0000_0000,
            (acc as int * int_pow(sq as int, k as nat)) % m == int_pow(a as int, e as nat) % m,
        decreases k,
    {
        let ghost j: nat = (k / 2) as nat;
        let ghost acc0 = acc as int;
        let ghost sq0 = sq as int;
        proof {
            lemma_pow_square(sq0, j);
            lemma_wrap_mod(sq0 * sq0);
            lemma_congruent_pow(wrap_i64(sq0 * sq0) as int, sq0 * sq0, j);
        }
        if k % 2 == 1 {
            proof {
                lemma_pow_add(sq0, 1, 2 * j);
                assert(int_pow(sq0, 0) == 1);
                assert(int_pow(sq0, 1) == sq0);
                assert((1 + 2 * j) as nat == k as nat);
                lemma_wrap_mod(acc0 * sq0);
                lemma_congruent_mul(
                    wrap_i64(acc0 * sq0) as int,
                    acc0 * sq0,
                    int_pow(wrap_i64(sq0 * sq0) as int, j),
                    int_pow(sq0 * sq0, j),
                );
                assert(acc0 * (sq0 * int_pow(sq0, 2 * j)) == acc0 * sq0 * int_pow(sq0, 2 * j))
                    by (nonlinear_arith);
            }
            acc = acc.wrapping_mul(sq);
        } else {
            proof {
                assert((2 * j) as nat == k as nat);
                lemma_congruent_mul(
                    acc0,
                    acc0,
                    int_pow(wrap_i64(sq0 * sq0) as int, j),
                    int_pow(sq0 * sq0, j),
                );
            }
        }
        sq = sq.wrapping_mul(sq);
        k = k / 2;
    }
    proof {
        lemma_wrap_mod(int_pow(a as int, e as nat));
        assert(acc as int * int_pow(sq as int, 0) == acc as int);
    }
    acc
}

impl EVar {
    pub fn ev_add(&self, other: &EVar) -> (r: Calc)
        ensures
            r == spec_add(*self, *other),
    {
        if self.is_float() || other.is_float() {
            return host_call(FloatOp::Add, self, other);
        }
        Calc::Val(EVar::IVal(self.to_int().wrapping_add(other.to_int())))
    }

    pub fn ev_sub(&self, other: &EVar) -> (r: Calc)
        ensures
            r == spec_sub(*self, *other),
    {
        if self.is_float() || other.is_float() {
            return host_call(FloatOp::Sub, self, other);
        }
        Calc::Val(EVar::IVal(self.to_int().wrapping_sub(other.to_int())))
    }

    pub fn ev_mul(&self, other: &EVar) -> (r: Calc)
        ensures
            r == spec_mul(*self, *other),
    {
        if self.is_float() || other.is_float() {
            return host_call(FloatOp::Mul, self, other);
        }
        Calc::Val(EVar::IVal(self.to_int().wrapping_mul(other.to_int())))
    }

    /// Division; an integer divisor must not be zero (the evaluator rejects it first).
    pub fn ev_div(&self, other: &EVar) -> (r: Calc)
        requires
            promotes(*self, *other) || other.spec_to_int() != 0,
        ensures
            r == spec_div(*self, *other),
    {
        if self.is_float() || other.is_float() {
            return host_call(FloatOp::Div, self, other);
        }
        let a = self.to_int();
        let b = other.to_int();
        match a.checked_div(b) {
            Some(q) => Calc::Val(EVar::IVal(q)),
            None => Calc::Val(EVar::IVal(a)),
        }
    }

    /// A comparison; `op` is one of `Eq`, `Ne`, `Le`, `Lt`, `Ge`, `Gt`.
    pub fn ev_compare(&self, op: FloatOp, other: &EVar) -> (r: Calc)
        requires
            is_comparison(op),
        ensures
            r == spec_compare(op, *self, *other),
    {
        if let EVar::SVal(_) = self {
            return Calc::Val(EVar::BVal(op == FloatOp::Ne));
        }
        if let EVar::SVal(_) = other {
            return Calc::Val(EVar::BVal(op == FloatOp::Ne));
        }
        if self.is_float() || other.is_float() {
            return host_call(op, self, other);
        }
        let a = self.to_int();
        let b = other.to_int();
        let v = match op {
            FloatOp::Eq => a == b,
            FloatOp::Ne => a != b,
            FloatOp::Le => a <= b,
            FloatOp::Lt => a < b,
            FloatOp::Ge => a >= b,
            _ => a > b,
        };
        Calc::Val(EVar::BVal(v))
    }

    pub fn pow(&self, exp: &EVar) -> (r: Calc)
        ensures
            r == spec_pow(*self, *exp),
    {
        if let EVar::BVal(b) = exp {
            return if *b {
                Calc::Val(self.duplicate())
            } else {
                Calc::Val(EVar::IVal(1))
            };
        }
        if exp.is_float() {
            return host_call(FloatOp::PowF, self, exp);
        }
        let iexp = exp.to_int();
        if iexp == 0 {
            Calc::Val(EVar::IVal(1))
        } else if iexp < 0 || self.is_float() {
            host_call(FloatOp::PowI, self, &EVar::IVal(iexp))
        } else {
            Calc::Val(EVar::IVal(wrapped_pow(self.to_int(), iexp as u64)))
        }
    }

    pub fn max(&self, comp: &EVar) -> (r: Calc)
        ensures
            r == spec_max(*self, *comp),
    {
        if self.is_float() || comp.is_float() {
            return host_call(FloatOp::Max, self, comp);
        }
        let a = self.to_int();
        let b = comp.to_int();
        Calc::Val(EVar::IVal(if b > a { b } else { a }))
    }

    pub fn min(&self, comp: &EVar) -> (r: Calc)
        ensures
            r == spec_min(*self, *comp),
    {
        if self.is_float() || comp.is_float() {
            return host_call(FloatOp::Min, self, comp);
        }
        let a = self.to_int();
        let b = comp.to_int();
        Calc::Val(EVar::IVal(if b < a { b } else { a }))
    }
}

/// Relies on `String::from_iter`: the string made of exactly these characters, in order.
#[verifier::external_body]
pub(crate) fn string_of(v: &[char]) -> (r: String)
    ensures
        r@ == v@,
{
    String::from_iter(v)
}

/// The character of a decimal digit.
pub open spec fn digit_char(d: int) -> char {
    if d == 0 {
        '0'
    } else if d == 1 {
        '1'
    } else if d == 2 {
        '2'
    } else if d == 3 {
        '3'
    } else if d == 4 {
        '4'
    } else if d == 5 {
        '5'
    } else if d == 6 {
        '6'
    } else if d == 7 {
        '7'
    } else if d == 8 {
        '8'
    } else {
        '9'
    }
}

/// The decimal digits of `n`, most significant first.
pub open spec fn digits_of(n: nat) -> Seq<char>
    decreases n,
{
    if n < 10 {
        seq![digit_char(n as int)]
    } else {
        digits_of(n / 10).push(digit_char(n as int % 10))
    }
}

/// The decimal text of an integer, with a leading `-` when it is negative.
pub open spec fn decimal_text(i: int) -> Seq<char> {
    if i < 0 {
        seq!['-'] + digits_of((-i) as nat)
    } else {
        digits_of(i as nat)
    }
}

fn digit(d: u64) -> (r: char)
    requires
        d < 10,
    ensures
        r == digit_char(d as int),
{
    match d {
        0 => '0',
        1 => '1',
        2 => '2',
        3 => '3',
        4 => '4',
        5 => '5',
        6 => '6',
        7 => '7',
        8 => '8',
        _ => '9',
    }
}

/// The decimal digits of `n`.
pub fn decimal_digits(n: u64) -> (r: Vec<char>)
    ensures
        r@ == digits_of(n as nat),
    decreases n,
{
    if n < 10 {
        let r = vec![digit(n)];
        assert(r@ =~= seq![digit_char(n as int)]);
        r
    } else {
        let mut v = decimal_digits(n / 10);
        v.push(digit(n % 10));
        v
    }
}

/// The decimal text of an integer.
pub fn decimal_chars(i: i64) -> (r: Vec<char>)
    ensures
        r@ == decimal_text(i as int),
{
    if i < 0 {
        let m: u64 = if i == i64::MIN {
            0x8000_0000_0000_0000
        } else {
            (-i) as u64
        };
        let d = decimal_digits(m);
        let mut r = vec!['-'];
        let mut j: usize = 0;
        while j < d.len()
            invariant
                j <= d@.len(),
                r@ == seq!['-'] + d@.subrange(0, j as int),
            decreases d@.len() - j,
        {
            r.push(d[j]);
            j = j + 1;
            assert(r@ =~= seq!['-'] + d@.subrange(0, j as int));
        }
        assert(d@.subrange(0, d@.len() as int) =~= d@);
        r
    } else {
        decimal_digits(i as u64)
    }
}

/// The text a value is shown as; a float's is written by the host.
pub open spec fn value_text(v: EVar) -> Option<Seq<char>> {
    match v {
        EVar::SVal(s) => Some(s@),
        EVar::IVal(i) => Some(decimal_text(i as int)),
        EVar::BVal(b) => Some(if b { "true"@ } else { "false"@ }),
        EVar::FVal(_) => None,
    }
}

impl EVar {
    /// The text the value is shown as; `None` for a float, which the host writes.
    pub fn text(&self) -> (r: Option<String>)
        ensures
            r matches Some(s) ==> value_text(*self) == Some(s@),
            r is None <==> value_text(*self) is None,
    {
        match self {
            EVar::SVal(s) => Some(s.clone()),
            EVar::IVal(i) => Some(string_of(decimal_chars(*i).as_slice())),
            EVar::BVal(b) => Some(if *b {
                String::from_str("true")
            } else {
                String::from_str("false")
            }),
            EVar::FVal(_) => None,
        }
    }
}

/// The generic comparison of two values: numbers compare by value (a boolean as 0 or 1
/// against an integer, as its truth against a float), and a string is unequal to
/// everything, itself included.
pub open spec fn spec_eq(x: EVar, y: EVar) -> Calc {
    match (x, y) {
        (EVar::SVal(_), _) => Calc::Val(EVar::BVal(false)),
        (_, EVar::SVal(_)) => Calc::Val(EVar::BVal(false)),
        (EVar::IVal(a), EVar::IVal(b)) => Calc::Val(EVar::BVal(a == b)),
        (EVar::BVal(a), EVar::IVal(b)) => Calc::Val(EVar::BVal(a == (b != 0))),
        (EVar::IVal(a), EVar::BVal(b)) => Calc::Val(EVar::BVal((a != 0) == b)),
        (EVar::BVal(a), EVar::BVal(b)) => Calc::Val(EVar::BVal(a == b)),
        (EVar::BVal(a), EVar::FVal(f)) => Calc::Val(EVar::BVal(a == !float_is_zero(f))),
        (EVar::FVal(f), EVar::BVal(b)) => Calc::Val(EVar::BVal(b == !float_is_zero(f))),
        _ => host(FloatOp::Eq, x, y),
    }
}

/// Against `true`, the generic comparison is the truth of the value.
pub proof fn law_eq_true_is_truth(x: EVar)
    ensures
        spec_eq(x, EVar::BVal(true)) == Calc::Val(EVar::BVal(x.spec_to_bool())),
{
}

/// A zero integer exponent gives the integer 1, whatever the base and its type.
pub proof fn law_pow_zero_exponent(base: EVar)
    ensures
        spec_pow(base, EVar::IVal(0)) == Calc::Val(EVar::IVal(1)),
{
}

impl EVar {
    /// The generic comparison (see `spec_eq`).
    pub fn eq(&self, other: &EVar) -> (r: Calc)
        ensures
            r == spec_eq(*self, *other),
    {
        match (self, other) {
            (EVar::SVal(_), _) => Calc::Val(EVar::BVal(false)),
            (_, EVar::SVal(_)) => Calc::Val(EVar::BVal(false)),
            (EVar::IVal(a), EVar::IVal(b)) => Calc::Val(EVar::BVal(*a == *b)),
            (EVar::BVal(a), EVar::IVal(b)) => Calc::Val(EVar::BVal(*a == (*b != 0))),
            (EVar::IVal(a), EVar::BVal(b)) => Calc::Val(EVar::BVal((*a != 0) == *b)),
            (EVar::BVal(a), EVar::BVal(b)) => Calc::Val(EVar::BVal(*a == *b)),
            (EVar::BVal(a), EVar::FVal(f)) => Calc::Val(EVar::BVal(*a == (*f & MAGNITUDE_MASK != 0))),
            (EVar::FVal(f), EVar::BVal(b)) => Calc::Val(EVar::BVal(*b == (*f & MAGNITUDE_MASK != 0))),
            _ => host_call(FloatOp::Eq, self, other),
        }
    }

    pub fn ev_eq(&self, other: &EVar) -> (r: Calc)
        ensures
            r == spec_compare(FloatOp::Eq, *self, *other),
    {
        self.ev_compare(FloatOp::Eq, other)
    }

    pub fn ev_infeq(&self, other: &EVar) -> (r: Calc)
        ensures
            r == spec_compare(FloatOp::Le, *self, *other),
    {
        self.ev_compare(FloatOp::Le, other)
    }

    pub fn ev_inf(&self, other: &EVar) -> (r: Calc)
        ensures
            r == spec_compare(FloatOp::Lt, *self, *other),
    {
        self.ev_compare(FloatOp::Lt, other)
    }

    pub fn ev_supeq(&self, other: &EVar) -> (r: Calc)
        ensures
            r == spec_compare(FloatOp::Ge, *self, *other),
    {
        self.ev_compare(FloatOp::Ge, other)
    }

    pub fn ev_sup(&self, other: &EVar) -> (r: Calc)
        ensures
            r == spec_compare(FloatOp::Gt, *self, *other),
    {
        self.ev_compare(FloatOp::Gt, other)
    }

    /// A one-argument float function of the value, computed by the host.
    fn float_fn(&self, op: FloatOp) -> (r: Calc)
        ensures
            r == host(op, *self, EVar::IVal(0)),
    {
        host_call(op, self, &EVar::IVal(0))
    }

    pub fn sin(&self) -> (r: Calc)
        ensures
            r == host(FloatOp::Sin, *self, EVar::IVal(0)),
    {
        self.float_fn(FloatOp::Sin)
    }

    pub fn cos(&self) -> (r: Calc)
        ensures
            r == host(FloatOp::Cos, *self, EVar::IVal(0)),
    {
        self.float_fn(FloatOp::Cos)
    }

    pub fn tan(&self) -> (r: Calc)
        ensures
            r == host(FloatOp::Tan, *self, EVar::IVal(0)),
    {
        self.float_fn(FloatOp::Tan)
    }

    pub fn exp(&self) -> (r: Calc)
        ensures
            r == host(FloatOp::Exp, *self, EVar::IVal(0)),
    {
        self.float_fn(FloatOp::Exp)
    }

    pub fn ln(&self) -> (r: Calc)
        ensures
            r == host(FloatOp::Ln, *self, EVar::IVal(0)),
    {
        self.float_fn(FloatOp::Ln)
    }

    pub fn log10(&self) -> (r: Calc)
        ensures
            r == host(FloatOp::Log10, *self, EVar::IVal(0)),
    {
        self.float_fn(FloatOp::Log10)
    }

    pub fn sqrt(&self) -> (r: Calc)
        ensures
            r == host(FloatOp::Sqrt, *self, EVar::IVal(0)),
    {
        self.float_fn(FloatOp::Sqrt)
    }

    pub fn cbrt(&self) -> (r: Calc)
        ensures
            r == host(FloatOp::Cbrt, *self, EVar::IVal(0)),
    {
        self.float_fn(FloatOp::Cbrt)
    }
}

} // verus!
