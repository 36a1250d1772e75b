//! Runtime values for the virtual machine.
//!
//! The language's numeric literals are decimal fractions, and the four
//! arithmetic operators together with unary negation keep every reachable
//! result a rational number, so values carry an exact rational in lowest
//! terms: a signed 64-bit numerator and a positive 64-bit denominator.
//! Arithmetic whose reduced result does not fit this representation is
//! reported to the caller (the machine turns that into a runtime error)
//! rather than wrapping or crashing. `Value` itself is a tagged variant so
//! the machine's type-mismatch error path is meaningful once booleans and
//! nil join the language.

use vstd::prelude::*;

verus! {

/// Magnitude of a mathematical integer.
pub open spec fn iabs(n: int) -> nat {
    if n < 0 {
        (-n) as nat
    } else {
        n as nat
    }
}

/// Greatest common divisor, by Euclid's rule.
pub open spec fn gcd(a: nat, b: nat) -> nat
    decreases b,
{
    if b == 0 {
        a
    } else {
        gcd(b, a % b)
    }
}

/// The greatest common divisor is positive unless both arguments are zero,
/// and divides both.
pub proof fn lemma_gcd_divides(a: nat, b: nat)
    ensures
        a > 0 || b > 0 ==> gcd(a, b) > 0,
        gcd(a, b) > 0 ==> a % gcd(a, b) == 0 && b % gcd(a, b) == 0,
    decreases b,
{
    if b == 0 {
        if a > 0 {
            vstd::arithmetic::div_mod::lemma_mod_self_0(a as int);
        }
    } else {
        lemma_gcd_divides(b, a % b);
        let g = gcd(b, a % b);
        assert(g > 0);
        vstd::arithmetic::div_mod::lemma_fundamental_div_mod(a as int, b as int);
        let q = a as int / b as int;
        vstd::arithmetic::div_mod::lemma_mul_mod_noop_left(b as int, q, g as int);
        assert(b as int % g as int == 0);
        assert((b as int % g as int) * q == 0) by (nonlinear_arith)
            requires
                b as int % g as int == 0,
        ;
        assert(0int % g as int == 0) by {
            vstd::arithmetic::div_mod::lemma_small_mod(0nat, g);
        }
        assert((b as int * q) % g as int == 0);
        vstd::arithmetic::div_mod::lemma_add_mod_noop(b as int * q, a as int % b as int, g as int);
        assert(a as int == b as int * q + a as int % b as int);
        assert(a as int % g as int == 0);
    }
}

/// A mathematical rational, as an unreduced pair: the value is `n / d`.
pub ghost struct Rat {
    pub n: int,
    pub d: int,
}

/// Two pairs denote the same rational when their cross products agree.
pub open spec fn rat_same(a: Rat, b: Rat) -> bool {
    a.n * b.d == b.n * a.d
}

/// The canonical form of the pair `n / d`: zero is `0 / 1`, any other value
/// has the common factor `gcd(|n|, d)` divided out, with the sign on the
/// numerator.
pub open spec fn norm(n: int, d: int) -> Rat
    recommends
        1 <= d,
{
    if n == 0 {
        Rat { n: 0, d: 1 }
    } else {
        let g = gcd(iabs(n), iabs(d));
        let nn = (iabs(n) / g) as int;
        let dd = (iabs(d) / g) as int;
        Rat { n: if n < 0 { -nn } else { nn }, d: dd }
    }
}

/// The canonical form of a pair denotes the same rational as the pair.
pub proof fn lemma_norm_same(n: int, d: int)
    requires
        1 <= d,
    ensures
        rat_same(norm(n, d), Rat { n: n, d: d }),
{
    if n == 0 {
        assert(norm(n, d) == (Rat { n: 0, d: 1 }));
        assert(norm(n, d).n * d == 0) by (nonlinear_arith)
            requires
                norm(n, d).n == 0,
        ;
        assert(rat_same(norm(n, d), Rat { n: n, d: d }));
    } else {
        let a = iabs(n);
        let g = gcd(a, d as nat);
        lemma_gcd_divides(a, d as nat);
        let p = a / g;
        let q = (d as nat) / g;
        vstd::arithmetic::div_mod::lemma_fundamental_div_mod(a as int, g as int);
        vstd::arithmetic::div_mod::lemma_fundamental_div_mod(d, g as int);
        assert(a as int == g * p);
        assert(d == g * q);
        assert(iabs(d as int) == d as nat);
        assert(norm(n, d).d == q as int);
        assert(norm(n, d).n == if n < 0 {
            -(p as int)
        } else {
            p as int
        });
        if n < 0 {
            assert((-(p as int)) * d == n * (q as int)) by (nonlinear_arith)
                requires
                    a as int == g * p,
                    d == g * q,
                    n == -(a as int),
            ;
            assert(rat_same(norm(n, d), Rat { n: n, d: d }));
        } else {
            assert((p as int) * d == n * (q as int)) by (nonlinear_arith)
                requires
                    a as int == g * p,
                    d == g * q,
                    n == a as int,
            ;
            assert(rat_same(norm(n, d), Rat { n: n, d: d }));
        }
    }
}

/// Whether a pair fits the executable representation.
pub open spec fn fits_i64(r: Rat) -> bool {
    &&& i64::MIN as int <= r.n <= i64::MAX as int
    &&& 1 <= r.d <= i64::MAX as int
}

/// Whether the canonical form of `n / d` fits the executable representation.
pub open spec fn norm_fits(n: int, d: int) -> bool {
    fits_i64(norm(n, d))
}

/// The exact negation of a rational pair.
pub open spec fn sp_neg(a: Rat) -> Rat {
    Rat { n: -a.n, d: a.d }
}

/// The exact sum of two rational pairs, in canonical form.
pub open spec fn sp_add(a: Rat, b: Rat) -> Rat {
    norm(a.n * b.d + b.n * a.d, a.d * b.d)
}

/// The exact difference of two rational pairs, in canonical form.
pub open spec fn sp_sub(a: Rat, b: Rat) -> Rat {
    norm(a.n * b.d - b.n * a.d, a.d * b.d)
}

/// The exact product of two rational pairs, in canonical form.
pub open spec fn sp_mul(a: Rat, b: Rat) -> Rat {
    norm(a.n * b.n, a.d * b.d)
}

/// The exact quotient of two rational pairs, in canonical form.
pub open spec fn sp_div(a: Rat, b: Rat) -> Rat
    recommends
        b.n != 0,
{
    if b.n < 0 {
        norm(-(a.n * b.d), a.d * -b.n)
    } else {
        norm(a.n * b.d, a.d * b.n)
    }
}

/// An exact rational number in lowest terms: `num / den`, with `den >= 1`.
#[derive(Clone, Copy, Debug, PartialEq, Eq, Structural, Hash)]
pub struct Rational {
    num: i64,
    den: i64,
}

impl View for Rational {
    type V = Rat;

    closed spec fn view(&self) -> Rat {
        Rat { n: self.num as int, d: self.den as int }
    }
}

proof fn lemma_mag_prod_bound(x: int, y: int, m: int, k: int)
    by (nonlinear_arith)
    requires
        -m <= x <= m,
        -k <= y <= k,
        0 <= m,
        0 <= k,
    ensures
        -(m * k) <= x * y <= m * k,
{
}

/// Euclid's algorithm on machine words.
fn gcd_u128(a: u128, b: u128) -> (g: u128)
    ensures
        g as nat == gcd(a as nat, b as nat),
{
    let mut x: u128 = a;
    let mut y: u128 = b;
    while y != 0
        invariant
            gcd(x as nat, y as nat) == gcd(a as nat, b as nat),
        decreases y,
    {
        let r: u128 = x % y;
        x = y;
        y = r;
    }
    x
}

impl Rational {
    /// The representation invariant: a positive denominator. (Canonical
    /// values also share no factor between the parts; every constructor
    /// below produces the canonical form.)
    pub open spec fn wf(self) -> bool {
        1 <= self@.d
    }

    /// The whole number `n`.
    pub fn from_i64(n: i64) -> (r: Rational)
        ensures
            r@ == (Rat { n: n as int, d: 1 }),
            r.wf(),
    {
        Rational { num: n, den: 1 }
    }

    /// Numerator accessor.
    pub fn num(&self) -> (n: i64)
        ensures
            n as int == self@.n,
    {
        self.num
    }

    /// Denominator accessor.
    pub fn den(&self) -> (d: i64)
        ensures
            d as int == self@.d,
    {
        self.den
    }

    /// Builds the canonical form of `n / d`, or `None` when that form does
    /// not fit the representation.
    fn make(n: i128, d: i128) -> (r: Option<Rational>)
        requires
            1 <= d,
            i128::MIN < n,
        ensures
            r is Some <==> norm_fits(n as int, d as int),
            r matches Some(q) ==> q@ == norm(n as int, d as int) && q.wf(),
    {
        if n == 0 {
            return Some(Rational { num: 0, den: 1 });
        }
        let neg: bool = n < 0;
        let na: u128 = if n < 0 {
            (-n) as u128
        } else {
            n as u128
        };
        let da: u128 = d as u128;
        assert(na as nat == iabs(n as int));
        assert(da as nat == iabs(d as int));
        let g: u128 = gcd_u128(na, da);
        proof {
            lemma_gcd_divides(na as nat, da as nat);
        }
        let nq: u128 = na / g;
        let dq: u128 = da / g;
        if dq > i64::MAX as u128 || dq == 0 {
            assert(!norm_fits(n as int, d as int));
            return None;
        }
        if neg {
            if nq > 9223372036854775808u128 {
                assert(!norm_fits(n as int, d as int));
                return None;
            }
            let nn: i64 = (-(nq as i128)) as i64;
            Some(Rational { num: nn, den: dq as i64 })
        } else {
            if nq > i64::MAX as u128 {
                assert(!norm_fits(n as int, d as int));
                return None;
            }
            Some(Rational { num: nq as i64, den: dq as i64 })
        }
    }

    /// The canonical form of `n / d` for wide intermediate values; `None`
    /// when it does not fit.
    pub(crate) fn from_large(n: i128, d: i128) -> (r: Option<Rational>)
        requires
            1 <= d,
            i128::MIN < n,
        ensures
            r is Some <==> norm_fits(n as int, d as int),
            r matches Some(q) ==> q@ == norm(n as int, d as int) && q.wf(),
    {
        Rational::make(n, d)
    }

    /// The canonical form of `n / d`; `None` when it does not fit.
    pub fn from_fraction(n: i64, d: i64) -> (r: Option<Rational>)
        requires
            1 <= d,
        ensures
            r is Some <==> norm_fits(n as int, d as int),
            r matches Some(q) ==> q@ == norm(n as int, d as int) && q.wf(),
    {
        Rational::make(n as i128, d as i128)
    }

    /// Arithmetic negation; `None` on the one numerator with no negation.
    pub fn neg(&self) -> (r: Option<Rational>)
        requires
            self.wf(),
        ensures
            r is Some <==> fits_i64(sp_neg(self@)),
            r matches Some(q) ==> q@ == sp_neg(self@) && q.wf(),
    {
        if self.num == i64::MIN {
            None
        } else {
            Some(Rational { num: -self.num, den: self.den })
        }
    }

    /// Exact sum, reduced; `None` when the reduced result does not fit.
    pub fn add(&self, other: &Rational) -> (r: Option<Rational>)
        requires
            self.wf(),
            other.wf(),
        ensures
            r is Some <==> fits_i64(sp_add(self@, other@)),
            r matches Some(q) ==> q@ == sp_add(self@, other@) && q.wf(),
    {
        proof {
            lemma_mag_prod_bound(self.num as int, other.den as int, 0x8000_0000_0000_0000, 0x7fff_ffff_ffff_ffff);
            lemma_mag_prod_bound(other.num as int, self.den as int, 0x8000_0000_0000_0000, 0x7fff_ffff_ffff_ffff);
            lemma_mag_prod_bound(self.den as int, other.den as int, 0x7fff_ffff_ffff_ffff, 0x7fff_ffff_ffff_ffff);
        }
        let n: i128 = (self.num as i128) * (other.den as i128) + (other.num as i128) * (self.den as i128);
        let d: i128 = (self.den as i128) * (other.den as i128);
        assert(1 <= d) by (nonlinear_arith)
            requires
                1 <= self.den as int,
                1 <= other.den as int,
                d as int == (self.den as int) * (other.den as int),
        ;
        Rational::make(n, d)
    }

    /// Exact difference, reduced; `None` when the reduced result does not fit.
    pub fn sub(&self, other: &Rational) -> (r: Option<Rational>)
        requires
            self.wf(),
            other.wf(),
        ensures
            r is Some <==> fits_i64(sp_sub(self@, other@)),
            r matches Some(q) ==> q@ == sp_sub(self@, other@) && q.wf(),
    {
        proof {
            lemma_mag_prod_bound(self.num as int, other.den as int, 0x8000_0000_0000_0000, 0x7fff_ffff_ffff_ffff);
            lemma_mag_prod_bound(other.num as int, self.den as int, 0x8000_0000_0000_0000, 0x7fff_ffff_ffff_ffff);
            lemma_mag_prod_bound(self.den as int, other.den as int, 0x7fff_ffff_ffff_ffff, 0x7fff_ffff_ffff_ffff);
        }
        let n: i128 = (self.num as i128) * (other.den as i128) - (other.num as i128) * (self.den as i128);
        let d: i128 = (self.den as i128) * (other.den as i128);
        assert(1 <= d) by (nonlinear_arith)
            requires
                1 <= self.den as int,
                1 <= other.den as int,
                d as int == (self.den as int) * (other.den as int),
        ;
        Rational::make(n, d)
    }

    /// Exact product, reduced; `None` when the reduced result does not fit.
    pub fn mul(&self, other: &Rational) -> (r: Option<Rational>)
        requires
            self.wf(),
            other.wf(),
        ensures
            r is Some <==> fits_i64(sp_mul(self@, other@)),
            r matches Some(q) ==> q@ == sp_mul(self@, other@) && q.wf(),
    {
        proof {
            lemma_mag_prod_bound(self.num as int, other.num as int, 0x8000_0000_0000_0000, 0x8000_0000_0000_0000);
            lemma_mag_prod_bound(self.den as int, other.den as int, 0x7fff_ffff_ffff_ffff, 0x7fff_ffff_ffff_ffff);
        }
        let n: i128 = (self.num as i128) * (other.num as i128);
        let d: i128 = (self.den as i128) * (other.den as i128);
        assert(1 <= d) by (nonlinear_arith)
            requires
                1 <= self.den as int,
                1 <= other.den as int,
                d as int == (self.den as int) * (other.den as int),
        ;
        Rational::make(n, d)
    }

    /// Exact quotient, reduced; `None` when the reduced result does not fit.
    pub fn div(&self, other: &Rational) -> (r: Option<Rational>)
        requires
            self.wf(),
            other.wf(),
            other@.n != 0,
        ensures
            r is Some <==> fits_i64(sp_div(self@, other@)),
            r matches Some(q) ==> q@ == sp_div(self@, other@) && q.wf(),
    {
        proof {
            lemma_mag_prod_bound(self.num as int, other.den as int, 0x8000_0000_0000_0000, 0x7fff_ffff_ffff_ffff);
            lemma_mag_prod_bound(self.den as int, other.num as int, 0x7fff_ffff_ffff_ffff, 0x8000_0000_0000_0000);
        }
        let n: i128 = (self.num as i128) * (other.den as i128);
        let d: i128 = (self.den as i128) * (other.num as i128);
        if other.num < 0 {
            assert(d as int == (self.den as int) * (other.num as int));
            assert(-d >= 1 && -(d as int) == (self.den as int) * (-(other.num as int)))
                by (nonlinear_arith)
                requires
                    1 <= self.den as int,
                    other.num as int <= -1,
                    d as int == (self.den as int) * (other.num as int),
            ;
            Rational::make(-n, -d)
        } else {
            assert(1 <= d) by (nonlinear_arith)
                requires
                    1 <= self.den as int,
                    1 <= other.num as int,
                    d as int == (self.den as int) * (other.num as int),
            ;
            Rational::make(n, d)
        }
    }
}

/// A ghost-level runtime value.
pub ghost enum SpVal {
    Num(Rat),
    Bool(bool),
    Nil,
}

/// Well-formedness of a ghost-level value: numbers have a positive
/// denominator.
pub open spec fn val_wf(v: SpVal) -> bool {
    v matches SpVal::Num(r) ==> 1 <= r.d
}

/// A runtime value: a tagged variant so the type set can grow without
/// changing the chunk encoding.
#[derive(Clone, Copy, Debug, PartialEq, Eq, Structural)]
pub enum Value {
    Number(Rational),
    Bool(bool),
    Nil,
}

impl View for Value {
    type V = SpVal;

    open spec fn view(&self) -> SpVal {
        match *self {
            Value::Number(r) => SpVal::Num(r@),
            Value::Bool(b) => SpVal::Bool(b),
            Value::Nil => SpVal::Nil,
        }
    }
}

impl Value {
    /// Every value the pipeline builds satisfies this: numbers are
    /// well formed rationals.
    pub open spec fn wf(self) -> bool {
        self matches Value::Number(r) ==> r.wf()
    }
}

/// The constant pool's backing store: an append-only array of values.
pub struct ValueArray {
    values: Vec<Value>,
}

impl View for ValueArray {
    type V = Seq<Value>;

    closed spec fn view(&self) -> Seq<Value> {
        self.values@
    }
}

impl ValueArray {
    /// An empty array.
    pub fn new() -> (a: ValueArray)
        ensures
            a@ == Seq::<Value>::empty(),
    {
        ValueArray { values: Vec::new() }
    }

    /// Appends one value.
    pub fn write(&mut self, value: Value)
        ensures
            final(self)@ == old(self)@.push(value),
    {
        self.values.push(value);
    }

    /// Number of values held.
    pub fn len(&self) -> (n: usize)
        ensures
            n == self@.len(),
    {
        self.values.len()
    }

    /// The value at `i`.
    pub fn at(&self, i: usize) -> (v: Value)
        requires
            i < self@.len(),
        ensures
            v == self@[i as int],
    {
        self.values[i]
    }

    /// Releases the backing storage.
    pub fn free(&mut self)
        ensures
            final(self)@ == Seq::<Value>::empty(),
    {
        self.values.clear();
    }
}

} // verus!
