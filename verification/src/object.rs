use vstd::prelude::*;
use vstd::string::StringExecFns;
use core::cmp::Ordering;
use vstd::arithmetic::div_mod::{lemma_fundamental_div_mod, lemma_mod_multiples_basic};

verus! {

/// An exact rational number `num / den`; well-formed when the denominator is
/// positive.  Decimal literals are represented exactly (`1.25` is `125/100`),
/// arithmetic is exact and reduces its result to lowest terms, and an
/// operation whose reduced result still has a component out of range is
/// reported by the evaluator as an arithmetic error instead of being
/// rounded.
#[derive(Clone, Copy, Debug)]
pub struct Rat {
    pub num: i64,
    pub den: i64,
}

impl Rat {
    /// Well-formedness: the denominator is positive.
    pub open spec fn wf(self) -> bool {
        self.den >= 1
    }

    /// The rational for a whole number.
    pub fn from_int(n: i64) -> (r: Rat)
        ensures
            r == (Rat { num: n, den: 1 }),
    {
        Rat { num: n, den: 1 }
    }
}

/// Mathematical model of a runtime value: a number appears as an exact
/// numerator/denominator pair of unbounded integers, a string as its
/// character sequence.  The two error tags record an invalid operation so
/// that the interpreter can turn them into a diagnosable runtime error.
pub ghost enum ObjModel {
    Num { n: int, d: int },
    Str(Seq<char>),
    Bool(bool),
    Nil,
    ArithmeticError,
    DivisionByZeroError,
}

/// Both components of an exact rational result fit the executable
/// representation.
pub open spec fn fits_rat(n: int, d: int) -> bool {
    &&& i64::MIN <= n <= i64::MAX
    &&& 1 <= d <= i64::MAX
}

/// Greatest common divisor of two nonnegative integers, by Euclid's
/// algorithm.
pub open spec fn gcd(a: int, b: int) -> int
    decreases b,
{
    if b <= 0 {
        a
    } else {
        gcd(b, a % b)
    }
}

/// Euclid's result is a positive common divisor of its inputs.
pub proof fn lemma_gcd_divides(a: int, b: int)
    requires
        a >= 0,
        b >= 0,
        a + b >= 1,
    ensures
        gcd(a, b) >= 1,
        a % gcd(a, b) == 0,
        b % gcd(a, b) == 0,
    decreases b,
{
    if b <= 0 {
        lemma_mod_multiples_basic(1, a);
        lemma_mod_multiples_basic(0, a);
    } else {
        lemma_gcd_divides(b, a % b);
        let g = gcd(b, a % b);
        lemma_fundamental_div_mod(a, b);
        lemma_fundamental_div_mod(b, g);
        lemma_fundamental_div_mod(a % b, g);
        assert(a == ((b / g) * (a / b) + (a % b) / g) * g) by (nonlinear_arith)
            requires
                a == b * (a / b) + (a % b),
                b == g * (b / g) + (b % g),
                (a % b) == g * ((a % b) / g) + ((a % b) % g),
                b % g == 0,
                (a % b) % g == 0,
        ;
        lemma_mod_multiples_basic((b / g) * (a / b) + (a % b) / g, g);
    }
}

/// The exact rational `n / d`, reduced to lowest terms; the
/// arithmetic-error tag when even the reduced components are out of range.
pub open spec fn reduced_rat(n: int, d: int) -> ObjModel {
    let m = if n < 0 {
        -n
    } else {
        n
    };
    let g = gcd(m, d);
    let rn = if n < 0 {
        -(m / g)
    } else {
        m / g
    };
    let rd = d / g;
    if fits_rat(rn, rd) {
        ObjModel::Num { n: rn, d: rd }
    } else {
        ObjModel::ArithmeticError
    }
}

/// Truthiness: `nil` and `false` are falsy, and so are the number zero and
/// the empty string; every other value is truthy.  The invalid-operation
/// tags never reach a truthiness test during evaluation; they count as falsy.
pub open spec fn truthy(v: ObjModel) -> bool {
    match v {
        ObjModel::Num { n, d } => n != 0,
        ObjModel::Str(s) => s.len() != 0,
        ObjModel::Bool(b) => b,
        ObjModel::Nil => false,
        ObjModel::ArithmeticError => false,
        ObjModel::DivisionByZeroError => false,
    }
}

/// Structural equality across all value tags: numbers compare as rational
/// values (cross-multiplication), strings as character sequences; values of
/// different tags are unequal, a boolean outcome rather than an error.
pub open spec fn obj_eq_model(a: ObjModel, b: ObjModel) -> bool {
    match (a, b) {
        (ObjModel::Num { n: n1, d: d1 }, ObjModel::Num { n: n2, d: d2 }) => n1 * d2 == n2 * d1,
        (ObjModel::Str(s1), ObjModel::Str(s2)) => s1 == s2,
        (ObjModel::Bool(b1), ObjModel::Bool(b2)) => b1 == b2,
        (ObjModel::Nil, ObjModel::Nil) => true,
        (ObjModel::ArithmeticError, ObjModel::ArithmeticError) => true,
        (ObjModel::DivisionByZeroError, ObjModel::DivisionByZeroError) => true,
        _ => false,
    }
}

/// Unary minus: negates a number exactly, in lowest terms; any other
/// operand is an arithmetic error.
pub open spec fn neg_model(v: ObjModel) -> ObjModel {
    match v {
        ObjModel::Num { n, d } => reduced_rat(-n, d),
        _ => ObjModel::ArithmeticError,
    }
}

/// Addition: exact rational sum of two numbers, in lowest terms;
/// concatenation of two strings; every mixed or other combination is an
/// arithmetic error.
pub open spec fn add_model(a: ObjModel, b: ObjModel) -> ObjModel {
    match (a, b) {
        (ObjModel::Num { n: n1, d: d1 }, ObjModel::Num { n: n2, d: d2 }) => reduced_rat(
            n1 * d2 + n2 * d1,
            d1 * d2,
        ),
        (ObjModel::Str(s1), ObjModel::Str(s2)) => ObjModel::Str(s1 + s2),
        _ => ObjModel::ArithmeticError,
    }
}

/// Subtraction: exact rational difference of two numbers, in lowest terms;
/// anything else is an arithmetic error.
pub open spec fn sub_model(a: ObjModel, b: ObjModel) -> ObjModel {
    match (a, b) {
        (ObjModel::Num { n: n1, d: d1 }, ObjModel::Num { n: n2, d: d2 }) => reduced_rat(
            n1 * d2 - n2 * d1,
            d1 * d2,
        ),
        _ => ObjModel::ArithmeticError,
    }
}

/// Multiplication: exact rational product of two numbers, in lowest terms;
/// anything else is an arithmetic error.
pub open spec fn mul_model(a: ObjModel, b: ObjModel) -> ObjModel {
    match (a, b) {
        (ObjModel::Num { n: n1, d: d1 }, ObjModel::Num { n: n2, d: d2 }) => reduced_rat(
            n1 * n2,
            d1 * d2,
        ),
        _ => ObjModel::ArithmeticError,
    }
}

/// Division: division of a number by the number zero is the distinguished
/// division-by-zero error; otherwise the exact rational quotient in lowest
/// terms, the sign carried by the numerator; anything else is an
/// arithmetic error.
pub open spec fn div_model(a: ObjModel, b: ObjModel) -> ObjModel {
    match (a, b) {
        (ObjModel::Num { n: n1, d: d1 }, ObjModel::Num { n: n2, d: d2 }) => {
            if n2 == 0 {
                ObjModel::DivisionByZeroError
            } else {
                let n = if n2 > 0 { n1 * d2 } else { -(n1 * d2) };
                let d = if n2 > 0 { d1 * n2 } else { d1 * -n2 };
                reduced_rat(n, d)
            }
        },
        _ => ObjModel::ArithmeticError,
    }
}

/// Ordering: defined for two numbers only, by comparing the exact rational
/// values; every other combination has no order.
pub open spec fn cmp_model(a: ObjModel, b: ObjModel) -> Option<Ordering> {
    match (a, b) {
        (ObjModel::Num { n: n1, d: d1 }, ObjModel::Num { n: n2, d: d2 }) => {
            if n1 * d2 < n2 * d1 {
                Some(Ordering::Less)
            } else if n1 * d2 == n2 * d1 {
                Some(Ordering::Equal)
            } else {
                Some(Ordering::Greater)
            }
        },
        _ => None,
    }
}

/// A runtime value: number (exact rational), string, boolean, or nil, plus
/// the two invalid-operation tags that the interpreter converts into
/// runtime errors.
#[derive(Debug)]
pub enum Object {
    Num(Rat),
    Str(String),
    Bool(bool),
    Nil,
    ArithmeticError,
    DivisionByZeroError,
}

impl View for Object {
    type V = ObjModel;

    open spec fn view(&self) -> ObjModel {
        match self {
            Object::Num(r) => ObjModel::Num { n: r.num as int, d: r.den as int },
            Object::Str(s) => ObjModel::Str(s@),
            Object::Bool(b) => ObjModel::Bool(*b),
            Object::Nil => ObjModel::Nil,
            Object::ArithmeticError => ObjModel::ArithmeticError,
            Object::DivisionByZeroError => ObjModel::DivisionByZeroError,
        }
    }
}

/// The product of a numerator (any `i64`) and a positive denominator stays
/// well inside the 128-bit range, with room to add two such products.
proof fn lemma_num_den_mul_bounds(n: int, d: int)
    by (nonlinear_arith)
    requires
        -0x8000_0000_0000_0000 <= n <= 0x7fff_ffff_ffff_ffff,
        1 <= d <= 0x7fff_ffff_ffff_ffff,
    ensures
        -0x3fff_ffff_ffff_ffff_8000_0000_0000_0000 <= n * d,
        n * d <= 0x3fff_ffff_ffff_ffff_8000_0000_0000_0000,
{
}

/// The product of two `i64` values fits the 128-bit range.
proof fn lemma_mul_i64_bounds(a: int, b: int)
    by (nonlinear_arith)
    requires
        -0x8000_0000_0000_0000 <= a <= 0x7fff_ffff_ffff_ffff,
        -0x8000_0000_0000_0000 <= b <= 0x7fff_ffff_ffff_ffff,
    ensures
        -0x4000_0000_0000_0000_0000_0000_0000_0000 <= a * b,
        a * b <= 0x4000_0000_0000_0000_0000_0000_0000_0000,
{
}

/// The product of two positive factors, the first at most `i64::MAX` and the
/// second at most `2^63`, is positive and fits the 128-bit range.
proof fn lemma_pos_mul_bounds(a: int, b: int)
    by (nonlinear_arith)
    requires
        1 <= a <= 0x7fff_ffff_ffff_ffff,
        1 <= b <= 0x8000_0000_0000_0000,
    ensures
        1 <= a * b,
        a * b <= 0x3fff_ffff_ffff_ffff_8000_0000_0000_0000,
{
}

/// Pack an exact rational result, falling back to the arithmetic-error tag
/// when a component is out of range.
/// Euclid's algorithm.
fn gcd_u128(a0: u128, b0: u128) -> (g: u128)
    ensures
        g as int == gcd(a0 as int, b0 as int),
{
    let mut a = a0;
    let mut b = b0;
    while b > 0
        invariant
            gcd(a as int, b as int) == gcd(a0 as int, b0 as int),
        decreases b,
    {
        let t = a % b;
        proof {
            assert(gcd(a as int, b as int) == gcd(b as int, (a as int) % (b as int)));
        }
        a = b;
        b = t;
    }
    a
}

/// Pack an exact rational result in lowest terms, falling back to the
/// arithmetic-error tag when a reduced component is still out of range.
fn fit_rat(n: i128, d: i128) -> (r: Object)
    requires
        -0x7fff_ffff_ffff_ffff_ffff_ffff_ffff_ffff <= n,
        1 <= d,
    ensures
        r@ == reduced_rat(n as int, d as int),
        r.wf(),
{
    let mag: u128 = if n < 0 {
        (-n) as u128
    } else {
        n as u128
    };
    let g = gcd_u128(mag, d as u128);
    proof {
        lemma_gcd_divides(mag as int, d as int);
    }
    let rm = mag / g;
    let rd = (d as u128) / g;
    proof {
        lemma_fundamental_div_mod(mag as int, g as int);
        lemma_fundamental_div_mod(d as int, g as int);
        assert(rm as int <= mag as int && rd as int >= 1) by (nonlinear_arith)
            requires
                mag as int == (g as int) * (rm as int) + (mag as int) % (g as int),
                d as int == (g as int) * (rd as int) + (d as int) % (g as int),
                (mag as int) % (g as int) >= 0,
                (d as int) % (g as int) == 0,
                g as int >= 1,
                d as int >= 1,
                rm as int >= 0,
                rd as int >= 0,
        ;
    }
    let sn: i128 = if n < 0 {
        -(rm as i128)
    } else {
        rm as i128
    };
    if i64::MIN as i128 <= sn && sn <= i64::MAX as i128 && rd <= i64::MAX as u128 {
        Object::Num(Rat { num: sn as i64, den: rd as i64 })
    } else {
        Object::ArithmeticError
    }
}

impl Object {
    /// Well-formedness: a number has a positive denominator.
    pub open spec fn wf(self) -> bool {
        match self {
            Object::Num(r) => r.wf(),
            _ => true,
        }
    }

    /// Unary arithmetic negation.
    pub fn neg(self) -> (r: Object)
        requires
            self.wf(),
        ensures
            r@ == neg_model(self@),
            r.wf(),
    {
        match self {
            Object::Num(a) => {
                let n: i128 = -(a.num as i128);
                fit_rat(n, a.den as i128)
            },
            _ => Object::ArithmeticError,
        }
    }

    /// Binary addition: numbers add exactly, strings concatenate.
    pub fn add(self, rhs: Object) -> (r: Object)
        requires
            self.wf(),
            rhs.wf(),
        ensures
            r@ == add_model(self@, rhs@),
            r.wf(),
    {
        match (self, rhs) {
            (Object::Num(a), Object::Num(b)) => {
                proof {
                    lemma_num_den_mul_bounds(a.num as int, b.den as int);
                    lemma_num_den_mul_bounds(b.num as int, a.den as int);
                    lemma_pos_mul_bounds(a.den as int, b.den as int);
                }
                let n: i128 = (a.num as i128) * (b.den as i128) + (b.num as i128) * (a.den
                    as i128);
                let d: i128 = (a.den as i128) * (b.den as i128);
                fit_rat(n, d)
            },
            (Object::Str(a), Object::Str(b)) => Object::Str(a.concat(b.as_str())),
            _ => Object::ArithmeticError,
        }
    }

    /// Binary subtraction of two numbers.
    pub fn sub(self, rhs: Object) -> (r: Object)
        requires
            self.wf(),
            rhs.wf(),
        ensures
            r@ == sub_model(self@, rhs@),
            r.wf(),
    {
        match (self, rhs) {
            (Object::Num(a), Object::Num(b)) => {
                proof {
                    lemma_num_den_mul_bounds(a.num as int, b.den as int);
                    lemma_num_den_mul_bounds(b.num as int, a.den as int);
                    lemma_pos_mul_bounds(a.den as int, b.den as int);
                }
                let n: i128 = (a.num as i128) * (b.den as i128) - (b.num as i128) * (a.den
                    as i128);
                let d: i128 = (a.den as i128) * (b.den as i128);
                fit_rat(n, d)
            },
            _ => Object::ArithmeticError,
        }
    }

    /// Binary multiplication of two numbers.
    pub fn mul(self, rhs: Object) -> (r: Object)
        requires
            self.wf(),
            rhs.wf(),
        ensures
            r@ == mul_model(self@, rhs@),
            r.wf(),
    {
        match (self, rhs) {
            (Object::Num(a), Object::Num(b)) => {
                proof {
                    lemma_mul_i64_bounds(a.num as int, b.num as int);
                    lemma_pos_mul_bounds(a.den as int, b.den as int);
                }
                let n: i128 = (a.num as i128) * (b.num as i128);
                let d: i128 = (a.den as i128) * (b.den as i128);
                fit_rat(n, d)
            },
            _ => Object::ArithmeticError,
        }
    }

    /// Binary division of two numbers; division by zero is distinguished.
    pub fn div(self, rhs: Object) -> (r: Object)
        requires
            self.wf(),
            rhs.wf(),
        ensures
            r@ == div_model(self@, rhs@),
            r.wf(),
    {
        match (self, rhs) {
            (Object::Num(a), Object::Num(b)) => {
                if b.num == 0 {
                    Object::DivisionByZeroError
                } else if b.num > 0 {
                    proof {
                        lemma_num_den_mul_bounds(a.num as int, b.den as int);
                        lemma_pos_mul_bounds(a.den as int, b.num as int);
                    }
                    let n: i128 = (a.num as i128) * (b.den as i128);
                    let d: i128 = (a.den as i128) * (b.num as i128);
                    fit_rat(n, d)
                } else {
                    proof {
                        lemma_num_den_mul_bounds(a.num as int, b.den as int);
                        lemma_pos_mul_bounds(a.den as int, -(b.num as int));
                    }
                    let n: i128 = -((a.num as i128) * (b.den as i128));
                    let d: i128 = (a.den as i128) * (-(b.num as i128));
                    fit_rat(n, d)
                }
            },
            _ => Object::ArithmeticError,
        }
    }

    /// Ordering of two numbers by their exact rational values; any other
    /// combination of tags has no order.
    pub fn partial_cmp(&self, other: &Object) -> (r: Option<Ordering>)
        requires
            self.wf(),
            other.wf(),
        ensures
            r == cmp_model(self@, other@),
    {
        match (self, other) {
            (Object::Num(a), Object::Num(b)) => {
                proof {
                    lemma_num_den_mul_bounds(a.num as int, b.den as int);
                    lemma_num_den_mul_bounds(b.num as int, a.den as int);
                }
                let l: i128 = (a.num as i128) * (b.den as i128);
                let r: i128 = (b.num as i128) * (a.den as i128);
                if l < r {
                    Some(Ordering::Less)
                } else if l == r {
                    Some(Ordering::Equal)
                } else {
                    Some(Ordering::Greater)
                }
            },
            _ => None,
        }
    }
}

impl Clone for Object {
    /// A clone is equal to the original, field by field.
    fn clone(&self) -> (r: Object)
        ensures
            r == *self,
    {
        match self {
            Object::Num(a) => Object::Num(*a),
            Object::Str(s) => Object::Str(s.clone()),
            Object::Bool(b) => Object::Bool(*b),
            Object::Nil => Object::Nil,
            Object::ArithmeticError => Object::ArithmeticError,
            Object::DivisionByZeroError => Object::DivisionByZeroError,
        }
    }
}

impl Object {
    /// Structural value equality: numbers by exact rational value, strings
    /// by contents; different tags compare unequal.
    pub fn equals(&self, other: &Object) -> (r: bool)
        ensures
            r == obj_eq_model(self@, other@),
    {
        match (self, other) {
            (Object::Num(a), Object::Num(b)) => {
                proof {
                    lemma_mul_i64_bounds(a.num as int, b.den as int);
                    lemma_mul_i64_bounds(b.num as int, a.den as int);
                }
                (a.num as i128) * (b.den as i128) == (b.num as i128) * (a.den as i128)
            },
            (Object::Str(a), Object::Str(b)) => *a == *b,
            (Object::Bool(a), Object::Bool(b)) => a == b,
            (Object::Nil, Object::Nil) => true,
            (Object::ArithmeticError, Object::ArithmeticError) => true,
            (Object::DivisionByZeroError, Object::DivisionByZeroError) => true,
            _ => false,
        }
    }
}

impl PartialEq for Object {
    /// Structural value equality, as [`Object::equals`].
    fn eq(&self, other: &Object) -> (r: bool) {
        self.equals(other)
    }
}

impl vstd::std_specs::cmp::PartialEqSpecImpl for Object {
    open spec fn obeys_eq_spec() -> bool {
        true
    }

    open spec fn eq_spec(&self, other: &Object) -> bool {
        obj_eq_model(self@, other@)
    }
}

} // verus!

verus! {

/// Law: dividing any number by a number equal to zero is the distinguished
/// division-by-zero error — never a silent infinite or undefined value.
pub proof fn lemma_division_by_zero(a: ObjModel, d: int)
    requires
        a is Num,
    ensures
        div_model(a, ObjModel::Num { n: 0, d: d }) == ObjModel::DivisionByZeroError,
{
}

} // verus!
