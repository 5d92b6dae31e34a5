//! A percentage as the server reports it: a double, held by its bits.
use vstd::arithmetic::div_mod::{lemma_div_denominator, lemma_fundamental_div_mod};
use vstd::arithmetic::power2::{
    lemma2_to64, lemma2_to64_rest, lemma_pow2_adds, lemma_pow2_pos, lemma_pow2_strictly_increases,
    lemma_pow2_unfold, pow2,
};
use vstd::prelude::*;

verus! {

/// The bits of the positive infinity.
pub const INFINITY_BITS: u64 = 0x7ff0_0000_0000_0000;

/// The bits of the double epsilon, two to the power of minus 52.
pub const EPSILON_BITS: u64 = 0x3cb0_0000_0000_0000;

/// The bits of one hundred.
pub const HUNDRED_BITS: u64 = 0x4059_0000_0000_0000;

/// The bits of two to the power of minus 47, half the spacing of the doubles just below 100.
pub const HALF_SPACING_BITS: u64 = 0x3d00_0000_0000_0000;

/// One hundred, as a multiple of two to the power of minus 99.
const HUNDRED_UNITS: u128 = 63382530011411470074835160268800;

/// The bit that marks a negative double.
pub const SIGN_BIT: u64 = 0x8000_0000_0000_0000;

/// What a double stands for. A finite one is a whole multiple of two to the power of minus 1074,
/// and `scaled` says which.
pub enum Reading {
    NotANumber,
    Infinite { negative: bool },
    Finite { scaled: int },
}

impl Reading {
    /// Whether the reading is less than or equal to the given multiple; never so for what is not
    /// a number.
    pub open spec fn at_most(self, scaled: int) -> bool {
        match self {
            Reading::NotANumber => false,
            Reading::Infinite { negative } => negative,
            Reading::Finite { scaled: own } => own <= scaled,
        }
    }

    /// Whether the reading is greater than or equal to the given multiple; never so for what is
    /// not a number.
    pub open spec fn at_least(self, scaled: int) -> bool {
        match self {
            Reading::NotANumber => false,
            Reading::Infinite { negative } => !negative,
            Reading::Finite { scaled: own } => own >= scaled,
        }
    }

    /// Whether the reading is greater than the given multiple; never so for what is not a number.
    pub open spec fn exceeds(self, scaled: int) -> bool {
        self !is NotANumber && !self.at_most(scaled)
    }
}

/// Two to the power of minus 52, as a multiple of two to the power of minus 1074.
pub open spec fn epsilon() -> int {
    pow2(1022) as int
}

/// One hundred, as a multiple of two to the power of minus 1074.
pub open spec fn hundred() -> int {
    100 * (pow2(1074) as int)
}

/// The size of the finite double whose bits, without the sign, are `magnitude`: the upper bits
/// are the exponent, and the lower 52 the fraction.
pub open spec fn scaled_size(magnitude: nat) -> nat {
    let exponent = magnitude / 0x10_0000_0000_0000;
    let fraction = magnitude % 0x10_0000_0000_0000;
    if exponent == 0 {
        fraction
    } else {
        (0x10_0000_0000_0000 + fraction) * pow2((exponent - 1) as nat)
    }
}

/// How far apart two multiples are.
pub open spec fn distance(a: int, b: int) -> int {
    if a >= b {
        a - b
    } else {
        b - a
    }
}

/// Whether `bits` are those of the double that a number of no negative size rounds to, given as a
/// multiple of two to the power of minus 1074: no other double is nearer, and of two that are
/// equally near it is the one with the even bits.
pub open spec fn rounds_to(exact: int, bits: u64) -> bool {
    &&& bits < INFINITY_BITS
    &&& forall|other: u64|
        other < INFINITY_BITS && other != bits ==> {
            let own = distance(exact, scaled_size(bits as nat) as int);
            let its = distance(exact, #[trigger] scaled_size(other as nat) as int);
            own < its || (own == its && bits % 2 == 0)
        }
}

/// A percentage, by the bits of the double that gives it.
#[derive(Clone, Copy, PartialEq, Eq, Structural, Debug)]
pub struct Percent {
    pub bits: u64,
}

impl View for Percent {
    type V = Reading;

    open spec fn view(&self) -> Reading {
        let negative = self.bits >= SIGN_BIT;
        let magnitude = if negative {
            self.bits - SIGN_BIT
        } else {
            self.bits as int
        };
        if magnitude > INFINITY_BITS {
            Reading::NotANumber
        } else if magnitude == INFINITY_BITS {
            Reading::Infinite { negative }
        } else if negative {
            Reading::Finite { scaled: -scaled_size(magnitude as nat) }
        } else {
            Reading::Finite { scaled: scaled_size(magnitude as nat) as int }
        }
    }
}

/// Larger bits give larger doubles.
proof fn lemma_size_grows(a: nat, b: nat)
    requires
        a < b,
    ensures
        scaled_size(a) < scaled_size(b),
{
    let base: nat = 0x10_0000_0000_0000;
    let (ea, fa) = (a / base, a % base);
    let (eb, fb) = (b / base, b % base);
    assert(a == ea * base + fa && b == eb * base + fb && fa < base && fb < base);
    if ea == eb {
        if ea > 0 {
            let p = pow2((ea - 1) as nat);
            lemma_pow2_pos((ea - 1) as nat);
            assert((base + fa) * p < (base + fb) * p) by (nonlinear_arith)
                requires
                    fa < fb,
                    p > 0,
            ;
        }
    } else {
        assert(ea < eb);
        let p = pow2((eb - 1) as nat);
        lemma_pow2_pos((eb - 1) as nat);
        assert((base + fb) * p >= base * p) by (nonlinear_arith)
            requires
                p > 0,
        ;
        if ea == 0 {
            assert(base * p >= base) by (nonlinear_arith)
                requires
                    p > 0,
            ;
        } else {
            let q = pow2((ea - 1) as nat);
            lemma_pow2_pos((ea - 1) as nat);
            lemma_pow2_unfold(ea);
            assert(p >= 2 * q) by {
                lemma_pow2_adds(ea, (eb - 1 - ea) as nat);
                let r = pow2((eb - 1 - ea) as nat);
                lemma_pow2_pos((eb - 1 - ea) as nat);
                assert((2 * q) * r >= 2 * q) by (nonlinear_arith)
                    requires
                        r > 0,
                ;
            }
            assert((base + fa) * q < (2 * base) * q) by (nonlinear_arith)
                requires
                    fa < base,
                    q > 0,
            ;
            assert((2 * base) * q <= base * p) by (nonlinear_arith)
                requires
                    p >= 2 * q,
            ;
        }
    }
}

/// The sizes of the two doubles that readings are held against.
proof fn lemma_marks()
    ensures
        scaled_size(EPSILON_BITS as nat) == epsilon(),
        scaled_size(HUNDRED_BITS as nat) == hundred(),
        scaled_size(0) == 0,
        hundred() > 0,
        epsilon() > 0,
{
    lemma2_to64();
    lemma2_to64_rest();
    lemma_pow2_adds(52, 970);
    lemma_pow2_adds(48, 1028);
    lemma_pow2_adds(1074, 2);
    lemma_pow2_pos(1074);
    lemma_pow2_pos(1022);
    assert(EPSILON_BITS as nat / 0x10_0000_0000_0000 == 971);
    assert(EPSILON_BITS as nat % 0x10_0000_0000_0000 == 0);
    assert(HUNDRED_BITS as nat / 0x10_0000_0000_0000 == 1029);
    assert(HUNDRED_BITS as nat % 0x10_0000_0000_0000 == 0x9_0000_0000_0000);
    assert((0x10_0000_0000_0000 + 0x9_0000_0000_0000) * pow2(1028) == 25 * (0x1_0000_0000_0000
        * pow2(1028))) by (nonlinear_arith);
}

/// The next double is one spacing up, which the exponent gives.
proof fn lemma_next(bits: nat)
    requires
        bits >= 0x10_0000_0000_0000,
    ensures
        scaled_size(bits + 1) == scaled_size(bits) + pow2(
            (bits / 0x10_0000_0000_0000 - 1) as nat,
        ),
{
    let base: nat = 0x10_0000_0000_0000;
    let (e, f) = (bits / base, bits % base);
    let p = pow2((e - 1) as nat);
    if f + 1 < base {
        assert((bits + 1) / base == e && (bits + 1) % base == f + 1);
        assert((base + f + 1) * p == (base + f) * p + p) by (nonlinear_arith);
    } else {
        assert((bits + 1) / base == e + 1 && (bits + 1) % base == 0);
        lemma_pow2_unfold(e);
        assert(base * (2 * p) == (base + f) * p + p) by (nonlinear_arith)
            requires
                f == base - 1,
        ;
    }
}

/// A number between two neighbouring doubles rounds to the nearer one, and to the one with the even
/// bits where it is halfway.
proof fn lemma_rounds(exact: int, below: u64, up: bool)
    requires
        below + 1 < INFINITY_BITS,
        scaled_size(below as nat) <= exact < scaled_size((below + 1) as nat),
        ({
            let under = exact - scaled_size(below as nat);
            let over = scaled_size((below + 1) as nat) - exact;
            if up {
                under > over || (under == over && below % 2 == 1)
            } else {
                under < over || (under == over && below % 2 == 0)
            }
        }),
    ensures
        rounds_to(
            exact,
            if up {
                (below + 1) as u64
            } else {
                below
            },
        ),
{
    let bits = if up {
        (below + 1) as u64
    } else {
        below
    };
    assert forall|other: u64| other < INFINITY_BITS && other != bits implies {
        let own = distance(exact, scaled_size(bits as nat) as int);
        let its = distance(exact, #[trigger] scaled_size(other as nat) as int);
        own < its || (own == its && bits % 2 == 0)
    } by {
        if other < below {
            lemma_size_grows(other as nat, below as nat);
        } else if other > below + 1 {
            lemma_size_grows((below + 1) as nat, other as nat);
        }
    }
}

/// What a tiny usage leaves rounds to 100.
proof fn lemma_near_hundred(bits: u64)
    requires
        0 < bits <= HALF_SPACING_BITS,
    ensures
        rounds_to(hundred() - scaled_size(bits as nat), HUNDRED_BITS),
{
    let below: u64 = (HUNDRED_BITS - 1) as u64;
    let size = scaled_size(bits as nat);
    lemma_marks();
    lemma_size_grows(0, bits as nat);
    if bits < HALF_SPACING_BITS {
        lemma_size_grows(bits as nat, HALF_SPACING_BITS as nat);
    }
    assert(below as nat / 0x10_0000_0000_0000 == 1029);
    lemma_next(below as nat);
    assert(scaled_size(HALF_SPACING_BITS as nat) == pow2(1027)) by {
        assert(HALF_SPACING_BITS as nat / 0x10_0000_0000_0000 == 976);
        assert(HALF_SPACING_BITS as nat % 0x10_0000_0000_0000 == 0);
        lemma2_to64_rest();
        lemma_pow2_adds(52, 975);
    }
    lemma_pow2_unfold(1028);
    lemma_pow2_pos(1027);
    lemma_rounds(hundred() - size, below, true);
}

/// A mantissa that is shifted by at most 52 places is at most two to the power of 105.
proof fn lemma_used_bound(mantissa: nat, shift: nat)
    requires
        mantissa < 0x20_0000_0000_0000,
        shift <= 52,
    ensures
        mantissa * pow2(shift) <= 0x20_0000_0000_0000 * 0x10_0000_0000_0000,
{
    lemma2_to64_rest();
    lemma_pow2_adds(shift, (52 - shift) as nat);
    lemma_pow2_pos((52 - shift) as nat);
    let p = pow2(shift);
    let q = pow2((52 - shift) as nat);
    assert(p <= 0x10_0000_0000_0000) by (nonlinear_arith)
        requires
            p * q == 0x10_0000_0000_0000,
            q > 0,
    ;
    assert(mantissa * p <= 0x20_0000_0000_0000 * 0x10_0000_0000_0000) by (nonlinear_arith)
        requires
            mantissa < 0x20_0000_0000_0000,
            p <= 0x10_0000_0000_0000,
    ;
}

/// While the quotient is too large for the mantissa of a double, the spacing can be doubled.
proof fn lemma_halves(rest: nat, spacing: nat, shift: nat)
    requires
        spacing == pow2(shift),
        spacing > 0,
        rest <= HUNDRED_UNITS,
        rest / spacing >= 0x20_0000_0000_0000,
    ensures
        spacing * 2 <= rest,
        0x10_0000_0000_0000 <= rest / (spacing * 2) < rest / spacing,
        shift < 106,
{
    let q = rest / spacing;
    lemma_fundamental_div_mod(rest as int, spacing as int);
    assert(spacing * q >= spacing * 2) by (nonlinear_arith)
        requires
            q >= 0x20_0000_0000_0000,
            spacing > 0,
    ;
    lemma_div_denominator(rest as int, spacing as int, 2);
    assert(rest / (spacing * 2) == q / 2);
    if shift >= 106 {
        lemma2_to64_rest();
        lemma_pow2_adds(53, 53);
        lemma_pow2_adds(106, (shift - 106) as nat);
        lemma_pow2_pos((shift - 106) as nat);
        let r = pow2((shift - 106) as nat);
        lemma2_to64();
        lemma_pow2_unfold(53);
        assert(pow2(106) * r >= pow2(106)) by (nonlinear_arith)
            requires
                r > 0,
        ;
    }
}

/// A number of units lies between the multiples of the spacing around it.
proof fn lemma_between(rest: nat, spacing: nat, unit: nat)
    requires
        spacing > 0,
        unit > 0,
    ensures
        rest * unit == (rest / spacing) * (spacing * unit) + (rest % spacing) * unit,
        (rest % spacing) * unit < spacing * unit,
{
    let (q, over) = (rest / spacing, rest % spacing);
    lemma_fundamental_div_mod(rest as int, spacing as int);
    assert(rest * unit == q * (spacing * unit) + over * unit) by (nonlinear_arith)
        requires
            rest == spacing * q + over,
    ;
    assert(over * unit < spacing * unit) by (nonlinear_arith)
        requires
            over < spacing,
            unit > 0,
    ;
}

/// How twice a part compares to the whole, it does in any unit.
proof fn lemma_halfway(part: nat, whole: nat, unit: nat)
    requires
        unit > 0,
    ensures
        2 * part > whole ==> 2 * (part * unit) > whole * unit,
        2 * part == whole ==> 2 * (part * unit) == whole * unit,
        2 * part < whole ==> 2 * (part * unit) < whole * unit,
{
    assert(2 * part > whole ==> 2 * (part * unit) > whole * unit) by (nonlinear_arith)
        requires
            unit > 0,
    ;
    assert(2 * part == whole ==> 2 * (part * unit) == whole * unit) by (nonlinear_arith);
    assert(2 * part < whole ==> 2 * (part * unit) < whole * unit) by (nonlinear_arith)
        requires
            unit > 0,
    ;
}

/// The bits of the double that the difference of 100 and a smaller double rounds to.
fn difference(bits: u64) -> (r: u64)
    requires
        HALF_SPACING_BITS < bits < HUNDRED_BITS,
    ensures
        rounds_to(hundred() - scaled_size(bits as nat), r),
{
    let exponent: u64 = bits / 0x10_0000_0000_0000;
    let mantissa: u64 = 0x10_0000_0000_0000 + bits % 0x10_0000_0000_0000;
    let ghost size = scaled_size(bits as nat);
    let ghost unit = pow2(975);
    proof {
        lemma_marks();
        lemma_size_grows(bits as nat, HUNDRED_BITS as nat);
        lemma2_to64();
        lemma2_to64_rest();
        lemma_pow2_pos(975);
        assert(hundred() == HUNDRED_UNITS * unit) by {
            lemma_pow2_adds(99, 975);
            lemma_pow2_adds(52, 47);
            assert(100 * (pow2(99) * unit) == (100 * pow2(99)) * unit) by (nonlinear_arith);
        }
    }
    // The usage, as a multiple of two to the power of minus 99.
    let mut used: u128 = mantissa as u128;
    let mut at: u64 = 976;
    assert(mantissa * pow2(0) == mantissa) by (nonlinear_arith)
        requires
            pow2(0) == 1,
    ;
    while at < exponent
        invariant
            976 <= at <= exponent <= 1029,
            mantissa < 0x20_0000_0000_0000,
            used == mantissa * pow2((at - 976) as nat),
            pow2(53) == 0x20_0000_0000_0000,
        decreases exponent - at,
    {
        proof {
            let p = pow2((at - 976) as nat);
            lemma_pow2_unfold((at + 1 - 976) as nat);
            lemma_pow2_adds((at - 976) as nat, (53 - (at - 976)) as nat);
            lemma_pow2_pos((53 - (at - 976)) as nat);
            let q = pow2((53 - (at - 976)) as nat);
            assert(p <= 0x20_0000_0000_0000) by (nonlinear_arith)
                requires
                    p * q == 0x20_0000_0000_0000,
                    q > 0,
            ;
            assert(mantissa * p <= 0x20_0000_0000_0000 * 0x20_0000_0000_0000) by (nonlinear_arith)
                requires
                    mantissa < 0x20_0000_0000_0000,
                    p <= 0x20_0000_0000_0000,
            ;
            assert(mantissa * (2 * p) == 2 * (mantissa * p)) by (nonlinear_arith);
        }
        used = used * 2;
        at = at + 1;
    }
    proof {
        let shift = (exponent - 976) as nat;
        lemma_pow2_adds(shift, 975);
        assert(size == used * unit) by {
            assert(mantissa * (pow2(shift) * unit) == (mantissa * pow2(shift)) * unit)
                by (nonlinear_arith);
        }
        assert(used < HUNDRED_UNITS) by (nonlinear_arith)
            requires
                used * unit < HUNDRED_UNITS * unit,
                unit > 0,
        ;
    }
    let rest: u128 = HUNDRED_UNITS - used;
    proof {
        assert(rest >= 0x20_0000_0000_0000) by {
            if exponent == 1029 {
                lemma_pow2_adds(53, 46);
                assert(used == mantissa * 0x20_0000_0000_0000);
            } else {
                lemma_used_bound(mantissa as nat, (exponent - 976) as nat);
            }
        }
        assert(hundred() - size == rest * unit) by (nonlinear_arith)
            requires
                hundred() == HUNDRED_UNITS * unit,
                size == used * unit,
                rest == HUNDRED_UNITS - used,
        ;
    }
    // The spacing of the doubles around the rest, in the same unit, and their exponent.
    let mut spacing: u128 = 1;
    let mut e: u64 = 976;
    while rest / spacing >= 0x20_0000_0000_0000
        invariant
            976 <= e,
            0x20_0000_0000_0000 <= rest <= HUNDRED_UNITS,
            spacing == pow2((e - 976) as nat),
            1 <= spacing <= rest,
            rest / spacing >= 0x10_0000_0000_0000,
            e - 976 <= 107,
        decreases rest / spacing,
    {
        proof {
            lemma_pow2_unfold((e + 1 - 976) as nat);
            lemma_halves(rest as nat, spacing as nat, (e - 976) as nat);
        }
        spacing = spacing * 2;
        e = e + 1;
    }
    let q: u64 = (rest / spacing) as u64;
    let over: u128 = rest % spacing;
    let below: u64 = e * 0x10_0000_0000_0000 + (q - 0x10_0000_0000_0000);
    proof {
        lemma_pow2_adds((e - 976) as nat, 975);
        lemma_next(below as nat);
        assert(below as nat / 0x10_0000_0000_0000 == e);
        assert(below as nat % 0x10_0000_0000_0000 == q - 0x10_0000_0000_0000);
        lemma_between(rest as nat, spacing as nat, unit);
    }
    let up: bool = over * 2 > spacing || (over * 2 == spacing && below % 2 == 1);
    proof {
        lemma_halfway(over as nat, spacing as nat, unit);
        lemma_rounds(hundred() - size, below, up);
    }
    if up {
        below + 1
    } else {
        below
    }
}

impl Percent {
    /// The bits of a double greater than epsilon.
    pub open spec fn bits_exceed_epsilon(self) -> bool {
        EPSILON_BITS < self.bits <= INFINITY_BITS
    }

    /// The bits of a double no greater than epsilon.
    pub open spec fn bits_at_most_epsilon(self) -> bool {
        self.bits <= EPSILON_BITS || SIGN_BIT <= self.bits <= SIGN_BIT + INFINITY_BITS
    }

    /// The bits of a double tell how it compares to epsilon: a positive one is greater exactly
    /// if its bits are, up to those of infinity, and a negative one never is.
    pub proof fn bits_tell(self)
        ensures
            self@.exceeds(epsilon()) <==> self.bits_exceed_epsilon(),
            self@.at_most(epsilon()) <==> self.bits_at_most_epsilon(),
    {
        self.lemma_against(EPSILON_BITS);
    }

    /// Whether the percentage is greater than the double epsilon.
    pub fn exceeds_epsilon(&self) -> (r: bool)
        ensures
            r == self@.exceeds(epsilon()),
            r == self.bits_exceed_epsilon(),
    {
        proof {
            self.bits_tell();
        }
        EPSILON_BITS < self.bits && self.bits <= INFINITY_BITS
    }

    /// Whether the percentage is no greater than the double epsilon.
    pub fn at_most_epsilon(&self) -> (r: bool)
        ensures
            r == self@.at_most(epsilon()),
            r == self.bits_at_most_epsilon(),
    {
        proof {
            self.bits_tell();
        }
        self.bits <= EPSILON_BITS || (SIGN_BIT <= self.bits && self.bits - SIGN_BIT
            <= INFINITY_BITS)
    }

    /// Whether `rest` is what is left when this percentage is used: the difference of 100 and it,
    /// rounded to a double and clamped to the range from 0 to 100. Where the usage is not a number,
    /// neither is the rest.
    pub open spec fn leaves(self, rest: Percent) -> bool {
        match self@ {
            Reading::NotANumber => rest@ is NotANumber,
            Reading::Infinite { negative } => rest.bits == (if negative {
                HUNDRED_BITS
            } else {
                0
            }),
            Reading::Finite { scaled } => if scaled <= 0 {
                rest.bits == HUNDRED_BITS
            } else if scaled >= hundred() {
                rest.bits == 0
            } else {
                rounds_to(hundred() - scaled, rest.bits)
            },
        }
    }

    /// What is left when this percentage is used.
    pub fn remaining(&self) -> (r: Percent)
        ensures
            self.leaves(r),
    {
        proof {
            self.lemma_against(HUNDRED_BITS);
            self.lemma_against(0);
        }
        if self.bits > INFINITY_BITS && self.bits < SIGN_BIT {
            return *self;
        }
        if self.bits >= SIGN_BIT {
            if self.bits - SIGN_BIT > INFINITY_BITS {
                return *self;
            }
            proof {
                if self.bits - SIGN_BIT > 0 {
                    lemma_size_grows(0, (self.bits - SIGN_BIT) as nat);
                }
            }
            return Percent { bits: HUNDRED_BITS };
        }
        if self.bits == 0 {
            return Percent { bits: HUNDRED_BITS };
        }
        if self.bits >= HUNDRED_BITS {
            return Percent { bits: 0 };
        }
        if self.bits <= HALF_SPACING_BITS {
            proof {
                lemma_near_hundred(self.bits);
            }
            return Percent { bits: HUNDRED_BITS };
        }
        Percent { bits: difference(self.bits) }
    }

    /// How the bits compare to those of a mark, the readings do.
    proof fn lemma_against(self, mark: u64)
        requires
            mark < INFINITY_BITS,
        ensures
            self.bits < INFINITY_BITS ==> {
                &&& self.bits < mark ==> scaled_size(self.bits as nat) < scaled_size(mark as nat)
                &&& self.bits > mark ==> scaled_size(self.bits as nat) > scaled_size(mark as nat)
            },
            scaled_size(EPSILON_BITS as nat) == epsilon(),
            scaled_size(HUNDRED_BITS as nat) == hundred(),
            hundred() > 0,
            epsilon() > 0,
            scaled_size(0) == 0,
    {
        lemma_marks();
        if self.bits < mark {
            lemma_size_grows(self.bits as nat, mark as nat);
        } else if mark < self.bits {
            lemma_size_grows(mark as nat, self.bits as nat);
        }
    }
}

/// A number rounds to one double only.
pub proof fn rounding_is_unique(exact: int, a: u64, b: u64)
    requires
        rounds_to(exact, a),
        rounds_to(exact, b),
    ensures
        a == b,
{
    let (sa, sb) = (scaled_size(a as nat), scaled_size(b as nat));
    if a != b {
        let (low, high) = if a < b {
            (a, b)
        } else {
            (b, a)
        };
        let mid = (low + 1) as u64;
        lemma_size_grows(low as nat, mid as nat);
        lemma_size_grows(mid as nat, high as nat);
        assert(distance(exact, sa as int) == distance(exact, sb as int));
        assert(distance(exact, sa as int) <= distance(exact, scaled_size(mid as nat) as int));
    }
}

/// What is left lies in the range from 0 to 100, unless the usage is not a number.
pub proof fn the_rest_lies_in_range(used: Percent, rest: Percent)
    requires
        used@ !is NotANumber,
        used.leaves(rest),
    ensures
        rest@ matches Reading::Finite { scaled } && 0 <= scaled <= hundred(),
{
    lemma_marks();
    if rest.bits > HUNDRED_BITS {
        lemma_size_grows(HUNDRED_BITS as nat, rest.bits as nat);
        assert(distance(hundred() - used@->scaled, scaled_size(HUNDRED_BITS as nat) as int)
            == used@->scaled);
    } else if rest.bits < HUNDRED_BITS {
        lemma_size_grows(rest.bits as nat, HUNDRED_BITS as nat);
    }
}

/// A usage no greater than the double epsilon leaves all of the limit: 100 percent, exactly. What it
/// takes away is less than half the spacing of the doubles just below 100, and rounding gives it
/// back.
pub proof fn a_full_limit_has_all_of_it_left(used: Percent, rest: Percent)
    requires
        used@.at_most(epsilon()),
        used.leaves(rest),
    ensures
        rest.bits == HUNDRED_BITS,
        rest@ == (Reading::Finite { scaled: hundred() }),
{
    lemma_marks();
    used.bits_tell();
    used.lemma_against(0);
    if 0 < used.bits <= EPSILON_BITS {
        used.lemma_against(HUNDRED_BITS);
        lemma_near_hundred(used.bits);
        rounding_is_unique(hundred() - scaled_size(used.bits as nat), rest.bits, HUNDRED_BITS);
    } else if used.bits > SIGN_BIT {
        lemma_size_grows(0, (used.bits - SIGN_BIT) as nat);
    }
}

/// The doubles go up from 0 one spacing at a time: by two to the power of minus 1074 at first, and by
/// twice as much after every power of two.
pub proof fn doubles_are_one_spacing_apart(bits: nat)
    ensures
        scaled_size(0) == 0,
        bits < 0x20_0000_0000_0000 ==> scaled_size(bits + 1) == scaled_size(bits) + 1,
        bits >= 0x10_0000_0000_0000 ==> scaled_size(bits + 1) == scaled_size(bits) + pow2(
            (bits / 0x10_0000_0000_0000 - 1) as nat,
        ),
{
    lemma2_to64();
    lemma_marks();
    if bits >= 0x10_0000_0000_0000 {
        lemma_next(bits);
        if bits < 0x20_0000_0000_0000 {
            assert(bits / 0x10_0000_0000_0000 == 1);
        }
    } else if bits + 1 < 0x10_0000_0000_0000 {
        assert((bits + 1) / 0x10_0000_0000_0000 == 0 && bits / 0x10_0000_0000_0000 == 0);
    } else {
        assert((bits + 1) / 0x10_0000_0000_0000 == 1 && (bits + 1) % 0x10_0000_0000_0000 == 0);
        assert(0x10_0000_0000_0000 * pow2(0) == 0x10_0000_0000_0000);
    }
}

/// The bits of a percentage tell what it stands for: those up to infinity count up the doubles from
/// 0, the highest bit makes them negative, and what comes after infinity is not a number.
pub proof fn bits_stand_for_doubles(p: Percent)
    ensures
        p.bits < 0x7ff0_0000_0000_0000 ==> p@ == (Reading::Finite {
            scaled: scaled_size(p.bits as nat) as int,
        }),
        p.bits == 0x7ff0_0000_0000_0000 ==> p@ == (Reading::Infinite { negative: false }),
        0x7ff0_0000_0000_0000 < p.bits < 0x8000_0000_0000_0000 ==> p@ == Reading::NotANumber,
        0x8000_0000_0000_0000 <= p.bits < 0xfff0_0000_0000_0000 ==> p@ == (Reading::Finite {
            scaled: -scaled_size((p.bits - 0x8000_0000_0000_0000) as nat),
        }),
        p.bits == 0xfff0_0000_0000_0000 ==> p@ == (Reading::Infinite { negative: true }),
        p.bits > 0xfff0_0000_0000_0000 ==> p@ == Reading::NotANumber,
{
}

/// Whether a reading is a number greater than two to the power of minus 52.
pub open spec fn some_used(reading: Reading) -> bool {
    match reading {
        Reading::NotANumber => false,
        Reading::Infinite { negative } => !negative,
        Reading::Finite { scaled } => scaled > pow2(1022),
    }
}

/// Whether a reading is a number no greater than two to the power of minus 52.
pub open spec fn none_used(reading: Reading) -> bool {
    match reading {
        Reading::NotANumber => false,
        Reading::Infinite { negative } => negative,
        Reading::Finite { scaled } => scaled <= pow2(1022),
    }
}

/// Every number either shows some usage or shows none, and the bits say which.
pub proof fn usage_shows_in_the_bits(p: Percent)
    ensures
        some_used(p@) <==> 0x3cb0_0000_0000_0000 < p.bits <= 0x7ff0_0000_0000_0000,
        none_used(p@) <==> p.bits <= 0x3cb0_0000_0000_0000 || 0x8000_0000_0000_0000 <= p.bits
            <= 0xfff0_0000_0000_0000,
        some_used(p@) <==> p@.exceeds(epsilon()),
        none_used(p@) <==> p@.at_most(epsilon()),
        some_used(p@) <==> p.bits_exceed_epsilon(),
        none_used(p@) <==> p.bits_at_most_epsilon(),
{
    p.bits_tell();
}

/// The double at or just below a number up to 100.
proof fn lemma_below(exact: int, top: nat) -> (below: nat)
    requires
        top <= HUNDRED_BITS,
        0 <= exact < scaled_size(top),
    ensures
        below < top,
        scaled_size(below) <= exact < scaled_size(below + 1),
    decreases top,
{
    lemma_marks();
    if top == 0 {
        0
    } else if scaled_size((top - 1) as nat) <= exact {
        (top - 1) as nat
    } else {
        lemma_below(exact, (top - 1) as nat)
    }
}

/// What is used and what is left make a hundred, as nearly as doubles can: they miss it by no more
/// than two to the power of minus 47, and not at all where the difference is a double itself. Who
/// has used nothing has a hundred left, and who has used a hundred or more has nothing.
pub proof fn used_and_left_make_a_hundred(used: Percent, rest: Percent)
    requires
        used@ is Finite,
        used.leaves(rest),
    ensures
        ({
            let (u, all) = (used@->scaled, 100 * pow2(1074));
            &&& rest@ matches Reading::Finite { scaled: left } && {
                &&& 0 <= left <= all
                &&& u <= 0 ==> left == all && rest.bits == 0x4059_0000_0000_0000
                &&& u >= all ==> left == 0 && rest.bits == 0
                &&& 0 <= u <= all ==> -pow2(1027) <= u + left - all <= pow2(1027)
                &&& forall|bits: u64|
                    0 <= u <= all && bits < INFINITY_BITS && u + #[trigger] scaled_size(bits as nat)
                        == all ==> rest.bits == bits
            }
        }),
{
    lemma_marks();
    the_rest_lies_in_range(used, rest);
    let u = used@->scaled;
    let exact = hundred() - u;
    lemma_pow2_pos(1027);
    if 0 < u < hundred() {
        let below = lemma_below(exact, HUNDRED_BITS as nat);
        doubles_are_one_spacing_apart(below);
        lemma_pow2_unfold(1028);
        assert(scaled_size(below + 1) <= scaled_size(below) + pow2(1028)) by {
            if below >= 0x10_0000_0000_0000 {
                let e = (below / 0x10_0000_0000_0000 - 1) as nat;
                assert(e <= 1028);
                if e < 1028 {
                    lemma_pow2_strictly_increases(e, 1028);
                }
            }
        }
        assert(below as u64 == below && (below + 1) as u64 == below + 1);
        let (lower, upper) = (scaled_size(below as u64 as nat), scaled_size(
            (below + 1) as u64 as nat,
        ));
        assert(distance(exact, scaled_size(rest.bits as nat) as int) <= distance(
            exact,
            lower as int,
        ));
        assert(distance(exact, scaled_size(rest.bits as nat) as int) <= distance(
            exact,
            upper as int,
        ));
    }
    assert forall|bits: u64|
        0 <= u <= hundred() && bits < INFINITY_BITS && u + #[trigger] scaled_size(bits as nat)
            == hundred() implies rest.bits == bits by {
        if rest.bits < bits {
            lemma_size_grows(rest.bits as nat, bits as nat);
        } else if bits < rest.bits {
            lemma_size_grows(bits as nat, rest.bits as nat);
        }
        if bits > 0 {
            lemma_size_grows(0, bits as nat);
        }
        if bits < HUNDRED_BITS {
            lemma_size_grows(bits as nat, HUNDRED_BITS as nat);
        } else if bits > HUNDRED_BITS {
            lemma_size_grows(HUNDRED_BITS as nat, bits as nat);
        }
    }
}

/// What is not a finite usage: an infinite one leaves nothing, a negative infinite one a hundred, and
/// what is not a number leaves what is not one either.
pub proof fn boundless_usage_is_clamped(used: Percent, rest: Percent)
    requires
        used.leaves(rest),
    ensures
        used@ == (Reading::Infinite { negative: false }) ==> rest.bits == 0,
        used@ == (Reading::Infinite { negative: true }) ==> rest.bits == 0x4059_0000_0000_0000,
        used@ is NotANumber ==> rest@ is NotANumber,
{
}

} // verus!
