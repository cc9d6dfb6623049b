use vstd::prelude::*;

verus! {

/// An ordered, summable, zero-valued cost type for the search engine.
///
/// `le_spec` must be a total order (see `le_properties`), `plus_spec` is the
/// engine's notion of addition, and `zero_spec` is the cost of an empty path.
/// Addition saturates at the numeric bounds instead of overflowing, so the
/// engine's arithmetic never panics; callers are expected to keep edge costs
/// non-negative and well within range, as the search's optimality depends on
/// it.
pub trait Numeric: Sized + Copy + Send + Sync {
    spec fn le_spec(self, other: Self) -> bool;

    spec fn plus_spec(self, other: Self) -> Self;

    spec fn zero_spec() -> Self;

    fn le(self, other: Self) -> (r: bool)
        ensures
            r == self.le_spec(other),
    ;

    fn plus(self, other: Self) -> (r: Self)
        ensures
            r == self.plus_spec(other),
    ;

    fn zero() -> (r: Self)
        ensures
            r == Self::zero_spec(),
    ;

    /// `le_spec` is reflexive, antisymmetric, transitive and total.
    proof fn le_properties(a: Self, b: Self, c: Self)
        ensures
            a.le_spec(a),
            a.le_spec(b) && b.le_spec(a) ==> a == b,
            a.le_spec(b) && b.le_spec(c) ==> a.le_spec(c),
            a.le_spec(b) || b.le_spec(a),
    ;
}

/// Strict order derived from `Numeric::le_spec`.
pub open spec fn lt_spec<N: Numeric>(a: N, b: N) -> bool {
    a.le_spec(b) && a != b
}

/// Executable form of `lt_spec`.
pub fn num_lt<N: Numeric>(a: N, b: N) -> (r: bool)
    ensures
        r == lt_spec(a, b),
{
    let r = a.le(b) && !b.le(a);
    proof {
        N::le_properties(a, b, a);
    }
    r
}

impl Numeric for i32 {
    open spec fn le_spec(self, other: Self) -> bool {
        self <= other
    }

    open spec fn plus_spec(self, other: Self) -> Self {
        if self + other > i32::MAX {
            i32::MAX
        } else if self + other < i32::MIN {
            i32::MIN
        } else {
            (self + other) as i32
        }
    }

    open spec fn zero_spec() -> Self {
        0i32
    }

    fn le(self, other: Self) -> bool {
        self <= other
    }

    fn plus(self, other: Self) -> Self {
        match self.checked_add(other) {
            Some(r) => r,
            None => if other >= 0 {
                i32::MAX
            } else {
                i32::MIN
            },
        }
    }

    fn zero() -> Self {
        0
    }

    proof fn le_properties(a: Self, b: Self, c: Self) {
    }
}

impl Numeric for i64 {
    open spec fn le_spec(self, other: Self) -> bool {
        self <= other
    }

    open spec fn plus_spec(self, other: Self) -> Self {
        if self + other > i64::MAX {
            i64::MAX
        } else if self + other < i64::MIN {
            i64::MIN
        } else {
            (self + other) as i64
        }
    }

    open spec fn zero_spec() -> Self {
        0i64
    }

    fn le(self, other: Self) -> bool {
        self <= other
    }

    fn plus(self, other: Self) -> Self {
        match self.checked_add(other) {
            Some(r) => r,
            None => if other >= 0 {
                i64::MAX
            } else {
                i64::MIN
            },
        }
    }

    fn zero() -> Self {
        0
    }

    proof fn le_properties(a: Self, b: Self, c: Self) {
    }
}

impl Numeric for isize {
    open spec fn le_spec(self, other: Self) -> bool {
        self <= other
    }

    open spec fn plus_spec(self, other: Self) -> Self {
        if self + other > isize::MAX {
            isize::MAX
        } else if self + other < isize::MIN {
            isize::MIN
        } else {
            (self + other) as isize
        }
    }

    open spec fn zero_spec() -> Self {
        0isize
    }

    fn le(self, other: Self) -> bool {
        self <= other
    }

    fn plus(self, other: Self) -> Self {
        match self.checked_add(other) {
            Some(r) => r,
            None => if other >= 0 {
                isize::MAX
            } else {
                isize::MIN
            },
        }
    }

    fn zero() -> Self {
        0
    }

    proof fn le_properties(a: Self, b: Self, c: Self) {
    }
}

impl Numeric for u32 {
    open spec fn le_spec(self, other: Self) -> bool {
        self <= other
    }

    open spec fn plus_spec(self, other: Self) -> Self {
        if self + other > u32::MAX {
            u32::MAX
        } else {
            (self + other) as u32
        }
    }

    open spec fn zero_spec() -> Self {
        0u32
    }

    fn le(self, other: Self) -> bool {
        self <= other
    }

    fn plus(self, other: Self) -> Self {
        self.saturating_add(other)
    }

    fn zero() -> Self {
        0
    }

    proof fn le_properties(a: Self, b: Self, c: Self) {
    }
}

impl Numeric for u64 {
    open spec fn le_spec(self, other: Self) -> bool {
        self <= other
    }

    open spec fn plus_spec(self, other: Self) -> Self {
        if self + other > u64::MAX {
            u64::MAX
        } else {
            (self + other) as u64
        }
    }

    open spec fn zero_spec() -> Self {
        0u64
    }

    fn le(self, other: Self) -> bool {
        self <= other
    }

    fn plus(self, other: Self) -> Self {
        self.saturating_add(other)
    }

    fn zero() -> Self {
        0
    }

    proof fn le_properties(a: Self, b: Self, c: Self) {
    }
}

impl Numeric for usize {
    open spec fn le_spec(self, other: Self) -> bool {
        self <= other
    }

    open spec fn plus_spec(self, other: Self) -> Self {
        if self + other > usize::MAX {
            usize::MAX
        } else {
            (self + other) as usize
        }
    }

    open spec fn zero_spec() -> Self {
        0usize
    }

    fn le(self, other: Self) -> bool {
        self <= other
    }

    fn plus(self, other: Self) -> Self {
        self.saturating_add(other)
    }

    fn zero() -> Self {
        0
    }

    proof fn le_properties(a: Self, b: Self, c: Self) {
    }
}

/// A cost type that can also be negated; negation of the extreme value
/// saturates, mirroring `Numeric::plus`.
pub trait NumericNeg: Numeric {
    spec fn neg_spec(self) -> Self;

    fn neg(self) -> (r: Self)
        ensures
            r == self.neg_spec(),
    ;
}

impl NumericNeg for i32 {
    open spec fn neg_spec(self) -> Self {
        if self == i32::MIN {
            i32::MAX
        } else {
            (-self) as i32
        }
    }

    fn neg(self) -> Self {
        if self == i32::MIN {
            i32::MAX
        } else {
            -self
        }
    }
}

impl NumericNeg for i64 {
    open spec fn neg_spec(self) -> Self {
        if self == i64::MIN {
            i64::MAX
        } else {
            (-self) as i64
        }
    }

    fn neg(self) -> Self {
        if self == i64::MIN {
            i64::MAX
        } else {
            -self
        }
    }
}

impl NumericNeg for isize {
    open spec fn neg_spec(self) -> Self {
        if self == isize::MIN {
            isize::MAX
        } else {
            (-self) as isize
        }
    }

    fn neg(self) -> Self {
        if self == isize::MIN {
            isize::MAX
        } else {
            -self
        }
    }
}

/// Multiplicative inversion under truncating integer division: `1 / self`.
///
/// `invert_req` names the values the operation accepts (zero is excluded,
/// since dividing by it would panic) and `invert_spec` gives the exact result.
pub trait Invertible: Sized {
    spec fn invert_req(self) -> bool;

    spec fn invert_spec(self) -> Self;

    fn invert(self) -> (r: Self)
        requires
            self.invert_req(),
        ensures
            r == self.invert_spec(),
    ;
}

impl Invertible for i32 {
    open spec fn invert_req(self) -> bool {
        self != 0
    }

    open spec fn invert_spec(self) -> Self {
        if self == 1 {
            1i32
        } else if self == -1 {
            -1i32
        } else {
            0i32
        }
    }

    fn invert(self) -> Self {
        if self == 1 {
            1
        } else if self == -1 {
            -1
        } else {
            0
        }
    }
}

impl Invertible for i64 {
    open spec fn invert_req(self) -> bool {
        self != 0
    }

    open spec fn invert_spec(self) -> Self {
        if self == 1 {
            1i64
        } else if self == -1 {
            -1i64
        } else {
            0i64
        }
    }

    fn invert(self) -> Self {
        if self == 1 {
            1
        } else if self == -1 {
            -1
        } else {
            0
        }
    }
}

impl Invertible for isize {
    open spec fn invert_req(self) -> bool {
        self != 0
    }

    open spec fn invert_spec(self) -> Self {
        if self == 1 {
            1isize
        } else if self == -1 {
            -1isize
        } else {
            0isize
        }
    }

    fn invert(self) -> Self {
        if self == 1 {
            1
        } else if self == -1 {
            -1
        } else {
            0
        }
    }
}

impl Invertible for u32 {
    open spec fn invert_req(self) -> bool {
        self != 0
    }

    open spec fn invert_spec(self) -> Self {
        if self == 1 {
            1u32
        } else {
            0u32
        }
    }

    fn invert(self) -> Self {
        let r = 1 / self;
        proof {
            if self == 1 {
                assert(r == self.invert_spec());
            } else if 1 < self {
                vstd::arithmetic::div_mod::lemma_basic_div(1, self as int);
            }
        }
        r
    }
}

impl Invertible for u64 {
    open spec fn invert_req(self) -> bool {
        self != 0
    }

    open spec fn invert_spec(self) -> Self {
        if self == 1 {
            1u64
        } else {
            0u64
        }
    }

    fn invert(self) -> Self {
        let r = 1 / self;
        proof {
            if self == 1 {
                assert(r == self.invert_spec());
            } else if 1 < self {
                vstd::arithmetic::div_mod::lemma_basic_div(1, self as int);
            }
        }
        r
    }
}

impl Invertible for usize {
    open spec fn invert_req(self) -> bool {
        self != 0
    }

    open spec fn invert_spec(self) -> Self {
        if self == 1 {
            1usize
        } else {
            0usize
        }
    }

    fn invert(self) -> Self {
        let r = 1 / self;
        proof {
            if self == 1 {
                assert(r == self.invert_spec());
            } else if 1 < self {
                vstd::arithmetic::div_mod::lemma_basic_div(1, self as int);
            }
        }
        r
    }
}

/// A cost type with a distinguished unit value.
pub trait NumericWithUnitValue: Numeric {
    spec fn unit_spec() -> Self;

    fn unit() -> (r: Self)
        ensures
            r == Self::unit_spec(),
    ;
}

impl NumericWithUnitValue for i32 {
    open spec fn unit_spec() -> Self {
        1i32
    }

    fn unit() -> Self {
        1
    }
}

impl NumericWithUnitValue for i64 {
    open spec fn unit_spec() -> Self {
        1i64
    }

    fn unit() -> Self {
        1
    }
}

impl NumericWithUnitValue for isize {
    open spec fn unit_spec() -> Self {
        1isize
    }

    fn unit() -> Self {
        1
    }
}

impl NumericWithUnitValue for u32 {
    open spec fn unit_spec() -> Self {
        1u32
    }

    fn unit() -> Self {
        1
    }
}

impl NumericWithUnitValue for u64 {
    open spec fn unit_spec() -> Self {
        1u64
    }

    fn unit() -> Self {
        1
    }
}

impl NumericWithUnitValue for usize {
    open spec fn unit_spec() -> Self {
        1usize
    }

    fn unit() -> Self {
        1
    }
}

} // verus!
