//! Sequence numbering.

use core::cmp::Ordering;
use core::ops::{Add, Sub};
use vstd::prelude::*;
use vstd::std_specs::cmp::PartialOrdSpecImpl;
use vstd::std_specs::convert::FromSpecImpl;
use vstd::std_specs::ops::{AddSpecImpl, SubSpecImpl};

verus! {

/// A 32-bit sequence number that wraps around.
///
/// The difference between the lowest and highest used sequence number
/// must not exceed [`SeqNum::USABLE_INTERVAL`], otherwise comparison
/// will produce faulty results.
#[derive(Debug, Copy, Clone, PartialEq, Eq, Hash, Structural)]
pub struct SeqNum(pub u32);

/// Number of distinct sequence numbers.
pub open spec fn seq_modulus() -> int {
    0x1_0000_0000
}

/// The sequence number that stands for the (unbounded) position `n` of a stream.
pub open spec fn seq_of(n: int) -> SeqNum {
    SeqNum((n % seq_modulus()) as u32)
}

/// How many steps lead forward from `b` to `a`.
pub open spec fn steps_between(a: SeqNum, b: SeqNum) -> int {
    if a.0 >= b.0 {
        a.0 - b.0
    } else {
        a.0 - b.0 + seq_modulus()
    }
}

/// Signed distance from `b` to `a`, taken the shorter way around.
pub open spec fn signed_steps(a: SeqNum, b: SeqNum) -> int {
    if steps_between(a, b) < 0x8000_0000 {
        steps_between(a, b)
    } else {
        steps_between(a, b) - seq_modulus()
    }
}

impl SeqNum {
    /// A quarter of the number range.
    pub const ONE_QUARTER: u32 = 0x3fff_ffff;

    /// Three quarters of the number range.
    pub const THREE_QUARTERS: u32 = 0xbfff_fffd;

    /// Usable interval.
    pub const USABLE_INTERVAL: i32 = 0x3fff_ffff;

    /// The number `n` steps further.
    pub open spec fn plus(self, n: int) -> SeqNum {
        seq_of(self.0 + n)
    }

    /// Whether this number is ordered strictly before `other`.
    pub open spec fn precedes(self, other: SeqNum) -> bool {
        self.order(other) == Ordering::Less
    }

    /// Order of two sequence numbers.
    ///
    /// Numbers from the first quarter of the range follow numbers from the last quarter.
    pub open spec fn order(self, other: SeqNum) -> Ordering {
        if self.0 < SeqNum::ONE_QUARTER && other.0 >= SeqNum::THREE_QUARTERS {
            Ordering::Greater
        } else if other.0 < SeqNum::ONE_QUARTER && self.0 >= SeqNum::THREE_QUARTERS {
            Ordering::Less
        } else if self.0 < other.0 {
            Ordering::Less
        } else if self.0 == other.0 {
            Ordering::Equal
        } else {
            Ordering::Greater
        }
    }

    /// Zero.
    pub fn zero() -> (r: SeqNum)
        ensures
            r == seq_of(0),
    {
        SeqNum(0)
    }

    /// Minus one.
    pub fn minus_one() -> (r: SeqNum)
        ensures
            r == seq_of(-1),
    {
        SeqNum(0xffff_ffff)
    }

    /// Number of forward steps from `other` to this number.
    pub fn steps_from(self, other: SeqNum) -> (n: u32)
        ensures
            n == steps_between(self, other),
    {
        self.0.wrapping_sub(other.0)
    }
}

impl FromSpecImpl<u32> for SeqNum {
    open spec fn obeys_from_spec() -> bool {
        true
    }

    open spec fn from_spec(v: u32) -> SeqNum {
        SeqNum(v)
    }
}

impl From<u32> for SeqNum {
    fn from(v: u32) -> (r: Self) {
        SeqNum(v)
    }
}

impl FromSpecImpl<SeqNum> for u32 {
    open spec fn obeys_from_spec() -> bool {
        true
    }

    open spec fn from_spec(v: SeqNum) -> u32 {
        v.0
    }
}

impl From<SeqNum> for u32 {
    fn from(v: SeqNum) -> (r: Self) {
        v.0
    }
}

impl AddSpecImpl<u32> for SeqNum {
    open spec fn obeys_add_spec() -> bool {
        true
    }

    open spec fn add_req(self, rhs: u32) -> bool {
        true
    }

    open spec fn add_spec(self, rhs: u32) -> SeqNum {
        self.plus(rhs as int)
    }
}

impl Add<u32> for SeqNum {
    type Output = SeqNum;

    fn add(self, rhs: u32) -> (r: SeqNum) {
        SeqNum(self.0.wrapping_add(rhs))
    }
}

impl AddSpecImpl<i32> for SeqNum {
    open spec fn obeys_add_spec() -> bool {
        true
    }

    open spec fn add_req(self, rhs: i32) -> bool {
        true
    }

    open spec fn add_spec(self, rhs: i32) -> SeqNum {
        self.plus(rhs as int)
    }
}

impl Add<i32> for SeqNum {
    type Output = SeqNum;

    fn add(self, rhs: i32) -> (r: SeqNum) {
        SeqNum(self.0.wrapping_add_signed(rhs))
    }
}

impl SubSpecImpl<SeqNum> for SeqNum {
    open spec fn obeys_sub_spec() -> bool {
        true
    }

    open spec fn sub_req(self, rhs: SeqNum) -> bool {
        true
    }

    open spec fn sub_spec(self, rhs: SeqNum) -> i32 {
        signed_steps(self, rhs) as i32
    }
}

impl Sub<SeqNum> for SeqNum {
    type Output = i32;

    fn sub(self, rhs: SeqNum) -> (r: i32) {
        let steps: u32 = self.0.wrapping_sub(rhs.0);
        assert(steps < 0x8000_0000 ==> steps as i32 == steps) by (bit_vector);
        assert(steps >= 0x8000_0000 ==> steps as i32 == steps - 0x1_0000_0000) by (bit_vector);
        steps as i32
    }
}

impl SubSpecImpl<u32> for SeqNum {
    open spec fn obeys_sub_spec() -> bool {
        true
    }

    open spec fn sub_req(self, rhs: u32) -> bool {
        true
    }

    open spec fn sub_spec(self, rhs: u32) -> SeqNum {
        self.plus(-(rhs as int))
    }
}

impl Sub<u32> for SeqNum {
    type Output = SeqNum;

    fn sub(self, rhs: u32) -> (r: SeqNum) {
        SeqNum(self.0.wrapping_sub(rhs))
    }
}

impl SubSpecImpl<i32> for SeqNum {
    open spec fn obeys_sub_spec() -> bool {
        true
    }

    open spec fn sub_req(self, rhs: i32) -> bool {
        true
    }

    open spec fn sub_spec(self, rhs: i32) -> SeqNum {
        self.plus(-(rhs as int))
    }
}

impl Sub<i32> for SeqNum {
    type Output = SeqNum;

    fn sub(self, rhs: i32) -> (r: SeqNum) {
        let unsigned: u32 = rhs as u32;
        assert(rhs >= 0 ==> rhs as u32 == rhs) by (bit_vector);
        assert(rhs < 0 ==> rhs as u32 == rhs + 0x1_0000_0000) by (bit_vector);
        SeqNum(self.0.wrapping_sub(unsigned))
    }
}

impl SubSpecImpl<usize> for SeqNum {
    open spec fn obeys_sub_spec() -> bool {
        true
    }

    open spec fn sub_req(self, rhs: usize) -> bool {
        rhs <= u32::MAX
    }

    open spec fn sub_spec(self, rhs: usize) -> SeqNum {
        self.plus(-(rhs as int))
    }
}

impl Sub<usize> for SeqNum {
    type Output = SeqNum;

    fn sub(self, rhs: usize) -> (r: SeqNum) {
        SeqNum(self.0.wrapping_sub(rhs as u32))
    }
}

impl PartialOrdSpecImpl for SeqNum {
    open spec fn obeys_partial_cmp_spec() -> bool {
        true
    }

    open spec fn partial_cmp_spec(&self, other: &SeqNum) -> Option<Ordering> {
        Some(self.order(*other))
    }
}

impl PartialOrd for SeqNum {
    fn partial_cmp(&self, other: &SeqNum) -> (r: Option<Ordering>) {
        if self.0 < SeqNum::ONE_QUARTER && other.0 >= SeqNum::THREE_QUARTERS {
            Some(Ordering::Greater)
        } else if other.0 < SeqNum::ONE_QUARTER && self.0 >= SeqNum::THREE_QUARTERS {
            Some(Ordering::Less)
        } else if self.0 < other.0 {
            Some(Ordering::Less)
        } else if self.0 == other.0 {
            Some(Ordering::Equal)
        } else {
            Some(Ordering::Greater)
        }
    }
}

/// Comparison follows the stream: of two positions that lie at most the usable interval apart,
/// the earlier one compares less than the later one, also across a wrap-around.
pub proof fn law_order_follows_stream(m: int, n: int)
    requires
        m < n <= m + SeqNum::USABLE_INTERVAL,
    ensures
        seq_of(m).precedes(seq_of(n)),
        !seq_of(n).precedes(seq_of(m)),
        seq_of(m) != seq_of(n),
        signed_steps(seq_of(n), seq_of(m)) == n - m,
{
}

/// Adding a number of steps and subtracting it again gives back the sequence number.
pub proof fn law_add_sub_cancel(s: SeqNum, n: int)
    ensures
        s.plus(n).plus(-n) == s,
        s.plus(-n).plus(n) == s,
{
}

/// The distance to a number that lies `n` steps ahead is `n`.
pub proof fn law_distance_of_sum(s: SeqNum, n: int)
    requires
        -0x8000_0000 <= n < 0x8000_0000,
    ensures
        signed_steps(s.plus(n), s) == n,
{
}

/// Steps forward from a position of the stream lead to a later position.
pub proof fn lemma_seq_of_plus(n: int, k: int)
    ensures
        seq_of(n).plus(k) == seq_of(n + k),
{
}

/// The number of steps between two positions of the stream is their distance.
pub proof fn lemma_steps_between_positions(m: int, n: int)
    requires
        m <= n < m + seq_modulus(),
    ensures
        steps_between(seq_of(n), seq_of(m)) == n - m,
{
}

} // verus!
