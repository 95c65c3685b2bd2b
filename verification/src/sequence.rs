//! Sequence numbers that wrap around, and the order they are played in.

use std::cmp::Ordering;
use vstd::prelude::*;

verus! {

/// A wrapping sequence number type according to the RFC 3550
/// that has a window in which normal u16 comparisons are inverted
///
/// See https://www.rfc-editor.org/rfc/rfc3550#appendix-A.1 as reference
/// for wrapping sequence number handling
///
/// The accepted wrapping window is set to 16 numbers: it reaches 8 numbers down
/// from the greatest number and 8 numbers up from the least
#[derive(Debug, Clone, Copy, PartialEq, Eq, Structural)]
pub struct SequenceNumber(pub u16);

impl SequenceNumber {
    pub const WRAPPING_WINDOW_SIZE: u16 = 16;

    /// The least number that counts as lying shortly before the wrap.
    pub const WRAPPING_WINDOW_START: u16 = u16::MAX - (Self::WRAPPING_WINDOW_SIZE / 2);

    /// The greatest number that counts as lying shortly after the wrap.
    pub const WRAPPING_WINDOW_END: u16 = u16::MIN + (Self::WRAPPING_WINDOW_SIZE / 2);

    /// Whether the number lies shortly before the wrap.
    pub open spec fn before_wrap(self) -> bool {
        self.0 >= Self::WRAPPING_WINDOW_START
    }

    /// Whether the number lies shortly after the wrap.
    pub open spec fn after_wrap(self) -> bool {
        self.0 <= Self::WRAPPING_WINDOW_END
    }

    /// Whether the step from `self` to `next` goes across the wrap.
    pub open spec fn wraps_to(self, next: Self) -> bool {
        self.before_wrap() && next.after_wrap()
    }

    /// The strict order of playback: numeric, but turned around for two numbers
    /// that lie on different sides of the wrap.
    pub open spec fn precedes(self, other: Self) -> bool {
        if self.wraps_to(other) || other.wraps_to(self) {
            self.wraps_to(other)
        } else {
            self.0 < other.0
        }
    }

    /// The three-way form of `precedes`.
    pub open spec fn order(self, other: Self) -> Ordering {
        if self.precedes(other) {
            Ordering::Less
        } else if other.precedes(self) {
            Ordering::Greater
        } else {
            Ordering::Equal
        }
    }

    /// The number `n` places further on, around the wrap where need be.
    pub open spec fn plus(self, n: int) -> Self {
        SequenceNumber(((self.0 + n) % 0x10000) as u16)
    }

    /// The number that is due after this one.
    pub open spec fn next(self) -> Self {
        self.plus(1)
    }

    /// How many places further on `other` lies, around the wrap where need be.
    pub open spec fn places_to(self, other: Self) -> int {
        (other.0 - self.0) % 0x10000
    }

    /// Whether the step from this number to `next` goes across the wrap.
    pub fn did_wrap(&self, next: Self) -> (wrapped: bool)
        ensures
            wrapped == self.wraps_to(next),
            wrapped == (self.0 >= 65527 && next.0 <= 8),
    {
        self.0 >= Self::WRAPPING_WINDOW_START && next.0 <= Self::WRAPPING_WINDOW_END
    }

    /// Compares two numbers in the order of playback.
    pub fn cmp(&self, other: &Self) -> (ordering: Ordering)
        ensures
            ordering == self.order(*other),
            ordering == Ordering::Less <==> self.precedes(*other),
            ordering == Ordering::Greater <==> other.precedes(*self),
            ordering == Ordering::Equal <==> self.0 == other.0,
    {
        proof {
            law_lesser_is_played_first(*self, *other);
        }
        if self.did_wrap(*other) {
            return Ordering::Less;
        } else if other.did_wrap(*self) {
            return Ordering::Greater;
        }
        if self.0 < other.0 {
            Ordering::Less
        } else if self.0 == other.0 {
            Ordering::Equal
        } else {
            Ordering::Greater
        }
    }

    /// The number `n` places further on, around the wrap where need be.
    pub(crate) fn advanced(self, n: u16) -> (further: Self)
        ensures
            further == self.plus(n as int),
    {
        SequenceNumber(self.0.wrapping_add(n))
    }

    /// How many places further on `other` lies, around the wrap where need be.
    pub(crate) fn count_places(self, other: Self) -> (places: u16)
        ensures
            places == self.places_to(other),
    {
        other.0.wrapping_sub(self.0)
    }
}

impl PartialOrd for SequenceNumber {
    fn partial_cmp(&self, other: &Self) -> (ordering: Option<Ordering>)
        ensures
            ordering == Some(Ordering::Less) <==> self.precedes(*other),
            ordering == Some(Ordering::Greater) <==> other.precedes(*self),
            ordering is Some,
    {
        Some(self.cmp(other))
    }
}

impl vstd::std_specs::cmp::PartialOrdSpecImpl for SequenceNumber {
    open spec fn obeys_partial_cmp_spec() -> bool {
        true
    }

    open spec fn partial_cmp_spec(&self, other: &Self) -> Option<Ordering> {
        Some(self.order(*other))
    }
}

impl From<u16> for SequenceNumber {
    fn from(num: u16) -> (sn: Self) {
        SequenceNumber(num)
    }
}

impl vstd::std_specs::convert::FromSpecImpl<u16> for SequenceNumber {
    open spec fn obeys_from_spec() -> bool {
        true
    }

    open spec fn from_spec(num: u16) -> Self {
        SequenceNumber(num)
    }
}

impl From<SequenceNumber> for u16 {
    fn from(sn: SequenceNumber) -> (num: Self) {
        sn.0
    }
}

impl vstd::std_specs::convert::FromSpecImpl<SequenceNumber> for u16 {
    open spec fn obeys_from_spec() -> bool {
        true
    }

    open spec fn from_spec(sn: SequenceNumber) -> Self {
        sn.0
    }
}

/// Whether one of three numbers lies before the wrap, one after it and one away
/// from it on either side. On such numbers the order runs in a circle.
pub open spec fn circular(
    before: SequenceNumber,
    after: SequenceNumber,
    away: SequenceNumber,
) -> bool {
    &&& before.before_wrap()
    &&& after.after_wrap()
    &&& !away.before_wrap()
    &&& !away.after_wrap()
}

/// On circular numbers each precedes the one after it, all the way round.
pub proof fn law_circle(before: SequenceNumber, after: SequenceNumber, away: SequenceNumber)
    requires
        circular(before, after, away),
    ensures
        before.precedes(after),
        after.precedes(away),
        away.precedes(before),
{
}

/// Whether no choice of roles makes the three numbers circular.
pub open spec fn linear(a: SequenceNumber, b: SequenceNumber, c: SequenceNumber) -> bool {
    &&& !circular(a, b, c)
    &&& !circular(a, c, b)
    &&& !circular(b, a, c)
    &&& !circular(b, c, a)
    &&& !circular(c, a, b)
    &&& !circular(c, b, a)
}

/// Of two numbers exactly one precedes the other, unless they are the same.
pub proof fn law_trichotomy(a: SequenceNumber, b: SequenceNumber)
    ensures
        a.precedes(b) ==> !b.precedes(a),
        (a == b) == (!a.precedes(b) && !b.precedes(a)),
        a.order(b) == Ordering::Equal <==> a == b,
        a.order(b) == Ordering::Less <==> b.order(a) == Ordering::Greater,
{
    if !a.precedes(b) && !b.precedes(a) {
        assert(a.0 == b.0);
    }
}

/// Away from the wrap the order is that of the numbers themselves.
pub proof fn law_numeric_order_is_preserved(a: SequenceNumber, b: SequenceNumber)
    requires
        !a.wraps_to(b),
        !b.wraps_to(a),
    ensures
        a.precedes(b) <==> a.0 < b.0,
{
}

/// Within the window the order is inverted: what lies before the wrap comes
/// first, although it is the greater number.
pub proof fn law_order_is_inverted_at_the_wrap(a: SequenceNumber, b: SequenceNumber)
    requires
        a.before_wrap(),
        b.after_wrap(),
    ensures
        a.precedes(b),
        a.0 > b.0,
{
}

/// Every number precedes the one due after it, across the wrap too.
pub proof fn law_next_follows(a: SequenceNumber)
    ensures
        a.precedes(a.next()),
{
}

/// Nothing lies between a number and the one due after it.
pub proof fn law_nothing_between(a: SequenceNumber, x: SequenceNumber)
    ensures
        !(a.precedes(x) && x.precedes(a.next())),
{
}

/// What follows a number and is not the one due next follows that one too.
pub proof fn law_beyond_next(a: SequenceNumber, x: SequenceNumber)
    requires
        a.precedes(x),
        x != a.next(),
    ensures
        a.next().precedes(x),
{
    assert(x.0 != a.next().0);
}

/// The number that lies as many places further on as another does is that one.
pub proof fn law_places_lead_there(a: SequenceNumber, b: SequenceNumber)
    ensures
        0 <= a.places_to(b) < 0x10000,
        a.plus(a.places_to(b)) == b,
{
    assert(a.plus(a.places_to(b)).0 == b.0);
}

/// The order of playback in plain numbers: the 9 numbers from 65527 on come before
/// the 9 numbers up to 8, and all other numbers are in their own order.
pub proof fn law_order_in_numbers(a: SequenceNumber, b: SequenceNumber)
    ensures
        a.0 >= 65527 && b.0 <= 8 ==> a.precedes(b) && a.wraps_to(b),
        a.0 <= 8 && b.0 >= 65527 ==> !a.precedes(b) && b.wraps_to(a),
        a.0 < 65527 && a.0 > 8 ==> (a.precedes(b) <==> a.0 < b.0),
        b.0 < 65527 && b.0 > 8 ==> (a.precedes(b) <==> a.0 < b.0),
        a.0 >= 65527 && b.0 >= 65527 ==> (a.precedes(b) <==> a.0 < b.0),
        a.0 <= 8 && b.0 <= 8 ==> (a.precedes(b) <==> a.0 < b.0),
        a.wraps_to(b) ==> a.0 >= 65527 && b.0 <= 8,
{
}

/// A comparison says which of two numbers is played first: the lesser one is.
pub proof fn law_lesser_is_played_first(a: SequenceNumber, b: SequenceNumber)
    ensures
        a.order(b) == Ordering::Less <==> a.precedes(b),
        a.order(b) == Ordering::Greater <==> b.precedes(a),
        a.order(b) == Ordering::Equal <==> a.0 == b.0,
{
    law_trichotomy(a, b);
}

/// Going on by a number of places adds to the number, and starts again at 0 after
/// the greatest one. The way back is counted by `places_to`.
pub proof fn law_places_in_numbers(a: SequenceNumber, b: SequenceNumber, n: int)
    requires
        0 <= n <= u16::MAX,
    ensures
        a.0 + n <= 65535 ==> a.plus(n).0 == a.0 + n,
        a.0 + n > 65535 ==> a.plus(n).0 == a.0 + n - 65536,
        a.places_to(a.plus(n)) == n,
        a.0 <= b.0 ==> a.places_to(b) == b.0 - a.0,
        a.0 > b.0 ==> a.places_to(b) == b.0 + 65536 - a.0,
        a.0 < 65535 ==> a.next().0 == a.0 + 1,
        a.0 == 65535 ==> a.next().0 == 0,
{
}

/// The order is transitive on numbers that do not run in a circle.
pub proof fn law_transitive(a: SequenceNumber, b: SequenceNumber, c: SequenceNumber)
    requires
        linear(a, b, c),
        a.precedes(b),
        b.precedes(c),
    ensures
        a.precedes(c),
{
}

} // verus!
