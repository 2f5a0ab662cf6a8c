//! Fee growth inside a range of ticks: whatever the order in which the price
//! crosses the two ticks of the range, the growth inside the range is the
//! growth that came about while the price was inside.

use vstd::prelude::*;
use crate::full_math::mul_div_floor;
use crate::position::fees_for_growth;
use crate::tick::{growth_inside, wrap_add, wrap_sub};
use crate::wide::pow64;

verus! {

/// What the growth inside a range depends on: the growth so far, the growth
/// outside each of the two ticks, and the current tick.
pub struct RangeGrowth {
    pub lower_tick: i32,
    pub upper_tick: i32,
    pub lower_outside: u128,
    pub upper_outside: u128,
    pub current_tick: i32,
    pub global: u128,
}

/// What can happen to a range: fees grow by an amount, or the price crosses
/// one of the two ticks and comes to stand at a new tick.
pub enum RangeEvent {
    Grow(u128),
    CrossLower(i32),
    CrossUpper(i32),
}

impl RangeGrowth {
    /// Whether the price is inside the range.
    pub open spec fn in_range(self) -> bool {
        self.lower_tick <= self.current_tick < self.upper_tick
    }

    /// The growth inside the range.
    pub open spec fn inside(self) -> u128 {
        growth_inside(
            self.lower_tick,
            self.lower_outside,
            self.upper_tick,
            self.upper_outside,
            self.current_tick,
            self.global,
        )
    }

    /// Whether an event can happen: a crossing takes the price to the other
    /// side of the tick that is crossed and leaves it on the same side of the
    /// other tick.
    pub open spec fn admits(self, event: RangeEvent) -> bool {
        match event {
            RangeEvent::Grow(_) => true,
            RangeEvent::CrossLower(to) => (self.current_tick >= self.lower_tick) != (to
                >= self.lower_tick) && (self.current_tick < self.upper_tick) == (to
                < self.upper_tick),
            RangeEvent::CrossUpper(to) => (self.current_tick < self.upper_tick) != (to
                < self.upper_tick) && (self.current_tick >= self.lower_tick) == (to
                >= self.lower_tick),
        }
    }

    /// The range after an event: growth adds to the growth so far, modulo
    /// `2^128`; a crossing flips the growth outside the crossed tick against
    /// the growth so far and moves the price.
    pub open spec fn after(self, event: RangeEvent) -> RangeGrowth {
        match event {
            RangeEvent::Grow(amount) => RangeGrowth {
                global: wrap_add(self.global, amount),
                ..self
            },
            RangeEvent::CrossLower(to) => RangeGrowth {
                lower_outside: wrap_sub(self.global, self.lower_outside),
                current_tick: to,
                ..self
            },
            RangeEvent::CrossUpper(to) => RangeGrowth {
                upper_outside: wrap_sub(self.global, self.upper_outside),
                current_tick: to,
                ..self
            },
        }
    }

    /// Whether a list of events can happen one after the other.
    pub open spec fn admits_all(self, events: Seq<RangeEvent>) -> bool
        decreases events.len(),
    {
        events.len() == 0 || (self.admits(events[0]) && self.after(events[0]).admits_all(
            events.drop_first(),
        ))
    }

    /// The range after a list of events.
    pub open spec fn after_all(self, events: Seq<RangeEvent>) -> RangeGrowth
        decreases events.len(),
    {
        if events.len() == 0 {
            self
        } else {
            self.after(events[0]).after_all(events.drop_first())
        }
    }

    /// The growth that comes about while the price is inside the range, over
    /// a list of events, modulo `2^128`.
    pub open spec fn earned(self, events: Seq<RangeEvent>) -> u128
        decreases events.len(),
    {
        if events.len() == 0 {
            0
        } else {
            let here: u128 = match events[0] {
                RangeEvent::Grow(amount) => if self.in_range() {
                    amount
                } else {
                    0
                },
                _ => 0,
            };
            wrap_add(here, self.after(events[0]).earned(events.drop_first()))
        }
    }
}

/// One event changes the growth inside a range by what grows while the price
/// is inside: a crossing leaves it as it is, and growth adds to it exactly
/// where the price is inside.
pub proof fn lemma_event_changes_inside(range: RangeGrowth, event: RangeEvent)
    requires
        range.lower_tick < range.upper_tick,
        range.admits(event),
    ensures
        wrap_sub(range.after(event).inside(), range.inside()) == (match event {
            RangeEvent::Grow(amount) => if range.in_range() {
                amount
            } else {
                0
            },
            _ => 0,
        }),
{
}

/// Over any list of events that can happen, the growth inside a range whose
/// lower tick is below its upper tick changes by the growth that came about while the price was inside, modulo
/// `2^128`. Where the price ends inside the range, the growth inside is the
/// growth so far less the growth outside the two ticks.
pub proof fn lemma_inside_growth_is_earned(range: RangeGrowth, events: Seq<RangeEvent>)
    requires
        range.lower_tick < range.upper_tick,
        range.admits_all(events),
    ensures
        wrap_sub(range.after_all(events).inside(), range.inside()) == range.earned(events),
        range.after_all(events).in_range() ==> range.after_all(events).inside() == wrap_sub(
            wrap_sub(range.after_all(events).global, range.after_all(events).lower_outside),
            range.after_all(events).upper_outside,
        ),
    decreases events.len(),
{
    if events.len() > 0 {
        lemma_event_changes_inside(range, events[0]);
        lemma_inside_growth_is_earned(range.after(events[0]), events.drop_first());
    }
}

/// The fees that a position earns over any list of events that can happen
/// are its liquidity times the growth that came about while the price was
/// inside its range, over `2^64`, rounded down. Where the price ends inside
/// the range, that growth is the growth so far less the growth outside the
/// two ticks and less the growth inside at the start, modulo `2^128`.
pub proof fn lemma_position_fees_are_earned(
    range: RangeGrowth,
    events: Seq<RangeEvent>,
    liquidity: u128,
)
    requires
        range.lower_tick < range.upper_tick,
        range.admits_all(events),
    ensures
        fees_for_growth(range.inside(), range.after_all(events).inside(), liquidity)
            == mul_div_floor(range.earned(events) as nat, liquidity as nat, pow64()),
        range.after_all(events).in_range() ==> fees_for_growth(
            range.inside(),
            range.after_all(events).inside(),
            liquidity,
        ) == mul_div_floor(
            wrap_sub(
                wrap_sub(
                    wrap_sub(range.after_all(events).global, range.after_all(events).lower_outside),
                    range.after_all(events).upper_outside,
                ),
                range.inside(),
            ) as nat,
            liquidity as nat,
            pow64(),
        ),
{
    lemma_inside_growth_is_earned(range, events);
}

} // verus!
