//! A tick array read from account data, in whichever of the two layouts the
//! account has, behind one set of queries.

use vstd::prelude::*;
use crate::dyn_tick_array::DynTickArrayState;
use crate::layout::{
    append_bytes,
    append_i32,
    append_tick_states,
    append_u64,
    are_dyn_ticks_of,
    dyn_header_body,
    fixed_array_body,
    has_discriminator,
    is_dyn_header_of,
    is_fixed_array_of,
    lemma_dyn_array_bytes_match,
    lemma_dyn_array_bytes_unique,
    lemma_fixed_array_bytes_match,
    lemma_fixed_array_bytes_unique,
    lemma_tick_state_unique,
    read_dyn_header,
    read_dyn_ticks,
    read_fixed_array,
    tick_states_bytes,
};
use crate::tick::{TickState, TickUtils, array_start_index, is_valid_start_index, slot_of_tick};
use crate::tick_array::{
    TickArrayState,
    first_initialized_slot,
    lemma_first_set_at_or_above,
    lemma_last_set_at_or_below,
    next_initialized_slot,
};

verus! {

/// The tag of the fixed layout.
pub open spec fn fixed_discriminator() -> Seq<u8> {
    seq![192u8, 155u8, 85u8, 205u8, 49u8, 249u8, 129u8, 42u8]
}

/// The tag of the dynamic layout.
pub open spec fn dyn_discriminator() -> Seq<u8> {
    seq![106u8, 139u8, 152u8, 36u8, 117u8, 153u8, 184u8, 56u8]
}

/// Whether the bytes open with the given tag.
pub open spec fn has_tag(b: Seq<u8>, tag: Seq<u8>) -> bool {
    b.len() >= 8 && b.subrange(0, 8) == tag
}

/// Which layout the bytes hold.
pub enum LayoutKind {
    Fixed,
    Dynamic,
}

/// The layout that the bytes hold in full, if any: the dynamic layout needs
/// its tag, a whole header and a whole number of tick states; the fixed
/// layout needs its tag and its exact length.
pub open spec fn layout_of(b: Seq<u8>) -> Option<LayoutKind> {
    if has_tag(b, dyn_discriminator()) {
        if b.len() >= 216 && (b.len() - 216) % 168 == 0 {
            Some(LayoutKind::Dynamic)
        } else {
            None
        }
    } else if has_tag(b, fixed_discriminator()) {
        if b.len() == 10240 {
            Some(LayoutKind::Fixed)
        } else {
            None
        }
    } else {
        None
    }
}

/// Either a fixed or a dynamic tick array.
#[derive(Clone, Debug)]
pub enum TickArrayData {
    Fixed(TickArrayState),
    Dynamic { header: DynTickArrayState, ticks: Vec<TickState> },
}

impl TickArrayData {
    /// The start tick index.
    pub open spec fn spec_start_tick_index(&self) -> i32 {
        match self {
            TickArrayData::Fixed(ta) => ta.start_tick_index,
            TickArrayData::Dynamic { header, .. } => header.start_tick_index,
        }
    }

    /// Which slots hold an initialized tick.
    pub open spec fn initialized_flags(&self) -> Seq<bool> {
        match self {
            TickArrayData::Fixed(ta) => ta.initialized_flags(),
            TickArrayData::Dynamic { header, ticks } => header.initialized_flags(ticks@),
        }
    }

    /// The tick that is reported for an initialized slot: the tick that the
    /// slot's state names in the fixed layout, the tick of the slot's place
    /// in the dynamic layout, where that is a 32-bit number.
    pub open spec fn reported_tick(&self, slot: int, tick_spacing: int) -> Option<i32> {
        match self {
            TickArrayData::Fixed(ta) => Some(ta.ticks[slot].tick),
            TickArrayData::Dynamic { header, .. } => {
                let tick = header.start_tick_index + slot * tick_spacing;
                if tick <= i32::MAX {
                    Some(tick as i32)
                } else {
                    None
                }
            },
        }
    }

    /// Whether the tick array stands on the tick grid: its start index is
    /// one that a tick array can have, and the tick that it reports for an
    /// initialized slot is the tick of the slot's place.
    pub open spec fn is_on_grid(&self, tick_spacing: u16) -> bool {
        &&& is_valid_start_index(self.spec_start_tick_index() as int, tick_spacing as int)
        &&& forall|k: int|
            0 <= k < 60 && #[trigger] self.initialized_flags()[k] ==> match self.reported_tick(
                k,
                tick_spacing as int,
            ) {
                Some(tick) => tick == self.spec_start_tick_index() + k * tick_spacing,
                None => true,
            }
    }

    /// What `next_initialized_tick` returns.
    pub open spec fn spec_next_initialized_tick(
        &self,
        current_tick: i32,
        tick_spacing: u16,
        zero_for_one: bool,
        allow_first: bool,
    ) -> Option<i32> {
        let slot = if allow_first {
            first_initialized_slot(self.initialized_flags(), zero_for_one)
        } else {
            next_initialized_slot(
                self.initialized_flags(),
                self.spec_start_tick_index() as int,
                current_tick as int,
                tick_spacing as int,
                zero_for_one,
            )
        };
        match slot {
            Some(k) => self.reported_tick(k, tick_spacing as int),
            None => None,
        }
    }

    /// What `get_tick_liquidity_net` returns.
    pub open spec fn spec_tick_liquidity_net(&self, tick_index: i32, tick_spacing: u16) -> Option<
        i128,
    > {
        let slot = slot_of_tick(
            self.spec_start_tick_index() as int,
            tick_index as int,
            tick_spacing as int,
        );
        if array_start_index(tick_index as int, tick_spacing as int)
            != self.spec_start_tick_index() {
            None
        } else {
            match self {
                TickArrayData::Fixed(ta) => Some(ta.ticks[slot].liquidity_net),
                TickArrayData::Dynamic { header, ticks } => {
                    let position = header.tick_offset_index[slot];
                    if position > 0 && position - 1 < ticks@.len() {
                        Some(ticks@[position - 1].liquidity_net)
                    } else {
                        None
                    }
                },
            }
        }
    }

    /// Whether this is the tick array that the bytes hold.
    pub open spec fn is_parsed_from(&self, b: Seq<u8>) -> bool {
        match self {
            TickArrayData::Fixed(ta) => layout_of(b) == Some(LayoutKind::Fixed)
                && is_fixed_array_of(*ta, b),
            TickArrayData::Dynamic { header, ticks } => layout_of(b) == Some(LayoutKind::Dynamic)
                && is_dyn_header_of(*header, b) && are_dyn_ticks_of(ticks@, b),
        }
    }

    /// The data of the account that holds this tick array.
    pub open spec fn spec_bytes(&self) -> Seq<u8> {
        match self {
            TickArrayData::Fixed(ta) => fixed_discriminator() + fixed_array_body(*ta),
            TickArrayData::Dynamic { header, ticks } => dyn_discriminator() + dyn_header_body(
                *header,
            ) + tick_states_bytes(ticks@),
        }
    }

    /// Writes the tick array as the data of its account.
    pub fn to_bytes(&self) -> (r: Vec<u8>)
        ensures
            r@ == self.spec_bytes(),
    {
        let mut out: Vec<u8> = Vec::new();
        match self {
            TickArrayData::Fixed(ta) => {
                append_bytes(&mut out, TickArrayState::DISCRIMINATOR.as_slice());
                assert(out@ =~= fixed_discriminator());
                append_bytes(&mut out, ta.pool_id.bytes.as_slice());
                append_i32(&mut out, ta.start_tick_index);
                append_tick_states(&mut out, ta.ticks.as_slice());
                out.push(ta.initialized_tick_count);
                append_u64(&mut out, ta.recent_epoch);
                append_bytes(&mut out, ta.padding.as_slice());
                assert(out@ =~= self.spec_bytes());
            },
            TickArrayData::Dynamic { header, ticks } => {
                append_bytes(&mut out, DynTickArrayState::DISCRIMINATOR.as_slice());
                assert(out@ =~= dyn_discriminator());
                append_bytes(&mut out, header.pool_id.bytes.as_slice());
                append_i32(&mut out, header.start_tick_index);
                append_bytes(&mut out, header.padding_0.as_slice());
                append_bytes(&mut out, header.tick_offset_index.as_slice());
                out.push(header.alloc_tick_count);
                out.push(header.initialized_tick_count);
                append_bytes(&mut out, header.padding_1.as_slice());
                append_u64(&mut out, header.recent_epoch);
                append_bytes(&mut out, header.padding_2.as_slice());
                append_tick_states(&mut out, ticks.as_slice());
                assert(out@ =~= self.spec_bytes());
            },
        }
        out
    }

    /// Parses a tick array from the data of its account. `None` where the
    /// data holds neither layout in full.
    pub fn from_bytes(data: &[u8]) -> (r: Option<TickArrayData>)
        ensures
            layout_of(data@).is_some() <==> r.is_some(),
            r.is_some() ==> r.unwrap().is_parsed_from(data@),
    {
        if data.len() < 8 {
            return None;
        }
        if has_discriminator(data, &DynTickArrayState::DISCRIMINATOR) {
            if data.len() < DynTickArrayState::HEADER_LEN {
                return None;
            }
            let header = read_dyn_header(data);
            let ticks = read_dyn_ticks(data)?;
            Some(TickArrayData::Dynamic { header, ticks })
        } else if has_discriminator(data, &TickArrayState::DISCRIMINATOR) {
            if data.len() != TickArrayState::LEN {
                return None;
            }
            Some(TickArrayData::Fixed(read_fixed_array(data)))
        } else {
            None
        }
    }

    /// Get the start tick index.
    #[verifier::when_used_as_spec(spec_start_tick_index)]
    pub fn start_tick_index(&self) -> (r: i32)
        ensures
            r == self.spec_start_tick_index(),
    {
        match self {
            TickArrayData::Fixed(ta) => ta.start_tick_index,
            TickArrayData::Dynamic { header, .. } => header.start_tick_index,
        }
    }

    /// Get `liquidity_net` for a given tick. `None` where the tick belongs to
    /// another array or, in the dynamic layout, has no tick state.
    pub fn get_tick_liquidity_net(&self, tick_index: i32, tick_spacing: u16) -> (r: Option<i128>)
        requires
            tick_spacing > 0,
        ensures
            r == self.spec_tick_liquidity_net(tick_index, tick_spacing),
    {
        match self {
            TickArrayData::Fixed(ta) => {
                match ta.get_tick_offset_in_array(tick_index, tick_spacing) {
                    Ok(offset) => Some(ta.ticks[offset].liquidity_net),
                    Err(_) => None,
                }
            },
            TickArrayData::Dynamic { header, ticks } => {
                match header.get_tick_index_in_array(tick_index, tick_spacing) {
                    Ok(position) => {
                        if (position as usize) < ticks.len() {
                            Some(ticks[position as usize].liquidity_net)
                        } else {
                            None
                        }
                    },
                    Err(_) => None,
                }
            },
        }
    }

    /// Whether the tick array stands on the tick grid.
    pub fn stands_on_grid(&self, tick_spacing: u16) -> (r: bool)
        requires
            tick_spacing > 0,
        ensures
            r == self.is_on_grid(tick_spacing),
    {
        if !TickUtils::check_is_valid_start_index(self.start_tick_index(), tick_spacing) {
            return false;
        }
        match self {
            TickArrayData::Dynamic { .. } => true,
            TickArrayData::Fixed(ta) => {
                let mut k: usize = 0;
                while k < 60
                    invariant
                        k <= 60,
                        tick_spacing > 0,
                        *self == TickArrayData::Fixed(*ta),
                        forall|j: int|
                            0 <= j < k && #[trigger] ta.initialized_flags()[j] ==> ta.ticks[j].tick
                                == ta.start_tick_index + j * tick_spacing,
                    decreases 60 - k,
                {
                    proof {
                        crate::wide::lemma_product_bound(
                            k as int,
                            tick_spacing as int,
                            59,
                            u16::MAX as int,
                        );
                    }
                    let place: i64 = ta.start_tick_index as i64 + (k as i64) * (tick_spacing as i64);
                    if ta.ticks[k].is_initialized() && ta.ticks[k].tick as i64 != place {
                        proof {
                            assert(self.initialized_flags()[k as int]);
                            assert(self.reported_tick(k as int, tick_spacing as int) == Some(
                                ta.ticks[k as int].tick,
                            ));
                        }
                        return false;
                    }
                    k += 1;
                }
                true
            },
        }
    }

    /// Find the next initialized tick within this array in the given
    /// direction.
    ///
    /// With `allow_first` the whole array is searched, whatever
    /// `current_tick` is: the rightmost initialized tick is found where the
    /// price falls, the leftmost where it rises. Without it the search starts
    /// at the slot of `current_tick`, which must belong to this array, and
    /// takes that slot in only where the price falls.
    pub fn next_initialized_tick(
        &self,
        current_tick: i32,
        tick_spacing: u16,
        zero_for_one: bool,
        allow_first: bool,
    ) -> (r: Option<i32>)
        requires
            tick_spacing > 0,
        ensures
            r == self.spec_next_initialized_tick(
                current_tick,
                tick_spacing,
                zero_for_one,
                allow_first,
            ),
    {
        match self {
            TickArrayData::Fixed(ta) => {
                let slot = if allow_first {
                    ta.first_initialized_slot(zero_for_one)
                } else {
                    ta.next_initialized_slot(current_tick, tick_spacing, zero_for_one)
                };
                match slot {
                    Some(k) => Some(ta.ticks[k].tick),
                    None => None,
                }
            },
            TickArrayData::Dynamic { header, ticks } => {
                let slot = if allow_first {
                    header.first_initialized_slot(ticks.as_slice(), zero_for_one)
                } else {
                    header.next_initialized_slot(
                        ticks.as_slice(),
                        current_tick,
                        tick_spacing,
                        zero_for_one,
                    )
                };
                match slot {
                    Some(k) => {
                        proof {
                            crate::wide::lemma_product_bound(
                                k as int,
                                tick_spacing as int,
                                59,
                                u16::MAX as int,
                            );
                        }
                        let tick: i64 = header.start_tick_index as i64 + (k as i64) * (
                        tick_spacing as i64);
                        if tick <= i32::MAX as i64 {
                            Some(tick as i32)
                        } else {
                            None
                        }
                    },
                    None => None,
                }
            },
        }
    }
}

/// The two layouts cannot be told apart through the search for initialized
/// ticks: a fixed and a dynamic array that start at the same tick, hold an
/// initialized tick in the same slots, and of which the fixed one names in
/// each such slot the tick of the slot's place, give the same answer for
/// every current tick, direction and choice of `allow_first`.
pub proof fn lemma_layouts_agree_on_search(
    fixed: TickArrayData,
    dynamic: TickArrayData,
    current_tick: i32,
    tick_spacing: u16,
    zero_for_one: bool,
    allow_first: bool,
)
    requires
        tick_spacing > 0,
        fixed is Fixed,
        dynamic is Dynamic,
        fixed.spec_start_tick_index() == dynamic.spec_start_tick_index(),
        fixed.initialized_flags() == dynamic.initialized_flags(),
        forall|k: int|
            0 <= k < 60 && #[trigger] fixed.initialized_flags()[k] ==> fixed.reported_tick(
                k,
                tick_spacing as int,
            ) == dynamic.reported_tick(k, tick_spacing as int),
    ensures
        fixed.spec_next_initialized_tick(current_tick, tick_spacing, zero_for_one, allow_first)
            == dynamic.spec_next_initialized_tick(
            current_tick,
            tick_spacing,
            zero_for_one,
            allow_first,
        ),
{
    let flags = fixed.initialized_flags();
    let start = fixed.spec_start_tick_index() as int;
    assert(flags.len() == 60);
    if allow_first {
        if zero_for_one {
            lemma_last_set_at_or_below(flags, 59);
        } else {
            lemma_first_set_at_or_above(flags, 0);
        }
    } else if array_start_index(current_tick as int, tick_spacing as int) == start {
        crate::tick::lemma_array_start_index(current_tick as int, tick_spacing as int);
        let slot = slot_of_tick(start, current_tick as int, tick_spacing as int);
        if zero_for_one {
            lemma_last_set_at_or_below(flags, slot);
        } else {
            lemma_first_set_at_or_above(flags, slot + 1);
        }
    }
}

/// The two tags differ.
pub proof fn lemma_tags_differ()
    ensures
        fixed_discriminator() != dyn_discriminator(),
        fixed_discriminator().len() == 8,
        dyn_discriminator().len() == 8,
{
    assert(fixed_discriminator()[0] == 192u8);
    assert(dyn_discriminator()[0] == 106u8);
}

/// Writing a tick array and reading the bytes gives the tick array back:
/// the bytes that `to_bytes` writes hold the tick array in full.
pub proof fn lemma_write_then_read(array: TickArrayData)
    ensures
        array.is_parsed_from(array.spec_bytes()),
{
    lemma_tags_differ();
    match array {
        TickArrayData::Fixed(ta) => {
            lemma_fixed_array_bytes_match(ta, fixed_discriminator());
        },
        TickArrayData::Dynamic { header, ticks } => {
            lemma_dyn_array_bytes_match(header, ticks@, dyn_discriminator());
        },
    }
}

/// Reading bytes and writing the tick array gives the bytes back: the bytes
/// that hold a tick array are the bytes that `to_bytes` writes for it.
pub proof fn lemma_read_then_write(array: TickArrayData, bytes: Seq<u8>)
    requires
        array.is_parsed_from(bytes),
    ensures
        array.spec_bytes() == bytes,
{
    lemma_tags_differ();
    match array {
        TickArrayData::Fixed(ta) => {
            lemma_fixed_array_bytes_unique(ta, bytes);
        },
        TickArrayData::Dynamic { header, ticks } => {
            lemma_dyn_array_bytes_unique(header, ticks@, bytes);
        },
    }
}

/// Bytes hold one tick array: two tick arrays read from the same bytes are
/// of the same layout and agree in every field.
pub proof fn lemma_read_is_unique(first: TickArrayData, second: TickArrayData, bytes: Seq<u8>)
    requires
        first.is_parsed_from(bytes),
        second.is_parsed_from(bytes),
    ensures
        match (first, second) {
            (TickArrayData::Fixed(a), TickArrayData::Fixed(b)) => a == b,
            (
                TickArrayData::Dynamic { header: h1, ticks: t1 },
                TickArrayData::Dynamic { header: h2, ticks: t2 },
            ) => h1 == h2 && t1@ == t2@,
            _ => false,
        },
{
    match (first, second) {
        (TickArrayData::Fixed(a), TickArrayData::Fixed(b)) => {
            assert forall|k: int| 0 <= k < 60 implies a.ticks[k] == b.ticks[k] by {
                assert(crate::layout::is_tick_state_at(a.ticks[k], bytes, 44 + 168 * k));
                assert(crate::layout::is_tick_state_at(b.ticks[k], bytes, 44 + 168 * k));
                lemma_tick_state_unique(
                    a.ticks[k],
                    b.ticks[k],
                    bytes.subrange(44 + 168 * k, 44 + 168 * k + 168),
                );
            }
            assert(a.ticks =~= b.ticks);
            assert(a.padding =~= b.padding);
            assert(a.pool_id.bytes =~= b.pool_id.bytes);
        },
        (
            TickArrayData::Dynamic { header: h1, ticks: t1 },
            TickArrayData::Dynamic { header: h2, ticks: t2 },
        ) => {
            assert(h1.pool_id.bytes =~= h2.pool_id.bytes);
            assert(h1.padding_0 =~= h2.padding_0);
            assert(h1.tick_offset_index =~= h2.tick_offset_index);
            assert(h1.padding_1 =~= h2.padding_1);
            assert(h1.padding_2 =~= h2.padding_2);
            assert forall|k: int| 0 <= k < t1@.len() implies t1@[k] == t2@[k] by {
                assert(crate::layout::is_tick_state_at(t1@[k], bytes, 216 + 168 * k));
                assert(crate::layout::is_tick_state_at(t2@[k], bytes, 216 + 168 * k));
                lemma_tick_state_unique(
                    t1@[k],
                    t2@[k],
                    bytes.subrange(216 + 168 * k, 216 + 168 * k + 168),
                );
            }
            assert(t1@ =~= t2@);
        },
        _ => {},
    }
}

} // verus!
