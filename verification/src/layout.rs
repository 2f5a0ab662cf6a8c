//! The byte layouts of tick states and of tick arrays in account data:
//! little-endian integers at fixed places.

use vstd::prelude::*;
use vstd::bytes::{
    lemma_auto_spec_u128_to_from_le_bytes,
    lemma_auto_spec_u32_to_from_le_bytes,
    lemma_auto_spec_u64_to_from_le_bytes,
    spec_u128_from_le_bytes,
    spec_u128_to_le_bytes,
    spec_u32_from_le_bytes,
    spec_u32_to_le_bytes,
    spec_u64_from_le_bytes,
    spec_u64_to_le_bytes,
    u128_from_le_bytes,
    u128_to_le_bytes,
    u32_from_le_bytes,
    u32_to_le_bytes,
    u64_from_le_bytes,
    u64_to_le_bytes,
};
use vstd::slice::slice_subrange;
use crate::address::Address;
use crate::dyn_tick_array::DynTickArrayState;
use crate::tick::TickState;
use crate::tick_array::TickArrayState;

verus! {

/// The signed value that a 32-bit pattern stands for.
pub open spec fn i32_of_bits(v: u32) -> i32 {
    if v < 0x8000_0000 {
        v as i32
    } else {
        (v - 0x1_0000_0000) as i32
    }
}

/// The 32-bit pattern of a signed value.
pub open spec fn bits_of_i32(x: i32) -> u32 {
    if x >= 0 {
        x as u32
    } else {
        (x + 0x1_0000_0000) as u32
    }
}

/// The signed value that a 128-bit pattern stands for.
pub open spec fn i128_of_bits(v: u128) -> i128 {
    if v < 0x8000_0000_0000_0000_0000_0000_0000_0000 {
        v as i128
    } else {
        (v - 0x1_0000_0000_0000_0000_0000_0000_0000_0000) as i128
    }
}

/// The 128-bit pattern of a signed value.
pub open spec fn bits_of_i128(x: i128) -> u128 {
    if x >= 0 {
        x as u128
    } else {
        (x + 0x1_0000_0000_0000_0000_0000_0000_0000_0000) as u128
    }
}

/// The little-endian `u32` at `at`.
pub open spec fn u32_at(b: Seq<u8>, at: int) -> u32 {
    spec_u32_from_le_bytes(b.subrange(at, at + 4))
}

/// The little-endian `u64` at `at`.
pub open spec fn u64_at(b: Seq<u8>, at: int) -> u64 {
    spec_u64_from_le_bytes(b.subrange(at, at + 8))
}

/// The little-endian `u128` at `at`.
pub open spec fn u128_at(b: Seq<u8>, at: int) -> u128 {
    spec_u128_from_le_bytes(b.subrange(at, at + 16))
}

/// The little-endian `i32` at `at`.
pub open spec fn i32_at(b: Seq<u8>, at: int) -> i32 {
    i32_of_bits(u32_at(b, at))
}

/// The little-endian `i128` at `at`.
pub open spec fn i128_at(b: Seq<u8>, at: int) -> i128 {
    i128_of_bits(u128_at(b, at))
}

/// Whether `t` is the tick state that a window of 168 bytes holds.
pub open spec fn tick_state_matches(t: TickState, w: Seq<u8>) -> bool {
    &&& w.len() == 168
    &&& t.tick == i32_at(w, 0)
    &&& t.liquidity_net == i128_at(w, 4)
    &&& t.liquidity_gross == u128_at(w, 20)
    &&& t.fee_growth_outside_0_x64 == u128_at(w, 36)
    &&& t.fee_growth_outside_1_x64 == u128_at(w, 52)
    &&& forall|i: int|
        0 <= i < 3 ==> #[trigger] t.reward_growths_outside_x64[i] == u128_at(w, 68 + 16 * i)
    &&& forall|i: int| 0 <= i < 13 ==> #[trigger] t.padding[i] == u32_at(w, 116 + 4 * i)
}

/// Whether `t` is the tick state that the 168 bytes at `at` hold.
pub open spec fn is_tick_state_at(t: TickState, b: Seq<u8>, at: int) -> bool {
    0 <= at && at + 168 <= b.len() && tick_state_matches(t, b.subrange(at, at + 168))
}

/// Whether `a` is the fixed-layout tick array that the bytes hold, the tag
/// aside.
pub open spec fn is_fixed_array_of(a: TickArrayState, b: Seq<u8>) -> bool {
    &&& b.len() == 10240
    &&& a.pool_id@ == b.subrange(8, 40)
    &&& a.start_tick_index == i32_at(b, 40)
    &&& forall|k: int| 0 <= k < 60 ==> is_tick_state_at(#[trigger] a.ticks[k], b, 44 + 168 * k)
    &&& a.initialized_tick_count == b[10124]
    &&& a.recent_epoch == u64_at(b, 10125)
    &&& a.padding@ == b.subrange(10133, 10240)
}

/// Whether `h` is the dynamic-layout header that the bytes hold, the tag
/// aside.
pub open spec fn is_dyn_header_of(h: DynTickArrayState, b: Seq<u8>) -> bool {
    &&& b.len() >= 216
    &&& h.pool_id@ == b.subrange(8, 40)
    &&& h.start_tick_index == i32_at(b, 40)
    &&& h.padding_0@ == b.subrange(44, 48)
    &&& h.tick_offset_index@ == b.subrange(48, 108)
    &&& h.alloc_tick_count == b[108]
    &&& h.initialized_tick_count == b[109]
    &&& h.padding_1@ == b.subrange(110, 112)
    &&& h.recent_epoch == u64_at(b, 112)
    &&& h.padding_2@ == b.subrange(120, 216)
}

/// Whether `ticks` are the tick states that follow the dynamic-layout header
/// in the bytes.
pub open spec fn are_dyn_ticks_of(ticks: Seq<TickState>, b: Seq<u8>) -> bool {
    &&& b.len() >= 216
    &&& b.len() == 216 + 168 * ticks.len()
    &&& forall|k: int| 0 <= k < ticks.len() ==> is_tick_state_at(#[trigger] ticks[k], b, 216 + 168 * k)
}

/// Reads the little-endian `u32` at `at`.
pub fn read_u32(data: &[u8], at: usize) -> (r: u32)
    requires
        at + 4 <= data@.len(),
    ensures
        r == u32_at(data@, at as int),
{
    let data_len: usize = data.len();
    u32_from_le_bytes(slice_subrange(data, at, at + 4))
}

/// Reads the little-endian `u64` at `at`.
pub fn read_u64(data: &[u8], at: usize) -> (r: u64)
    requires
        at + 8 <= data@.len(),
    ensures
        r == u64_at(data@, at as int),
{
    let data_len: usize = data.len();
    u64_from_le_bytes(slice_subrange(data, at, at + 8))
}

/// Reads the little-endian `u128` at `at`.
pub fn read_u128(data: &[u8], at: usize) -> (r: u128)
    requires
        at + 16 <= data@.len(),
    ensures
        r == u128_at(data@, at as int),
{
    let data_len: usize = data.len();
    u128_from_le_bytes(slice_subrange(data, at, at + 16))
}

/// Reads the little-endian `i32` at `at`.
pub fn read_i32(data: &[u8], at: usize) -> (r: i32)
    requires
        at + 4 <= data@.len(),
    ensures
        r == i32_at(data@, at as int),
{
    let bits = read_u32(data, at);
    if bits < 0x8000_0000 {
        bits as i32
    } else {
        (bits as i64 - 0x1_0000_0000i64) as i32
    }
}

/// Reads the little-endian `i128` at `at`.
pub fn read_i128(data: &[u8], at: usize) -> (r: i128)
    requires
        at + 16 <= data@.len(),
    ensures
        r == i128_at(data@, at as int),
{
    let bits = read_u128(data, at);
    if bits < 0x8000_0000_0000_0000_0000_0000_0000_0000u128 {
        bits as i128
    } else {
        (bits - 0x8000_0000_0000_0000_0000_0000_0000_0000u128) as i128 + i128::MIN
    }
}

/// Copies `N` bytes from `at`.
pub fn read_bytes<const N: usize>(data: &[u8], at: usize) -> (r: [u8; N])
    requires
        at + N <= data@.len(),
    ensures
        r@ == data@.subrange(at as int, at + N),
{
    let data_len: usize = data.len();
    let mut out: [u8; N] = [0u8; N];
    let mut i: usize = 0;
    while i < N
        invariant
            i <= N,
            at + N <= data@.len(),
            data_len == data@.len(),
            forall|k: int| 0 <= k < i ==> out@[k] == data@[at + k],
        decreases N - i,
    {
        out[i] = data[at + i];
        i += 1;
    }
    assert(out@ =~= data@.subrange(at as int, at + N));
    out
}

/// Reads the tick state that a window of 168 bytes holds.
pub fn read_tick_state_window(window: &[u8]) -> (r: TickState)
    requires
        window@.len() == 168,
    ensures
        tick_state_matches(r, window@),
{
    let mut rewards: [u128; 3] = [0u128; 3];
    let mut i: usize = 0;
    while i < 3
        invariant
            i <= 3,
            window@.len() == 168,
            forall|k: int| 0 <= k < i ==> #[trigger] rewards[k] == u128_at(window@, 68 + 16 * k),
        decreases 3 - i,
    {
        rewards[i] = read_u128(window, 68 + 16 * i);
        i += 1;
    }
    let mut padding: [u32; 13] = [0u32; 13];
    let mut j: usize = 0;
    while j < 13
        invariant
            j <= 13,
            window@.len() == 168,
            forall|k: int| 0 <= k < j ==> #[trigger] padding[k] == u32_at(window@, 116 + 4 * k),
        decreases 13 - j,
    {
        padding[j] = read_u32(window, 116 + 4 * j);
        j += 1;
    }
    TickState {
        tick: read_i32(window, 0),
        liquidity_net: read_i128(window, 4),
        liquidity_gross: read_u128(window, 20),
        fee_growth_outside_0_x64: read_u128(window, 36),
        fee_growth_outside_1_x64: read_u128(window, 52),
        reward_growths_outside_x64: rewards,
        padding,
    }
}

/// Reads the tick state that the 168 bytes at `at` hold.
pub fn read_tick_state(data: &[u8], at: usize) -> (r: TickState)
    requires
        at + 168 <= data@.len(),
    ensures
        is_tick_state_at(r, data@, at as int),
{
    let data_len: usize = data.len();
    read_tick_state_window(slice_subrange(data, at, at + 168))
}

/// Reads a tick array in the fixed layout from the 10240 bytes of its
/// account, the tag aside.
pub fn read_fixed_array(data: &[u8]) -> (r: TickArrayState)
    requires
        data@.len() == 10240,
    ensures
        is_fixed_array_of(r, data@),
{
    let mut ticks: [TickState; 60] = [TickState::default(); 60];
    let mut k: usize = 0;
    while k < 60
        invariant
            k <= 60,
            data@.len() == 10240,
            forall|j: int| 0 <= j < k ==> is_tick_state_at(#[trigger] ticks[j], data@, 44 + 168 * j),
        decreases 60 - k,
    {
        ticks[k] = read_tick_state(data, 44 + 168 * k);
        k += 1;
    }
    TickArrayState {
        pool_id: Address { bytes: read_bytes::<32>(data, 8) },
        start_tick_index: read_i32(data, 40),
        ticks,
        initialized_tick_count: data[10124],
        recent_epoch: read_u64(data, 10125),
        padding: read_bytes::<107>(data, 10133),
    }
}

/// Reads the header of a tick array in the dynamic layout from the first 216
/// bytes of its account, the tag aside.
pub fn read_dyn_header(data: &[u8]) -> (r: DynTickArrayState)
    requires
        data@.len() >= 216,
    ensures
        is_dyn_header_of(r, data@),
{
    DynTickArrayState {
        pool_id: Address { bytes: read_bytes::<32>(data, 8) },
        start_tick_index: read_i32(data, 40),
        padding_0: read_bytes::<4>(data, 44),
        tick_offset_index: read_bytes::<60>(data, 48),
        alloc_tick_count: data[108],
        initialized_tick_count: data[109],
        padding_1: read_bytes::<2>(data, 110),
        recent_epoch: read_u64(data, 112),
        padding_2: read_bytes::<96>(data, 120),
    }
}

/// Reads the tick states that follow the header of a tick array in the
/// dynamic layout, or `None` where what follows is not a whole number of
/// tick states.
pub fn read_dyn_ticks(data: &[u8]) -> (r: Option<Vec<TickState>>)
    requires
        data@.len() >= 216,
    ensures
        (data@.len() - 216) % 168 == 0 <==> r.is_some(),
        r.is_some() ==> are_dyn_ticks_of(r.unwrap()@, data@),
{
    let data_len: usize = data.len();
    let rest: usize = data_len - 216;
    if rest % 168 != 0 {
        return None;
    }
    let count: usize = rest / 168;
    let mut ticks: Vec<TickState> = Vec::new();
    let mut k: usize = 0;
    while k < count
        invariant
            k <= count,
            data@.len() == 216 + 168 * count,
            data_len == data@.len(),
            ticks@.len() == k,
            forall|j: int| 0 <= j < k ==> is_tick_state_at(#[trigger] ticks@[j], data@, 216 + 168 * j),
        decreases count - k,
    {
        ticks.push(read_tick_state(data, 216 + 168 * k));
        k += 1;
    }
    Some(ticks)
}

/// Whether the bytes open with the tag.
pub fn has_discriminator(data: &[u8], discriminator: &[u8; 8]) -> (r: bool)
    ensures
        r == (data@.len() >= 8 && data@.subrange(0, 8) == discriminator@),
{
    if data.len() < 8 {
        return false;
    }
    let mut i: usize = 0;
    while i < 8
        invariant
            i <= 8,
            data@.len() >= 8,
            forall|k: int| 0 <= k < i ==> data@[k] == discriminator@[k],
        decreases 8 - i,
    {
        if data[i] != discriminator[i] {
            assert(data@.subrange(0, 8)[i as int] != discriminator@[i as int]);
            return false;
        }
        i += 1;
    }
    assert(data@.subrange(0, 8) =~= discriminator@);
    true
}

/// The bytes of a list of 128-bit numbers, one after the other.
pub open spec fn quads_bytes(values: Seq<u128>) -> Seq<u8> {
    Seq::new(16 * values.len(), |i: int| spec_u128_to_le_bytes(values[i / 16])[i % 16])
}

/// The bytes of a list of 32-bit numbers, one after the other.
pub open spec fn words_bytes(values: Seq<u32>) -> Seq<u8> {
    Seq::new(4 * values.len(), |i: int| spec_u32_to_le_bytes(values[i / 4])[i % 4])
}

/// The 168 bytes of a tick state.
pub open spec fn tick_state_bytes(t: TickState) -> Seq<u8> {
    spec_u32_to_le_bytes(bits_of_i32(t.tick)) + spec_u128_to_le_bytes(
        bits_of_i128(t.liquidity_net),
    ) + spec_u128_to_le_bytes(t.liquidity_gross) + spec_u128_to_le_bytes(
        t.fee_growth_outside_0_x64,
    ) + spec_u128_to_le_bytes(t.fee_growth_outside_1_x64) + quads_bytes(
        t.reward_growths_outside_x64@,
    ) + words_bytes(t.padding@)
}

/// The bytes of a list of tick states, one after the other.
pub open spec fn tick_states_bytes(ticks: Seq<TickState>) -> Seq<u8> {
    Seq::new(168 * ticks.len(), |i: int| tick_state_bytes(ticks[i / 168])[i % 168])
}

/// The bytes of a tick array in the fixed layout, after the tag.
pub open spec fn fixed_array_body(a: TickArrayState) -> Seq<u8> {
    a.pool_id@ + spec_u32_to_le_bytes(bits_of_i32(a.start_tick_index)) + tick_states_bytes(
        a.ticks@,
    ) + seq![a.initialized_tick_count] + spec_u64_to_le_bytes(a.recent_epoch) + a.padding@
}

/// The bytes of the header of a tick array in the dynamic layout, after the
/// tag.
pub open spec fn dyn_header_body(h: DynTickArrayState) -> Seq<u8> {
    h.pool_id@ + spec_u32_to_le_bytes(bits_of_i32(h.start_tick_index)) + h.padding_0@
        + h.tick_offset_index@ + seq![h.alloc_tick_count, h.initialized_tick_count]
        + h.padding_1@ + spec_u64_to_le_bytes(h.recent_epoch) + h.padding_2@
}

/// The pattern of a signed number stands for that number, and the other way
/// round.
pub proof fn lemma_signed_bits()
    ensures
        forall|x: i32| i32_of_bits(#[trigger] bits_of_i32(x)) == x,
        forall|v: u32| bits_of_i32(#[trigger] i32_of_bits(v)) == v,
        forall|x: i128| i128_of_bits(#[trigger] bits_of_i128(x)) == x,
        forall|v: u128| bits_of_i128(#[trigger] i128_of_bits(v)) == v,
{
}

/// The lengths of the byte strings of numbers.
pub proof fn lemma_number_lengths()
    ensures
        forall|v: u32| #[trigger] spec_u32_to_le_bytes(v).len() == 4,
        forall|v: u64| #[trigger] spec_u64_to_le_bytes(v).len() == 8,
        forall|v: u128| #[trigger] spec_u128_to_le_bytes(v).len() == 16,
{
    lemma_auto_spec_u32_to_from_le_bytes();
    lemma_auto_spec_u64_to_from_le_bytes();
    lemma_auto_spec_u128_to_from_le_bytes();
}

/// A tick state's bytes are 168, and they hold the tick state.
pub proof fn lemma_tick_state_bytes_match(t: TickState)
    ensures
        tick_state_bytes(t).len() == 168,
        tick_state_matches(t, tick_state_bytes(t)),
{
    lemma_auto_spec_u32_to_from_le_bytes();
    lemma_auto_spec_u128_to_from_le_bytes();
    lemma_signed_bits();
    let w = tick_state_bytes(t);
    let rewards = t.reward_growths_outside_x64@;
    let padding = t.padding@;
    assert(rewards.len() == 3);
    assert(padding.len() == 13);
    assert(w.len() == 168);
    assert(w.subrange(0, 4) =~= spec_u32_to_le_bytes(bits_of_i32(t.tick)));
    assert(w.subrange(4, 20) =~= spec_u128_to_le_bytes(bits_of_i128(t.liquidity_net)));
    assert(w.subrange(20, 36) =~= spec_u128_to_le_bytes(t.liquidity_gross));
    assert(w.subrange(36, 52) =~= spec_u128_to_le_bytes(t.fee_growth_outside_0_x64));
    assert(w.subrange(52, 68) =~= spec_u128_to_le_bytes(t.fee_growth_outside_1_x64));
    assert forall|i: int| 0 <= i < 3 implies #[trigger] t.reward_growths_outside_x64[i]
        == u128_at(w, 68 + 16 * i) by {
        assert(w.subrange(68 + 16 * i, 68 + 16 * i + 16) =~= spec_u128_to_le_bytes(rewards[i]))
            by {
            assert forall|j: int| 0 <= j < 16 implies w.subrange(
                68 + 16 * i,
                68 + 16 * i + 16,
            )[j] == spec_u128_to_le_bytes(rewards[i])[j] by {
                assert(w[68 + 16 * i + j] == quads_bytes(rewards)[16 * i + j]);
                assert((16 * i + j) / 16 == i && (16 * i + j) % 16 == j);
            }
        }
    }
    assert forall|i: int| 0 <= i < 13 implies #[trigger] t.padding[i] == u32_at(
        w,
        116 + 4 * i,
    ) by {
        assert(w.subrange(116 + 4 * i, 116 + 4 * i + 4) =~= spec_u32_to_le_bytes(padding[i])) by {
            assert forall|j: int| 0 <= j < 4 implies w.subrange(
                116 + 4 * i,
                116 + 4 * i + 4,
            )[j] == spec_u32_to_le_bytes(padding[i])[j] by {
                assert(w[116 + 4 * i + j] == words_bytes(padding)[4 * i + j]);
                assert((4 * i + j) / 4 == i && (4 * i + j) % 4 == j);
            }
        }
    }
}

/// The bytes that hold a tick state are that tick state's bytes: no two
/// windows hold the same tick state.
pub proof fn lemma_tick_state_window_unique(t: TickState, w: Seq<u8>)
    requires
        tick_state_matches(t, w),
    ensures
        w == tick_state_bytes(t),
{
    lemma_auto_spec_u32_to_from_le_bytes();
    lemma_auto_spec_u128_to_from_le_bytes();
    lemma_signed_bits();
    lemma_tick_state_bytes_match(t);
    let e = tick_state_bytes(t);
    assert forall|i: int| 0 <= i < 168 implies w[i] == e[i] by {
        if i < 4 {
            lemma_window_bytes_4(w, e, 0, i);
        } else if i < 20 {
            lemma_window_bytes_16(w, e, 4, i);
        } else if i < 36 {
            lemma_window_bytes_16(w, e, 20, i);
        } else if i < 52 {
            lemma_window_bytes_16(w, e, 36, i);
        } else if i < 68 {
            lemma_window_bytes_16(w, e, 52, i);
        } else if i < 116 {
            let k = (i - 68) / 16;
            assert(t.reward_growths_outside_x64[k] == u128_at(w, 68 + 16 * k));
            assert(t.reward_growths_outside_x64[k] == u128_at(e, 68 + 16 * k));
            lemma_window_bytes_16(w, e, 68 + 16 * k, i);
        } else {
            let k = (i - 116) / 4;
            assert(t.padding[k] == u32_at(w, 116 + 4 * k));
            assert(t.padding[k] == u32_at(e, 116 + 4 * k));
            lemma_window_bytes_4(w, e, 116 + 4 * k, i);
        }
    }
    assert(w =~= e);
}

/// Two byte strings that hold the same `u32` at a place agree there.
pub proof fn lemma_window_bytes_4(a: Seq<u8>, b: Seq<u8>, at: int, i: int)
    requires
        0 <= at,
        at + 4 <= a.len(),
        at + 4 <= b.len(),
        u32_at(a, at) == u32_at(b, at),
        at <= i < at + 4,
    ensures
        a[i] == b[i],
{
    lemma_auto_spec_u32_to_from_le_bytes();
    let x = a.subrange(at, at + 4);
    let y = b.subrange(at, at + 4);
    assert(spec_u32_to_le_bytes(spec_u32_from_le_bytes(x)) == x);
    assert(spec_u32_to_le_bytes(spec_u32_from_le_bytes(y)) == y);
    assert(x[i - at] == a[i]);
    assert(y[i - at] == b[i]);
}

/// Two byte strings that hold the same `u64` at a place agree there.
pub proof fn lemma_window_bytes_8(a: Seq<u8>, b: Seq<u8>, at: int, i: int)
    requires
        0 <= at,
        at + 8 <= a.len(),
        at + 8 <= b.len(),
        u64_at(a, at) == u64_at(b, at),
        at <= i < at + 8,
    ensures
        a[i] == b[i],
{
    lemma_auto_spec_u64_to_from_le_bytes();
    let x = a.subrange(at, at + 8);
    let y = b.subrange(at, at + 8);
    assert(spec_u64_to_le_bytes(spec_u64_from_le_bytes(x)) == x);
    assert(spec_u64_to_le_bytes(spec_u64_from_le_bytes(y)) == y);
    assert(x[i - at] == a[i]);
    assert(y[i - at] == b[i]);
}

/// Two byte strings that hold the same `u128` at a place agree there.
pub proof fn lemma_window_bytes_16(a: Seq<u8>, b: Seq<u8>, at: int, i: int)
    requires
        0 <= at,
        at + 16 <= a.len(),
        at + 16 <= b.len(),
        u128_at(a, at) == u128_at(b, at) || i128_at(a, at) == i128_at(b, at),
        at <= i < at + 16,
    ensures
        a[i] == b[i],
{
    lemma_auto_spec_u128_to_from_le_bytes();
    lemma_signed_bits();
    let x = a.subrange(at, at + 16);
    let y = b.subrange(at, at + 16);
    assert(spec_u128_to_le_bytes(spec_u128_from_le_bytes(x)) == x);
    assert(spec_u128_to_le_bytes(spec_u128_from_le_bytes(y)) == y);
    assert(bits_of_i128(i128_at(a, at)) == u128_at(a, at));
    assert(bits_of_i128(i128_at(b, at)) == u128_at(b, at));
    assert(x[i - at] == a[i]);
    assert(y[i - at] == b[i]);
}

/// The tick state that a window holds is one: no window holds two.
pub proof fn lemma_tick_state_unique(t1: TickState, t2: TickState, w: Seq<u8>)
    requires
        tick_state_matches(t1, w),
        tick_state_matches(t2, w),
    ensures
        t1 == t2,
{
    assert(t1.reward_growths_outside_x64 =~= t2.reward_growths_outside_x64);
    assert(t1.padding =~= t2.padding);
}

/// Puts bytes at the end of a byte string.
pub fn append_bytes(out: &mut Vec<u8>, src: &[u8])
    ensures
        final(out)@ == old(out)@ + src@,
{
    let n: usize = src.len();
    let mut i: usize = 0;
    while i < n
        invariant
            i <= n,
            n == src@.len(),
            out@ == old(out)@ + src@.subrange(0, i as int),
        decreases n - i,
    {
        out.push(src[i]);
        i += 1;
        assert(out@ =~= old(out)@ + src@.subrange(0, i as int));
    }
    assert(src@.subrange(0, n as int) =~= src@);
}

/// Puts a `u32` at the end of a byte string, little end first.
pub fn append_u32(out: &mut Vec<u8>, v: u32)
    ensures
        final(out)@ == old(out)@ + spec_u32_to_le_bytes(v),
{
    let bytes = u32_to_le_bytes(v);
    append_bytes(out, bytes.as_slice());
}

/// Puts a `u64` at the end of a byte string, little end first.
pub fn append_u64(out: &mut Vec<u8>, v: u64)
    ensures
        final(out)@ == old(out)@ + spec_u64_to_le_bytes(v),
{
    let bytes = u64_to_le_bytes(v);
    append_bytes(out, bytes.as_slice());
}

/// Puts a `u128` at the end of a byte string, little end first.
pub fn append_u128(out: &mut Vec<u8>, v: u128)
    ensures
        final(out)@ == old(out)@ + spec_u128_to_le_bytes(v),
{
    let bytes = u128_to_le_bytes(v);
    append_bytes(out, bytes.as_slice());
}

/// Puts an `i32` at the end of a byte string, little end first.
pub fn append_i32(out: &mut Vec<u8>, v: i32)
    ensures
        final(out)@ == old(out)@ + spec_u32_to_le_bytes(bits_of_i32(v)),
{
    let bits: u32 = if v >= 0 {
        v as u32
    } else {
        (v as i64 + 0x1_0000_0000i64) as u32
    };
    append_u32(out, bits);
}

/// Puts an `i128` at the end of a byte string, little end first.
pub fn append_i128(out: &mut Vec<u8>, v: i128)
    ensures
        final(out)@ == old(out)@ + spec_u128_to_le_bytes(bits_of_i128(v)),
{
    let bits: u128 = if v >= 0 {
        v as u128
    } else {
        (v - i128::MIN) as u128 + 0x8000_0000_0000_0000_0000_0000_0000_0000u128
    };
    append_u128(out, bits);
}

/// Puts a tick state at the end of a byte string.
pub fn append_tick_state(out: &mut Vec<u8>, t: &TickState)
    ensures
        final(out)@ == old(out)@ + tick_state_bytes(*t),
{
    proof {
        lemma_number_lengths();
    }
    append_i32(out, t.tick);
    append_i128(out, t.liquidity_net);
    append_u128(out, t.liquidity_gross);
    append_u128(out, t.fee_growth_outside_0_x64);
    append_u128(out, t.fee_growth_outside_1_x64);
    let ghost head = out@;
    let ghost rewards = t.reward_growths_outside_x64@;
    let mut i: usize = 0;
    while i < 3
        invariant
            i <= 3,
            rewards == t.reward_growths_outside_x64@,
            out@.len() == head.len() + 16 * i,
            out@.subrange(0, head.len() as int) == head,
            forall|j: int| 0 <= j < 16 * i ==> out@[head.len() + j] == quads_bytes(rewards)[j],
        decreases 3 - i,
    {
        let ghost before = out@;
        append_u128(out, t.reward_growths_outside_x64[i]);
        proof {
            lemma_number_lengths();
            assert(out@.subrange(0, head.len() as int) =~= before.subrange(0, head.len() as int));
            assert forall|j: int| 0 <= j < 16 * (i + 1) implies out@[head.len() + j]
                == quads_bytes(rewards)[j] by {
                if j >= 16 * i {
                    assert(j / 16 == i && j % 16 == j - 16 * i);
                } else {
                    assert(out@[head.len() + j] == before[head.len() + j]);
                }
            }
        }
        i += 1;
    }
    assert(out@ =~= head + quads_bytes(rewards));
    let ghost middle = out@;
    let ghost padding = t.padding@;
    let mut k: usize = 0;
    while k < 13
        invariant
            k <= 13,
            padding == t.padding@,
            out@.len() == middle.len() + 4 * k,
            out@.subrange(0, middle.len() as int) == middle,
            forall|j: int| 0 <= j < 4 * k ==> out@[middle.len() + j] == words_bytes(padding)[j],
        decreases 13 - k,
    {
        let ghost before = out@;
        append_u32(out, t.padding[k]);
        proof {
            lemma_number_lengths();
            assert(out@.subrange(0, middle.len() as int) =~= before.subrange(
                0,
                middle.len() as int,
            ));
            assert forall|j: int| 0 <= j < 4 * (k + 1) implies out@[middle.len() + j]
                == words_bytes(padding)[j] by {
                if j >= 4 * k {
                    assert(j / 4 == k && j % 4 == j - 4 * k);
                } else {
                    assert(out@[middle.len() + j] == before[middle.len() + j]);
                }
            }
        }
        k += 1;
    }
    assert(out@ =~= middle + words_bytes(padding));
    assert(out@ =~= old(out)@ + tick_state_bytes(*t));
}

/// Puts a list of tick states at the end of a byte string.
pub fn append_tick_states(out: &mut Vec<u8>, ticks: &[TickState])
    ensures
        final(out)@ == old(out)@ + tick_states_bytes(ticks@),
{
    let n: usize = ticks.len();
    let ghost head = out@;
    let mut k: usize = 0;
    while k < n
        invariant
            k <= n,
            n == ticks@.len(),
            out@.len() == head.len() + 168 * k,
            out@.subrange(0, head.len() as int) == head,
            forall|j: int|
                0 <= j < 168 * k ==> out@[head.len() + j] == tick_states_bytes(ticks@)[j],
        decreases n - k,
    {
        let ghost before = out@;
        append_tick_state(out, &ticks[k]);
        proof {
            lemma_tick_state_bytes_match(ticks@[k as int]);
            assert(out@.subrange(0, head.len() as int) =~= before.subrange(0, head.len() as int));
            assert forall|j: int| 0 <= j < 168 * (k + 1) implies out@[head.len() + j]
                == tick_states_bytes(ticks@)[j] by {
                if j >= 168 * k {
                    assert(j / 168 == k && j % 168 == j - 168 * k);
                } else {
                    assert(out@[head.len() + j] == before[head.len() + j]);
                }
            }
        }
        k += 1;
    }
    assert(out@ =~= head + tick_states_bytes(ticks@));
}

/// The window of one tick state in the bytes of a list of tick states.
pub proof fn lemma_tick_states_window(ticks: Seq<TickState>, k: int)
    requires
        0 <= k < ticks.len(),
    ensures
        tick_states_bytes(ticks).len() == 168 * ticks.len(),
        tick_states_bytes(ticks).subrange(168 * k, 168 * k + 168) == tick_state_bytes(ticks[k]),
{
    lemma_tick_state_bytes_match(ticks[k]);
    let all = tick_states_bytes(ticks);
    assert forall|j: int| 0 <= j < 168 implies all.subrange(168 * k, 168 * k + 168)[j]
        == tick_state_bytes(ticks[k])[j] by {
        assert((168 * k + j) / 168 == k && (168 * k + j) % 168 == j);
    }
    assert(all.subrange(168 * k, 168 * k + 168) =~= tick_state_bytes(ticks[k]));
}

/// The bytes of a tick array in the fixed layout, with any tag before them,
/// hold the tick array.
pub proof fn lemma_fixed_array_bytes_match(a: TickArrayState, tag: Seq<u8>)
    requires
        tag.len() == 8,
    ensures
        (tag + fixed_array_body(a)).len() == 10240,
        (tag + fixed_array_body(a)).subrange(0, 8) == tag,
        is_fixed_array_of(a, tag + fixed_array_body(a)),
{
    lemma_number_lengths();
    lemma_auto_spec_u32_to_from_le_bytes();
    lemma_auto_spec_u64_to_from_le_bytes();
    lemma_signed_bits();
    let b = tag + fixed_array_body(a);
    assert(a.ticks@.len() == 60);
    assert(a.pool_id@.len() == 32);
    assert(a.padding@.len() == 107);
    assert(b.len() == 10240);
    assert(b.subrange(0, 8) =~= tag);
    assert(b.subrange(8, 40) =~= a.pool_id@);
    assert(b.subrange(40, 44) =~= spec_u32_to_le_bytes(bits_of_i32(a.start_tick_index)));
    assert(b.subrange(10125, 10133) =~= spec_u64_to_le_bytes(a.recent_epoch));
    assert(b.subrange(10133, 10240) =~= a.padding@);
    assert(b.subrange(44, 10124) =~= tick_states_bytes(a.ticks@));
    assert forall|k: int| 0 <= k < 60 implies is_tick_state_at(
        #[trigger] a.ticks[k],
        b,
        44 + 168 * k,
    ) by {
        lemma_tick_states_window(a.ticks@, k);
        lemma_tick_state_bytes_match(a.ticks[k]);
        assert(b.subrange(44 + 168 * k, 44 + 168 * k + 168) =~= b.subrange(44, 10124).subrange(
            168 * k,
            168 * k + 168,
        ));
    }
}

/// The bytes of a tick array in the dynamic layout, with any tag before
/// them, hold the header and the tick states.
pub proof fn lemma_dyn_array_bytes_match(h: DynTickArrayState, ticks: Seq<TickState>, tag: Seq<u8>)
    requires
        tag.len() == 8,
    ensures
        (tag + dyn_header_body(h) + tick_states_bytes(ticks)).len() == 216 + 168 * ticks.len(),
        (tag + dyn_header_body(h) + tick_states_bytes(ticks)).subrange(0, 8) == tag,
        is_dyn_header_of(h, tag + dyn_header_body(h) + tick_states_bytes(ticks)),
        are_dyn_ticks_of(ticks, tag + dyn_header_body(h) + tick_states_bytes(ticks)),
{
    lemma_number_lengths();
    lemma_auto_spec_u32_to_from_le_bytes();
    lemma_auto_spec_u64_to_from_le_bytes();
    lemma_signed_bits();
    let b = tag + dyn_header_body(h) + tick_states_bytes(ticks);
    assert(h.pool_id@.len() == 32);
    assert(h.padding_0@.len() == 4);
    assert(h.tick_offset_index@.len() == 60);
    assert(h.padding_1@.len() == 2);
    assert(h.padding_2@.len() == 96);
    assert(b.len() == 216 + 168 * ticks.len());
    assert(b.subrange(0, 8) =~= tag);
    assert(b.subrange(8, 40) =~= h.pool_id@);
    assert(b.subrange(40, 44) =~= spec_u32_to_le_bytes(bits_of_i32(h.start_tick_index)));
    assert(b.subrange(44, 48) =~= h.padding_0@);
    assert(b.subrange(48, 108) =~= h.tick_offset_index@);
    assert(b.subrange(110, 112) =~= h.padding_1@);
    assert(b.subrange(112, 120) =~= spec_u64_to_le_bytes(h.recent_epoch));
    assert(b.subrange(120, 216) =~= h.padding_2@);
    assert(b.subrange(216, b.len() as int) =~= tick_states_bytes(ticks));
    assert forall|k: int| 0 <= k < ticks.len() implies is_tick_state_at(
        #[trigger] ticks[k],
        b,
        216 + 168 * k,
    ) by {
        lemma_tick_states_window(ticks, k);
        lemma_tick_state_bytes_match(ticks[k]);
        assert(b.subrange(216 + 168 * k, 216 + 168 * k + 168) =~= b.subrange(
            216,
            b.len() as int,
        ).subrange(168 * k, 168 * k + 168));
    }
}

/// The bytes that hold a tick array in the fixed layout are its tag and the
/// tick array's bytes.
pub proof fn lemma_fixed_array_bytes_unique(a: TickArrayState, b: Seq<u8>)
    requires
        is_fixed_array_of(a, b),
    ensures
        b == b.subrange(0, 8) + fixed_array_body(a),
{
    let tag = b.subrange(0, 8);
    let e = tag + fixed_array_body(a);
    lemma_fixed_array_bytes_match(a, tag);
    assert forall|i: int| 0 <= i < 10240 implies b[i] == e[i] by {
        if i < 8 {
            assert(e.subrange(0, 8)[i] == e[i]);
        } else if i < 40 {
            assert(b.subrange(8, 40)[i - 8] == b[i]);
            assert(e.subrange(8, 40)[i - 8] == e[i]);
        } else if i < 44 {
            lemma_window_bytes_4(b, e, 40, i);
        } else if i < 10124 {
            let k = (i - 44) / 168;
            let at = 44 + 168 * k;
            assert(is_tick_state_at(a.ticks[k], b, at));
            assert(is_tick_state_at(a.ticks[k], e, at));
            lemma_tick_state_window_unique(a.ticks[k], b.subrange(at, at + 168));
            lemma_tick_state_window_unique(a.ticks[k], e.subrange(at, at + 168));
            assert(b.subrange(at, at + 168)[i - at] == b[i]);
            assert(e.subrange(at, at + 168)[i - at] == e[i]);
        } else if i < 10125 {
        } else if i < 10133 {
            lemma_window_bytes_8(b, e, 10125, i);
        } else {
            assert(b.subrange(10133, 10240)[i - 10133] == b[i]);
            assert(e.subrange(10133, 10240)[i - 10133] == e[i]);
        }
    }
    assert(b =~= e);
}

/// The bytes that hold a tick array in the dynamic layout are its tag, the
/// header's bytes and the tick states' bytes.
pub proof fn lemma_dyn_array_bytes_unique(h: DynTickArrayState, ticks: Seq<TickState>, b: Seq<u8>)
    requires
        is_dyn_header_of(h, b),
        are_dyn_ticks_of(ticks, b),
    ensures
        b == b.subrange(0, 8) + dyn_header_body(h) + tick_states_bytes(ticks),
{
    let tag = b.subrange(0, 8);
    let e = tag + dyn_header_body(h) + tick_states_bytes(ticks);
    lemma_dyn_array_bytes_match(h, ticks, tag);
    assert forall|i: int| 0 <= i < b.len() implies b[i] == e[i] by {
        if i < 8 {
            assert(e.subrange(0, 8)[i] == e[i]);
        } else if i < 40 {
            assert(b.subrange(8, 40)[i - 8] == b[i]);
            assert(e.subrange(8, 40)[i - 8] == e[i]);
        } else if i < 44 {
            lemma_window_bytes_4(b, e, 40, i);
        } else if i < 48 {
            assert(b.subrange(44, 48)[i - 44] == b[i]);
            assert(e.subrange(44, 48)[i - 44] == e[i]);
        } else if i < 108 {
            assert(b.subrange(48, 108)[i - 48] == b[i]);
            assert(e.subrange(48, 108)[i - 48] == e[i]);
        } else if i < 110 {
        } else if i < 112 {
            assert(b.subrange(110, 112)[i - 110] == b[i]);
            assert(e.subrange(110, 112)[i - 110] == e[i]);
        } else if i < 120 {
            lemma_window_bytes_8(b, e, 112, i);
        } else if i < 216 {
            assert(b.subrange(120, 216)[i - 120] == b[i]);
            assert(e.subrange(120, 216)[i - 120] == e[i]);
        } else {
            let k = (i - 216) / 168;
            let at = 216 + 168 * k;
            assert(is_tick_state_at(ticks[k], b, at));
            assert(is_tick_state_at(ticks[k], e, at));
            lemma_tick_state_window_unique(ticks[k], b.subrange(at, at + 168));
            lemma_tick_state_window_unique(ticks[k], e.subrange(at, at + 168));
            assert(b.subrange(at, at + 168)[i - at] == b[i]);
            assert(e.subrange(at, at + 168)[i - at] == e[i]);
        }
    }
    assert(b =~= e);
}

} // verus!
