//! Which tick arrays of a pool hold an initialized tick: the pool's own
//! bitmap for the tick arrays near tick zero, and an extension for those
//! further out.

use vstd::prelude::*;
use crate::address::Address;
use crate::pool::PoolState;
use crate::tick::{array_start_index, array_start_index_wide, lemma_array_start_index};
use crate::tick_math::{MAX_TICK, MIN_TICK};

verus! {

/// How many bitmaps of 512 tick arrays the extension has on each side.
pub const EXTENSION_TICKARRAY_BITMAP_SIZE: usize = 14;

/// The extension of a pool's bitmap: on each side of tick zero, fourteen
/// bitmaps of 512 tick arrays each, beyond the 512 tick arrays that the
/// pool's own bitmap tells of.
#[derive(Clone, Copy, Debug, PartialEq, Eq)]
pub struct TickArrayBitmapExtension {
    pub pool_id: Address,
    /// Bitmap `k` tells of the tick arrays number `512 * (k + 1)` up to
    /// `512 * (k + 2) - 1`, lowest first.
    pub positive_tick_array_bitmap: [[u64; 8]; 14],
    /// Bitmap `k` tells of the tick arrays number `-512 * (k + 2)` up to
    /// `-512 * (k + 1) - 1`, lowest first.
    pub negative_tick_array_bitmap: [[u64; 8]; 14],
}

/// Bit `k` of a word.
pub open spec fn word_bit(word: u64, k: u64) -> bool {
    (word >> k) & 1u64 == 1u64
}

/// Whether the pool's own bitmap has the bit of tick array number `n`,
/// which lies in `-512..512`.
pub open spec fn default_bit(bitmap: [u64; 16], n: int) -> bool {
    word_bit(bitmap[(n + 512) / 64], ((n + 512) % 64) as u64)
}

/// Whether the extension has the bit of tick array number `n`, which lies
/// in `-7680..-512` or in `512..7680`.
pub open spec fn extension_bit(extension: TickArrayBitmapExtension, n: int) -> bool {
    if n >= 512 {
        let m = n - 512;
        word_bit(extension.positive_tick_array_bitmap[m / 512][(m % 512) / 64], (m % 64) as u64)
    } else {
        let m = n + 7680;
        word_bit(
            extension.negative_tick_array_bitmap[13 - m / 512][(m % 512) / 64],
            (m % 64) as u64,
        )
    }
}

/// Whether tick array number `n` is marked as holding an initialized tick:
/// by the pool's own bitmap near tick zero, by the extension, where there
/// is one, further out, and not at all beyond the extension.
pub open spec fn array_marked(
    bitmap: [u64; 16],
    extension: Option<TickArrayBitmapExtension>,
    n: int,
) -> bool {
    if -512 <= n < 512 {
        default_bit(bitmap, n)
    } else if -7680 <= n < 7680 && extension is Some {
        extension_bit(extension->Some_0, n)
    } else {
        false
    }
}

/// The number of the tick array that holds `MIN_TICK`.
pub open spec fn lowest_array_number(tick_spacing: int) -> int {
    MIN_TICK as int / (60 * tick_spacing)
}

/// The number of the tick array that holds `MAX_TICK`.
pub open spec fn highest_array_number(tick_spacing: int) -> int {
    MAX_TICK as int / (60 * tick_spacing)
}

/// The nearest marked tick array at or below number `from`, down to `min`.
pub open spec fn marked_at_or_below(
    bitmap: [u64; 16],
    extension: Option<TickArrayBitmapExtension>,
    from: int,
    min: int,
) -> Option<int>
    decreases from - min + 1,
{
    if from < min {
        None
    } else if array_marked(bitmap, extension, from) {
        Some(from)
    } else {
        marked_at_or_below(bitmap, extension, from - 1, min)
    }
}

/// The nearest marked tick array at or above number `from`, up to `max`.
pub open spec fn marked_at_or_above(
    bitmap: [u64; 16],
    extension: Option<TickArrayBitmapExtension>,
    from: int,
    max: int,
) -> Option<int>
    decreases max - from + 1,
{
    if from > max {
        None
    } else if array_marked(bitmap, extension, from) {
        Some(from)
    } else {
        marked_at_or_above(bitmap, extension, from + 1, max)
    }
}

/// The number of the next marked tick array from number `n` in the
/// direction of the swap, among the tick arrays that hold a tick of the
/// tick range.
pub open spec fn next_marked_array(
    bitmap: [u64; 16],
    extension: Option<TickArrayBitmapExtension>,
    n: int,
    tick_spacing: int,
    zero_for_one: bool,
) -> Option<int> {
    let lowest = lowest_array_number(tick_spacing);
    let highest = highest_array_number(tick_spacing);
    if zero_for_one {
        marked_at_or_below(
            bitmap,
            extension,
            if n - 1 < highest {
                n - 1
            } else {
                highest
            },
            lowest,
        )
    } else {
        marked_at_or_above(
            bitmap,
            extension,
            if n + 1 > lowest {
                n + 1
            } else {
                lowest
            },
            highest,
        )
    }
}

/// Bit `k` of a word.
pub fn get_word_bit(word: u64, k: u64) -> (r: bool)
    requires
        k < 64,
    ensures
        r == word_bit(word, k),
{
    (word >> k) & 1u64 == 1u64
}

/// Whether tick array number `n` is marked as holding an initialized tick.
pub fn is_array_marked(
    bitmap: &[u64; 16],
    extension: &Option<TickArrayBitmapExtension>,
    n: i32,
) -> (r: bool)
    ensures
        r == array_marked(*bitmap, *extension, n as int),
{
    if -512 <= n && n < 512 {
        let m: usize = (n + 512) as usize;
        get_word_bit(bitmap[m / 64], (m % 64) as u64)
    } else if -7680 <= n && n < 7680 {
        match extension {
            Some(ext) => {
                if n >= 512 {
                    let m: usize = (n - 512) as usize;
                    get_word_bit(
                        ext.positive_tick_array_bitmap[m / 512][(m % 512) / 64],
                        (m % 64) as u64,
                    )
                } else {
                    let m: usize = (n + 7680) as usize;
                    get_word_bit(
                        ext.negative_tick_array_bitmap[13 - m / 512][(m % 512) / 64],
                        (m % 64) as u64,
                    )
                }
            },
            None => false,
        }
    } else {
        false
    }
}

/// The number of the tick array that holds `tick_index`.
pub fn array_number(tick_index: i32, tick_spacing: u16) -> (r: i32)
    requires
        tick_spacing > 0,
    ensures
        r == tick_index as int / (60 * tick_spacing as int),
        r * (60 * tick_spacing as int) == array_start_index(tick_index as int, tick_spacing as int),
{
    let per_array: i64 = 60 * (tick_spacing as i64);
    let start: i64 = array_start_index_wide(tick_index, tick_spacing);
    proof {
        let p = per_array as int;
        let q = tick_index as int / p;
        vstd::arithmetic::div_mod::lemma_fundamental_div_mod(tick_index as int, p);
        vstd::arithmetic::div_mod::lemma_mod_bound(tick_index as int, p);
        assert(-0x8000_0000 <= q <= 0x8000_0000) by (nonlinear_arith)
            requires
                tick_index as int == p * q + (tick_index as int) % p,
                0 <= (tick_index as int) % p < p,
                p >= 60,
                -0x8000_0000 <= tick_index < 0x8000_0000,
        ;
        assert(start == q * p);
        assert((-q) * p == -(q * p)) by (nonlinear_arith);
        if start >= 0 {
            vstd::arithmetic::div_mod::lemma_fundamental_div_mod_converse(start as int, p, q, 0);
        } else {
            vstd::arithmetic::div_mod::lemma_fundamental_div_mod_converse(-start, p, -q, 0);
        }
    }
    if start >= 0 {
        (start / per_array) as i32
    } else {
        (-((-start) / per_array)) as i32
    }
}

impl PoolState {
    /// What `next_initialized_tick_array_start_index` returns: the start
    /// index of the next marked tick array from the tick array that holds
    /// `last_tick_array_start_index`, in the direction of the swap.
    pub open spec fn spec_next_initialized_tick_array_start_index(
        &self,
        extension: Option<TickArrayBitmapExtension>,
        last_tick_array_start_index: i32,
        zero_for_one: bool,
    ) -> Option<i32> {
        match next_marked_array(
            self.tick_array_bitmap,
            extension,
            last_tick_array_start_index as int / (60 * self.tick_spacing as int),
            self.tick_spacing as int,
            zero_for_one,
        ) {
            Some(n) => Some((n * 60 * self.tick_spacing) as i32),
            None => None,
        }
    }

    /// What `get_first_initialized_tick_array` returns: the tick array of
    /// the current tick, with `true`, where it is marked; else the next
    /// marked tick array in the direction of the swap, with `false`.
    pub open spec fn spec_get_first_initialized_tick_array(
        &self,
        extension: Option<TickArrayBitmapExtension>,
        zero_for_one: bool,
    ) -> Option<(bool, i32)> {
        let n = self.tick_current as int / (60 * self.tick_spacing as int);
        if array_marked(self.tick_array_bitmap, extension, n) {
            Some((true, array_start_index(self.tick_current as int, self.tick_spacing as int) as i32))
        } else {
            match self.spec_next_initialized_tick_array_start_index(
                extension,
                self.tick_current,
                zero_for_one,
            ) {
                Some(start) => Some((false, start)),
                None => None,
            }
        }
    }

    /// The start index of the next tick array that is marked as holding an
    /// initialized tick, from the tick array that holds
    /// `last_tick_array_start_index`, in the direction of the swap.
    pub fn next_initialized_tick_array_start_index(
        &self,
        tickarray_bitmap_extension: &Option<TickArrayBitmapExtension>,
        last_tick_array_start_index: i32,
        zero_for_one: bool,
    ) -> (r: Option<i32>)
        requires
            self.tick_spacing > 0,
        ensures
            r == self.spec_next_initialized_tick_array_start_index(
                *tickarray_bitmap_extension,
                last_tick_array_start_index,
                zero_for_one,
            ),
            r is Some ==> r->Some_0 as int % (60 * self.tick_spacing as int) == 0 && MIN_TICK - 60
                * self.tick_spacing < r->Some_0 <= MAX_TICK,
    {
        let n = array_number(last_tick_array_start_index, self.tick_spacing);
        let lowest = array_number(MIN_TICK, self.tick_spacing);
        let highest = array_number(MAX_TICK, self.tick_spacing);
        let ghost bitmap = self.tick_array_bitmap;
        let ghost extension = *tickarray_bitmap_extension;
        let per_array: i32 = 60 * (self.tick_spacing as i32);
        proof {
            lemma_array_start_index(MIN_TICK as int, self.tick_spacing as int);
            lemma_array_start_index(MAX_TICK as int, self.tick_spacing as int);
        }
        let mut found: Option<i32> = None;
        if zero_for_one {
            let first: i64 = if (n as i64 - 1) < highest as i64 {
                n as i64 - 1
            } else {
                highest as i64
            };
            let mut m: i64 = first;
            while m >= lowest as i64 && found.is_none()
                invariant
                    lowest == lowest_array_number(self.tick_spacing as int),
                    m <= first <= highest,
                    bitmap == self.tick_array_bitmap,
                    extension == *tickarray_bitmap_extension,
                    found is None ==> marked_at_or_below(
                        bitmap,
                        extension,
                        first as int,
                        lowest as int,
                    ) == marked_at_or_below(bitmap, extension, m as int, lowest as int),
                    found is Some ==> marked_at_or_below(
                        bitmap,
                        extension,
                        first as int,
                        lowest as int,
                    ) == Some(found->Some_0 as int) && lowest <= found->Some_0 <= highest,
                decreases m - lowest + 1 + (if found is None {
                    1int
                } else {
                    0int
                }),
            {
                if is_array_marked(&self.tick_array_bitmap, tickarray_bitmap_extension, m as i32) {
                    found = Some(m as i32);
                } else {
                    m -= 1;
                }
            }
        } else {
            let first: i64 = if (n as i64 + 1) > lowest as i64 {
                n as i64 + 1
            } else {
                lowest as i64
            };
            let mut m: i64 = first;
            while m <= highest as i64 && found.is_none()
                invariant
                    highest == highest_array_number(self.tick_spacing as int),
                    lowest <= first <= m,
                    bitmap == self.tick_array_bitmap,
                    extension == *tickarray_bitmap_extension,
                    found is None ==> marked_at_or_above(
                        bitmap,
                        extension,
                        first as int,
                        highest as int,
                    ) == marked_at_or_above(bitmap, extension, m as int, highest as int),
                    found is Some ==> marked_at_or_above(
                        bitmap,
                        extension,
                        first as int,
                        highest as int,
                    ) == Some(found->Some_0 as int) && lowest <= found->Some_0 <= highest,
                decreases highest - m + 1 + (if found is None {
                    1int
                } else {
                    0int
                }),
            {
                if is_array_marked(&self.tick_array_bitmap, tickarray_bitmap_extension, m as i32) {
                    found = Some(m as i32);
                } else {
                    m += 1;
                }
            }
        }
        match found {
            Some(number) => {
                proof {
                    let p = per_array as int;
                    let lo = lowest as int;
                    let hi = highest as int;
                    let k = number as int;
                    assert(lo * p <= k * p <= hi * p) by (nonlinear_arith)
                        requires
                            lo <= k <= hi,
                            p > 0,
                    ;
                    assert(k * 60 * self.tick_spacing == k * p) by (nonlinear_arith)
                        requires
                            p == 60 * self.tick_spacing,
                    ;
                    assert(p * k == k * p) by (nonlinear_arith);
                    vstd::arithmetic::div_mod::lemma_fundamental_div_mod_converse(k * p, p, k, 0);
                }
                Some(number * per_array)
            },
            None => None,
        }
    }

    /// The first tick array that is marked as holding an initialized tick,
    /// seen from the current tick in the direction of the swap: the tick
    /// array of the current tick, with `true`, or the next one, with
    /// `false`.
    pub fn get_first_initialized_tick_array(
        &self,
        tickarray_bitmap_extension: &Option<TickArrayBitmapExtension>,
        zero_for_one: bool,
    ) -> (r: Option<(bool, i32)>)
        requires
            self.tick_spacing > 0,
            i32::MIN <= array_start_index(self.tick_current as int, self.tick_spacing as int),
        ensures
            r == self.spec_get_first_initialized_tick_array(
                *tickarray_bitmap_extension,
                zero_for_one,
            ),
    {
        let n = array_number(self.tick_current, self.tick_spacing);
        if is_array_marked(&self.tick_array_bitmap, tickarray_bitmap_extension, n) {
            let start = array_start_index_wide(self.tick_current, self.tick_spacing);
            proof {
                lemma_array_start_index(self.tick_current as int, self.tick_spacing as int);
            }
            return Some((true, start as i32));
        }
        match self.next_initialized_tick_array_start_index(
            tickarray_bitmap_extension,
            self.tick_current,
            zero_for_one,
        ) {
            Some(start) => Some((false, start)),
            None => None,
        }
    }
}

} // verus!
