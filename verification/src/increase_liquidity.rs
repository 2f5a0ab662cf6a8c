//! Adding liquidity to a position: what is checked before anything is
//! changed, and what the position takes from the change.

use vstd::prelude::*;
use crate::account::AccountView;
use crate::address::{
    Address,
    bitmap_extension_seeds,
    get_bitmap_extension_address,
    program_address,
};
use crate::error::{AccountError, ErrorCode};
use crate::loader::{TickArrayContainer, tick_array_account_check};
use crate::pool::{PoolState, PoolStatusBitIndex, overflows_default_bitmap};
use crate::full_math::mul_div_floor_u128;
use crate::position::{calculate_latest_token_fees, fees_for_growth, latest_token_fees_spec};
use crate::wide::Q64;

verus! {

/// What a position keeps of one of the pool's rewards.
#[derive(Clone, Copy, Debug, PartialEq, Eq)]
pub struct PositionRewardInfo {
    /// The reward growth inside the position's range when the amount owed
    /// was last brought up to date.
    pub growth_inside_last_x64: u128,
    /// The amount of the reward owed to the position.
    pub reward_amount_owed: u64,
}

/// The reward of a position of `liquidity` after the reward growth inside
/// its range has gone to `latest`: the amount owed grows, modulo `2^64`, by
/// `liquidity * ((latest - last) mod 2^128) / 2^64`, rounded down, which is
/// counted as zero from `u64::MAX` on.
pub open spec fn reward_after_growth(
    info: PositionRewardInfo,
    latest: u128,
    liquidity: u128,
) -> PositionRewardInfo {
    let earned = fees_for_growth(info.growth_inside_last_x64, latest, liquidity);
    let counted = if earned < u64::MAX {
        earned
    } else {
        0
    };
    PositionRewardInfo {
        growth_inside_last_x64: latest,
        reward_amount_owed: if info.reward_amount_owed + counted <= u64::MAX {
            (info.reward_amount_owed + counted) as u64
        } else {
            (info.reward_amount_owed + counted - 0x1_0000_0000_0000_0000) as u64
        },
    }
}

impl PositionRewardInfo {
    /// Brings the amount owed up to the latest reward growth inside the
    /// range of a position of `liquidity`.
    pub fn update(&mut self, growth_inside_latest_x64: u128, liquidity: u128)
        ensures
            *final(self) == reward_after_growth(*old(self), growth_inside_latest_x64, liquidity),
    {
        let growth = growth_inside_latest_x64.wrapping_sub(self.growth_inside_last_x64);
        let counted: u64 = match mul_div_floor_u128(growth, liquidity, Q64) {
            Some(earned) => if earned < u64::MAX as u128 {
                earned as u64
            } else {
                0
            },
            None => 0,
        };
        self.reward_amount_owed = match self.reward_amount_owed.checked_add(counted) {
            Some(owed) => owed,
            None => counted - (u64::MAX - self.reward_amount_owed) - 1,
        };
        self.growth_inside_last_x64 = growth_inside_latest_x64;
    }
}

/// A position: liquidity between two ticks of a pool, and the fees and
/// rewards that it has earned.
#[derive(Clone, Copy, Debug, PartialEq, Eq)]
pub struct PersonalPositionState {
    /// The token that stands for the position.
    pub nft_mint: Address,
    /// The pool of the position.
    pub pool_id: Address,
    pub tick_lower_index: i32,
    pub tick_upper_index: i32,
    /// The liquidity of the position.
    pub liquidity: u128,
    /// The fee growth inside the position's range when the fees owed were
    /// last brought up to date.
    pub fee_growth_inside_0_last_x64: u128,
    pub fee_growth_inside_1_last_x64: u128,
    /// The fees owed to the position.
    pub token_fees_owed_0: u64,
    pub token_fees_owed_1: u64,
    /// What the position keeps of the pool's three rewards.
    pub reward_infos: [PositionRewardInfo; 3],
    /// The epoch of the last update.
    pub recent_epoch: u64,
}

/// The three rewards of a position of `liquidity` after the reward growths
/// inside its range have gone to `latest`.
pub open spec fn rewards_after_growth(
    infos: [PositionRewardInfo; 3],
    latest: [u128; 3],
    liquidity: u128,
) -> [PositionRewardInfo; 3] {
    [
        reward_after_growth(infos[0], latest[0], liquidity),
        reward_after_growth(infos[1], latest[1], liquidity),
        reward_after_growth(infos[2], latest[2], liquidity),
    ]
}

/// What `PersonalPositionState::increase_liquidity` makes of a position:
/// the fees and the rewards owed are brought up to the latest growth inside
/// the range, for the liquidity that the position had, and the liquidity
/// grows. `CalculateOverflow` where the fees owed leave their 64 bits,
/// `LiquidityAddValueErr` where the liquidity leaves its 128 bits.
pub open spec fn position_after_increase(
    position: PersonalPositionState,
    liquidity_delta: u128,
    fee_growth_inside_0_x64_latest: u128,
    fee_growth_inside_1_x64_latest: u128,
    reward_growths_inside_latest: [u128; 3],
    recent_epoch: u64,
) -> Result<PersonalPositionState, ErrorCode> {
    let fees_0 = latest_token_fees_spec(
        position.token_fees_owed_0,
        position.fee_growth_inside_0_last_x64,
        fee_growth_inside_0_x64_latest,
        position.liquidity,
    );
    let fees_1 = latest_token_fees_spec(
        position.token_fees_owed_1,
        position.fee_growth_inside_1_last_x64,
        fee_growth_inside_1_x64_latest,
        position.liquidity,
    );
    if fees_0 is Err {
        Err(fees_0->Err_0)
    } else if fees_1 is Err {
        Err(fees_1->Err_0)
    } else if position.liquidity + liquidity_delta > u128::MAX {
        Err(ErrorCode::LiquidityAddValueErr)
    } else {
        Ok(
            PersonalPositionState {
                token_fees_owed_0: fees_0->Ok_0,
                token_fees_owed_1: fees_1->Ok_0,
                fee_growth_inside_0_last_x64: fee_growth_inside_0_x64_latest,
                fee_growth_inside_1_last_x64: fee_growth_inside_1_x64_latest,
                reward_infos: rewards_after_growth(
                    position.reward_infos,
                    reward_growths_inside_latest,
                    position.liquidity,
                ),
                liquidity: (position.liquidity + liquidity_delta) as u128,
                recent_epoch,
                ..position
            },
        )
    }
}

impl PersonalPositionState {
    /// Brings the fees owed up to date and adds liquidity to the position.
    /// A position that cannot take the change stays as it is.
    pub fn increase_liquidity(
        &mut self,
        liquidity_delta: u128,
        fee_growth_inside_0_x64_latest: u128,
        fee_growth_inside_1_x64_latest: u128,
        reward_growths_inside_latest: [u128; 3],
        recent_epoch: u64,
    ) -> (r: Result<(), ErrorCode>)
        ensures
            match position_after_increase(
                *old(self),
                liquidity_delta,
                fee_growth_inside_0_x64_latest,
                fee_growth_inside_1_x64_latest,
                reward_growths_inside_latest,
                recent_epoch,
            ) {
                Ok(after) => r is Ok && *final(self) == after,
                Err(e) => r == Err::<(), ErrorCode>(e) && *final(self) == *old(self),
            },
    {
        let fees_0 = calculate_latest_token_fees(
            self.token_fees_owed_0,
            self.fee_growth_inside_0_last_x64,
            fee_growth_inside_0_x64_latest,
            self.liquidity,
        )?;
        let fees_1 = calculate_latest_token_fees(
            self.token_fees_owed_1,
            self.fee_growth_inside_1_last_x64,
            fee_growth_inside_1_x64_latest,
            self.liquidity,
        )?;
        let liquidity = match self.liquidity.checked_add(liquidity_delta) {
            Some(v) => v,
            None => {
                return Err(ErrorCode::LiquidityAddValueErr);
            },
        };
        self.token_fees_owed_0 = fees_0;
        self.token_fees_owed_1 = fees_1;
        self.fee_growth_inside_0_last_x64 = fee_growth_inside_0_x64_latest;
        self.fee_growth_inside_1_last_x64 = fee_growth_inside_1_x64_latest;
        let held = self.liquidity;
        let mut reward_infos = self.reward_infos;
        let mut i: usize = 0;
        while i < 3
            invariant
                i <= 3,
                forall|k: int|
                    0 <= k < i ==> reward_infos[k] == reward_after_growth(
                        #[trigger] old(self).reward_infos[k],
                        reward_growths_inside_latest[k],
                        held,
                    ),
                forall|k: int| i <= k < 3 ==> reward_infos[k] == old(self).reward_infos[k],
            decreases 3 - i,
        {
            let mut info = reward_infos[i];
            info.update(reward_growths_inside_latest[i], held);
            reward_infos[i] = info;
            i += 1;
        }
        proof {
            assert(reward_infos =~= rewards_after_growth(
                old(self).reward_infos,
                reward_growths_inside_latest,
                held,
            ));
        }
        self.reward_infos = reward_infos;
        self.liquidity = liquidity;
        self.recent_epoch = recent_epoch;
        Ok(())
    }
}

/// What has been checked and found before liquidity is added to a
/// position.
#[derive(Clone, Debug)]
pub struct IncreaseLiquidityAccess {
    /// The tick array of the position's lower tick.
    pub tick_array_lower: TickArrayContainer,
    /// The tick array of the position's upper tick.
    pub tick_array_upper: TickArrayContainer,
    /// Whether the bitmap extension is needed, because one of the two tick
    /// arrays lies beyond what the pool's own bitmap tells of.
    pub use_tickarray_bitmap_extension: bool,
}

/// The pool that the data of a tick array names.
pub open spec fn pool_in(data: Seq<u8>) -> Seq<u8> {
    data.subrange(8, 40)
}

/// The first failure of the checks that are made before liquidity is added
/// to a position: the pool allows it; the two accounts hold the tick arrays
/// of the position's two ticks, with states for them; the tick arrays are
/// of the pool; and where one of them lies beyond the pool's own bitmap,
/// the first of the remaining accounts is the pool's bitmap extension.
pub open spec fn increase_liquidity_check(
    pool_state: PoolState,
    pool_key: Address,
    program_id: Address,
    tick_lower: i32,
    tick_upper: i32,
    lower_account: AccountView,
    upper_account: AccountView,
    first_remaining_account: Option<Address>,
) -> Result<bool, AccountError> {
    let lower = tick_array_account_check(
        lower_account,
        program_id,
        tick_lower,
        pool_state.tick_spacing,
    );
    let upper = tick_array_account_check(
        upper_account,
        program_id,
        tick_upper,
        pool_state.tick_spacing,
    );
    let needs_extension = overflows_default_bitmap(tick_lower, pool_state.tick_spacing)
        || overflows_default_bitmap(tick_upper, pool_state.tick_spacing);
    if !pool_state.spec_get_status_by_bit(PoolStatusBitIndex::OpenPositionOrIncreaseLiquidity) {
        Err(AccountError::Program(ErrorCode::NotApproved))
    } else if lower is Err {
        Err(lower->Err_0)
    } else if upper is Err {
        Err(upper->Err_0)
    } else if pool_in(lower_account.data@) != pool_key@ || pool_in(upper_account.data@)
        != pool_key@ {
        Err(AccountError::RequireKeysEqViolated)
    } else if needs_extension && (first_remaining_account is None || program_address(
        bitmap_extension_seeds(pool_key@),
        program_id@,
    ) != Some(first_remaining_account->Some_0@)) {
        Err(AccountError::RequireKeysEqViolated)
    } else {
        Ok(needs_extension)
    }
}

/// Makes the checks that come before liquidity is added to a position, and
/// returns the two tick arrays and whether the bitmap extension is needed.
pub fn increase_liquidity(
    pool_state: &PoolState,
    pool_key: &Address,
    program_id: &Address,
    personal_position: &PersonalPositionState,
    tick_array_lower_account: &AccountView,
    tick_array_upper_account: &AccountView,
    first_remaining_account: Option<Address>,
) -> (r: Result<IncreaseLiquidityAccess, AccountError>)
    requires
        pool_state.tick_spacing > 0,
    ensures
        match r {
            Ok(access) => {
                &&& increase_liquidity_check(
                    *pool_state,
                    *pool_key,
                    *program_id,
                    personal_position.tick_lower_index,
                    personal_position.tick_upper_index,
                    *tick_array_lower_account,
                    *tick_array_upper_account,
                    first_remaining_account,
                ) == Ok::<bool, AccountError>(access.use_tickarray_bitmap_extension)
                &&& access.tick_array_lower.account().same_as(tick_array_lower_account)
                &&& access.tick_array_upper.account().same_as(tick_array_upper_account)
                &&& access.tick_array_lower.data_check() is Ok
                &&& access.tick_array_upper.data_check() is Ok
            },
            Err(e) => increase_liquidity_check(
                *pool_state,
                *pool_key,
                *program_id,
                personal_position.tick_lower_index,
                personal_position.tick_upper_index,
                *tick_array_lower_account,
                *tick_array_upper_account,
                first_remaining_account,
            ) == Err::<bool, AccountError>(e),
        },
{
    if !pool_state.get_status_by_bit(PoolStatusBitIndex::OpenPositionOrIncreaseLiquidity) {
        return Err(AccountError::Program(ErrorCode::NotApproved));
    }
    let tick_spacing = pool_state.tick_spacing;
    let tick_lower = personal_position.tick_lower_index;
    let tick_upper = personal_position.tick_upper_index;
    let tick_array_lower = TickArrayContainer::try_from(
        tick_array_lower_account,
        program_id,
        tick_lower,
        tick_spacing,
    )?;
    let tick_array_upper = TickArrayContainer::try_from(
        tick_array_upper_account,
        program_id,
        tick_upper,
        tick_spacing,
    )?;
    let lower_pool = match tick_array_lower.load() {
        Ok(loaded) => {
            proof {
                lemma_pool_of_loaded(tick_array_lower, loaded);
            }
            loaded.get_pool_id()
        },
        Err(e) => {
            return Err(e);
        },
    };
    let upper_pool = match tick_array_upper.load() {
        Ok(loaded) => {
            proof {
                lemma_pool_of_loaded(tick_array_upper, loaded);
            }
            loaded.get_pool_id()
        },
        Err(e) => {
            return Err(e);
        },
    };
    if !lower_pool.same(pool_key) || !upper_pool.same(pool_key) {
        return Err(AccountError::RequireKeysEqViolated);
    }
    let use_tickarray_bitmap_extension = pool_state.is_overflow_default_tickarray_bitmap(
        vec![tick_lower, tick_upper],
    );
    proof {
        let ticks = seq![tick_lower, tick_upper];
        assert(ticks[0] == tick_lower && ticks[1] == tick_upper);
    }
    if use_tickarray_bitmap_extension {
        let expected = get_bitmap_extension_address(*pool_key, *program_id);
        match (expected, first_remaining_account) {
            (Some(address), Some(given)) => {
                if !address.same(&given) {
                    return Err(AccountError::RequireKeysEqViolated);
                }
            },
            _ => {
                return Err(AccountError::RequireKeysEqViolated);
            },
        }
    }
    Ok(IncreaseLiquidityAccess { tick_array_lower, tick_array_upper, use_tickarray_bitmap_extension })
}

/// The pool of a loaded tick array is the pool that the data names.
pub proof fn lemma_pool_of_loaded(
    container: TickArrayContainer,
    loaded: crate::container::TickArrayContainerRefMut,
)
    requires
        container.holds(&loaded),
        container.data_check() is Ok,
    ensures
        loaded.spec_pool_id()@ == pool_in(container.account().data@),
{
    let data = container.account().data@;
    if container is Fixed {
        assert(data.subrange(0, 10240).subrange(8, 40) =~= data.subrange(8, 40));
    }
}

} // verus!
