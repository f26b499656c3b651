use vstd::prelude::*;

use crate::cp_math::BASIS_POINTS;
use crate::error::AMMError;
use crate::state::LiquidityPoolConfig;

verus! {

/// Key `a` comes strictly before key `b` in lexicographic byte order.
pub open spec fn key_precedes(a: Seq<u8>, b: Seq<u8>) -> bool {
    exists|i: int|
        #![trigger a[i], b[i]]
        0 <= i < a.len() && i < b.len() && a[i] < b[i] && forall|j: int|
            0 <= j < i ==> #[trigger] a[j] == #[trigger] b[j]
}

/// Whether the 32-byte key `a` orders strictly before `b`, byte by byte from the first.
pub fn key_less(a: &[u8; 32], b: &[u8; 32]) -> (r: bool)
    ensures
        r == key_precedes(a@, b@),
{
    let mut i: usize = 0;
    while i < 32
        invariant
            0 <= i <= 32,
            a@.len() == 32,
            b@.len() == 32,
            forall|j: int| 0 <= j < i ==> #[trigger] a@[j] == #[trigger] b@[j],
        decreases 32 - i,
    {
        if a[i] != b[i] {
            let less = a[i] < b[i];
            proof {
                if less {
                    assert(key_precedes(a@, b@)) by {
                        assert(a@[i as int] < b@[i as int]);
                    }
                } else {
                    assert forall|k: int|
                        0 <= k < a@.len() && k < b@.len() && a@[k] < b@[k] implies !(forall|j: int|
                        0 <= j < k ==> #[trigger] a@[j] == #[trigger] b@[j]) by {
                        if k < i {
                            assert(a@[k] == b@[k]);
                        } else if k == i {
                        } else {
                            assert(a@[i as int] != b@[i as int]);
                        }
                    }
                }
            }
            return less;
        }
        i = i + 1;
    }
    proof {
        assert forall|k: int|
            0 <= k < a@.len() && k < b@.len() implies !(a@[k] < b@[k]) by {
            assert(a@[k] == b@[k]);
        }
    }
    false
}

/// The outcome of creating a pool for the mints `mint_a` and `mint_b` with a swap fee
/// of `fee` basis points: the mints must be given in ascending key order and the fee
/// must be below `BASIS_POINTS`; the new pool accounts for empty reserves.
pub open spec fn create_pool_result(
    mint_a: Seq<u8>,
    mint_b: Seq<u8>,
    fee: u16,
    liquidity_pool_mint_bump: u8,
    bump: u8,
) -> Result<LiquidityPoolConfig, AMMError> {
    if key_precedes(mint_a, mint_b) && fee < BASIS_POINTS {
        Ok(LiquidityPoolConfig { vault_a: 0, vault_b: 0, fee, liquidity_pool_mint_bump, bump })
    } else {
        Err(AMMError::InvalidArguments)
    }
}

/// Checks a pool-creation request and builds the state of the new pool.
pub fn create_pool_config(
    mint_a: &[u8; 32],
    mint_b: &[u8; 32],
    fee: u16,
    liquidity_pool_mint_bump: u8,
    bump: u8,
) -> (r: Result<LiquidityPoolConfig, AMMError>)
    ensures
        r == create_pool_result(mint_a@, mint_b@, fee, liquidity_pool_mint_bump, bump),
        r matches Ok(config) ==> config.fee < BASIS_POINTS,
        r is Ok <==> (key_precedes(mint_a@, mint_b@) && fee < BASIS_POINTS),
{
    if !key_less(mint_a, mint_b) {
        return Err(AMMError::InvalidArguments);
    }
    if !((fee as u64) < BASIS_POINTS) {
        return Err(AMMError::InvalidArguments);
    }
    Ok(LiquidityPoolConfig { vault_a: 0, vault_b: 0, fee, liquidity_pool_mint_bump, bump })
}

} // verus!
