//! The size rule of the worker pool.
use vstd::prelude::*;

use crate::response::{decimal, decimal_of};
use crate::text::{chars_of, concat, string_of};

verus! {

/// Why a pool cannot be built.
#[derive(Debug, Clone, Copy)]
pub enum PoolCreationError {
    /// A pool needs at least one worker.
    ZeroSize,
    /// More workers were asked for than the machine runs in parallel:
    /// the size asked for, and the most that is allowed.
    ExcessSize((usize, usize)),
}

/// The outcome of asking for `size` workers where `max_size` run in parallel.
pub open spec fn pool_size_spec(size: usize, max_size: usize) -> Result<usize, PoolCreationError> {
    if size == 0 {
        Err(PoolCreationError::ZeroSize)
    } else if size > max_size {
        Err(PoolCreationError::ExcessSize((size, max_size)))
    } else {
        Ok(size)
    }
}

/// Checks a pool size against the parallelism of the machine.
pub fn check_pool_size(size: usize, max_size: usize) -> (r: Result<usize, PoolCreationError>)
    ensures
        r == pool_size_spec(size, max_size),
{
    if size == 0 {
        return Err(PoolCreationError::ZeroSize);
    }
    if size > max_size {
        return Err(PoolCreationError::ExcessSize((size, max_size)));
    }
    Ok(size)
}

impl PoolCreationError {
    /// A sentence that names the failure.
    pub fn message(&self) -> (r: String)
        ensures
            self matches PoolCreationError::ZeroSize ==> r@ == "can't have zero size pool"@,
            self matches PoolCreationError::ExcessSize((size, max)) ==> r@ == "excess pool size: "@
                + decimal(size as nat) + " max is "@ + decimal(max as nat),
    {
        match self {
            PoolCreationError::ZeroSize => "can't have zero size pool".to_owned(),
            PoolCreationError::ExcessSize((size, max)) => {
                let a = concat(&chars_of("excess pool size: "), &decimal_of(*size));
                let b = concat(&a, &chars_of(" max is "));
                string_of(&concat(&b, &decimal_of(*max)))
            },
        }
    }
}

} // verus!
