//! The ways in which scoring a submission can fail.

use vstd::prelude::*;
use crate::validate::Rejection;

verus! {

/// Why a submission or an expedition could not be scored.
#[derive(Clone, Copy, Debug, PartialEq, Eq, Structural)]
pub enum Error {
    /// A character that is no card, met while scoring.
    CardError(char),
    /// The submission was turned down before scoring.
    ValidationRejected(Rejection),
}

} // verus!
