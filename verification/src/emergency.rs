//! Emergency controls: circuit breakers, pause mechanisms, emergency
//! withdrawals, safe mode, rate limiting and incident logging.

use vstd::prelude::*;

verus! {

/// The emergency-controls contract.
pub struct EmergencyControls;

} // verus!
