//! A prover stub that accepts every log entry, for test deployments.

use vstd::prelude::*;

verus! {

/// Accepts every proof it is shown.
pub struct MockProver {}

impl MockProver {
    /// Always reports the log entry as verified.
    pub fn verify_log_entry(
        &self,
        _log_index: u64,
        _log_entry_data: Vec<u8>,
        _receipt_index: u64,
        _receipt_data: Vec<u8>,
        _header_data: Vec<u8>,
        _proof: Vec<Vec<u8>>,
        _skip_bridge_call: bool,
    ) -> (r: bool)
        ensures
            r == true,
    {
        true
    }
}

} // verus!
