//! The command line of the decoder.

use vstd::prelude::*;

verus! {

/// The arguments of the decoder: the raw transaction as hexadecimal text.
pub struct Cli {
    pub transaction_hex: String,
}

} // verus!
