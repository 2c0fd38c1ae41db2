//! Magic markers for tuner sections in configuration files.

use vstd::prelude::*;

verus! {

/// Line that opens the tuner block.
pub const TUNER_START: &'static str = "-- <<TUNER-START>>";

/// Line that closes the tuner block.
pub const TUNER_END: &'static str = "-- <<TUNER-END>>";

/// Prefix of every decorator line.
pub const DECORATOR_PREFIX: &'static str = "-- @ui:";

} // verus!
