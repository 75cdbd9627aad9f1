//! Witness-generation core for a layered proof system.
//!
//! Turns a linear trace of typed virtual-machine queries into the inputs a
//! layered proof system needs: running queue digests, demuxed and
//! deduplicated per-destination streams, per-precompile round witnesses,
//! capacity-bounded circuit instance witnesses, and recursion-request queues.

pub mod advancing_range;
pub mod artifacts;
pub mod assembler;
pub mod queries;
pub mod decommit;
pub mod dedup;
pub mod demux;
pub mod queue;
pub mod recursion;
pub mod rounds;
pub mod sorting;
