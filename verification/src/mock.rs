//! The environment the pallets' tests run in: the block number of the system pallet and fresh
//! test externalities.
use vstd::prelude::*;

verus! {

/// The system pallet, as far as tests move it: its block number.
pub struct System {
    pub block_number: u64,
}

/// Moves the block number forward, one block at a time, until it reaches `b`; it never moves
/// back.
pub fn advance_to(system: &mut System, b: u64)
    ensures
        final(system).block_number == if old(system).block_number < b {
            b
        } else {
            old(system).block_number
        },
{
    while system.block_number < b
        invariant
            system.block_number >= old(system).block_number,
            system.block_number == old(system).block_number || system.block_number <= b,
        decreases b - system.block_number,
    {
        system.block_number = system.block_number + 1;
    }
}

/// The configuration of the test runtime; it holds nothing.
pub struct ConfigRecord;

/// The configuration of the test runtime.
pub fn new_config() -> (c: ConfigRecord)
    ensures
        c == ConfigRecord,
{
    ConfigRecord
}

/// Test externalities built from a configuration.
pub struct TestExt(pub ConfigRecord);

impl TestExt {
    /// Test externalities with the default configuration.
    pub fn new() -> (t: Self)
        ensures
            t == TestExt(ConfigRecord),
    {
        TestExt(new_config())
    }

    /// Runs `f` in fresh externalities and gives back what it returns.
    pub fn execute_with<R, F: Fn() -> R>(self, f: F) -> (r: R)
        requires
            f.requires(()),
        ensures
            f.ensures((), r),
    {
        f()
    }
}

} // verus!
