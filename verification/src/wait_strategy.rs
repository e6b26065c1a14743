//! How a waiting party idles while the sequence it needs is not yet available.

use vstd::prelude::*;

verus! {

/// The idling behaviour a wait strategy asks for.
#[derive(Debug, Clone, Copy, PartialEq, Eq, Structural)]
pub enum WaitKind {
    /// Spin on the CPU.
    BusySpin,
    /// Yield the thread between checks.
    Yield,
    /// Sleep briefly between checks.
    Sleep,
    /// Park until woken.
    Block,
}

/// A strategy for waiting on sequences; users may implement their own.
pub trait WaitStrategy {
    /// The idling behaviour of this strategy.
    fn wait_kind(&self) -> WaitKind;
}

/// Spins on the CPU while waiting.
#[derive(Debug, Clone, Copy, Default)]
pub struct BusySpinWaitStrategy;

/// Yields the thread while waiting.
#[derive(Debug, Clone, Copy, Default)]
pub struct YieldingWaitStrategy;

/// Sleeps briefly while waiting.
#[derive(Debug, Clone, Copy, Default)]
pub struct SleepingWaitStrategy;

/// Parks the thread until it is woken.
#[derive(Debug, Clone, Copy, Default)]
pub struct BlockingWaitStrategy;

impl YieldingWaitStrategy {
    /// A new yielding strategy.
    pub fn new() -> Self {
        YieldingWaitStrategy
    }
}

impl SleepingWaitStrategy {
    /// A new sleeping strategy.
    pub fn new() -> Self {
        SleepingWaitStrategy
    }
}

impl BlockingWaitStrategy {
    /// A new blocking strategy.
    pub fn new() -> Self {
        BlockingWaitStrategy
    }
}

impl WaitStrategy for BusySpinWaitStrategy {
    fn wait_kind(&self) -> (k: WaitKind)
        ensures
            k == WaitKind::BusySpin,
    {
        WaitKind::BusySpin
    }
}

impl WaitStrategy for YieldingWaitStrategy {
    fn wait_kind(&self) -> (k: WaitKind)
        ensures
            k == WaitKind::Yield,
    {
        WaitKind::Yield
    }
}

impl WaitStrategy for SleepingWaitStrategy {
    fn wait_kind(&self) -> (k: WaitKind)
        ensures
            k == WaitKind::Sleep,
    {
        WaitKind::Sleep
    }
}

impl WaitStrategy for BlockingWaitStrategy {
    fn wait_kind(&self) -> (k: WaitKind)
        ensures
            k == WaitKind::Block,
    {
        WaitKind::Block
    }
}

} // verus!
