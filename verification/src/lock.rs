//! The lock state and the register that holds it.

use core::sync::atomic::{AtomicBool, Ordering};
use vstd::prelude::*;

verus! {

/// The security posture of the controlled device.
#[derive(Clone, Copy, Debug, PartialEq, Eq, Structural)]
pub enum LockState {
    Locked,
    Unlocked,
}

impl LockState {
    /// The state that a boolean "locked" flag stands for.
    pub open spec fn of_flag(locked: bool) -> LockState {
        if locked {
            LockState::Locked
        } else {
            LockState::Unlocked
        }
    }

    /// The state that a boolean "locked" flag stands for.
    pub fn from_flag(locked: bool) -> (state: LockState)
        ensures
            state == LockState::of_flag(locked),
    {
        if locked {
            LockState::Locked
        } else {
            LockState::Unlocked
        }
    }

    /// Whether the device is locked.
    pub fn is_locked(self) -> (locked: bool)
        ensures
            locked == (self == LockState::Locked),
            self == LockState::of_flag(locked),
    {
        match self {
            LockState::Locked => true,
            LockState::Unlocked => false,
        }
    }
}

/// The single cell that holds the lock state: the only state that the tasks
/// of the device share. It is built once and handed by reference to every
/// component that reads or writes the state. A write replaces the whole
/// value, so the last writer wins.
///
/// Any task may write between two accesses, so no contract says what state
/// a register holds: the functions that decide take it as an argument.
pub struct LockStateRegister {
    locked: AtomicBool,
}

impl LockStateRegister {
    /// A register in the initial state: locked.
    pub fn new() -> (register: LockStateRegister) {
        LockStateRegister { locked: AtomicBool::new(true) }
    }

    /// The state held now, read with acquire ordering.
    pub fn load(&self) -> (state: LockState) {
        LockState::from_flag(self.locked.load(Ordering::Acquire))
    }

    /// Replaces the state held, with release ordering.
    pub fn store(&self, state: LockState) {
        self.locked.store(state.is_locked(), Ordering::Release);
    }
}

} // verus!
