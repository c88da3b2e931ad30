//! Actuators: what the sequencer drives.

use vstd::prelude::*;

verus! {

/// An actuator with two commands.
///
/// The actuators of this library are modelled: their value after a command
/// is a function of their value before, which lets a contract say what a
/// sequence of commands leaves behind. An actuator that is implemented
/// elsewhere, and whose effect lies outside the program, leaves `modelled`
/// at `false` and promises nothing.
pub trait Motor: Sized {
    /// Whether `advanced` and `released` say what the commands do.
    open spec fn modelled(&self) -> bool {
        false
    }

    /// The actuator after `advance`, where it is modelled.
    open spec fn advanced(&self) -> Self {
        *self
    }

    /// The actuator after `reset`, where it is modelled.
    open spec fn released(&self) -> Self {
        *self
    }

    /// Command the motor to advance one step.
    fn advance(&mut self)
        ensures
            old(self).modelled() ==> final(self).modelled() && *final(self) == old(
                self,
            ).advanced(),
    ;

    /// Prepare the motor to advance another step later.
    fn reset(&mut self)
        ensures
            old(self).modelled() ==> final(self).modelled() && *final(self) == old(
                self,
            ).released(),
    ;
}

/// A stub that counts the `advance` commands it was given, up to the
/// largest number that its counter holds.
pub struct TestMotor {
    /// The number of `advance` commands so far.
    pub count: u64,
}

/// A stub that has counted nothing yet.
pub fn test_motor() -> (m: TestMotor)
    ensures
        m.count == 0,
{
    TestMotor { count: 0 }
}

impl Motor for TestMotor {
    open spec fn modelled(&self) -> bool {
        true
    }

    open spec fn advanced(&self) -> Self {
        TestMotor { count: if self.count < u64::MAX { (self.count + 1) as u64 } else { self.count } }
    }

    open spec fn released(&self) -> Self {
        *self
    }

    fn advance(&mut self) {
        if self.count < u64::MAX {
            self.count += 1;
        }
    }

    fn reset(&mut self) {
    }
}

/// An actuator of a simulated recording: it only remembers its level.
#[derive(Clone, Copy, Debug, PartialEq, Eq, Structural)]
pub struct SimpleAudioMotor {
    /// Whether the output is asserted.
    pub is_high: bool,
}

impl SimpleAudioMotor {
    /// An actuator whose output is deasserted.
    pub fn new() -> (m: SimpleAudioMotor)
        ensures
            !m.is_high,
    {
        SimpleAudioMotor { is_high: false }
    }
}

impl Motor for SimpleAudioMotor {
    open spec fn modelled(&self) -> bool {
        true
    }

    open spec fn advanced(&self) -> Self {
        SimpleAudioMotor { is_high: true }
    }

    open spec fn released(&self) -> Self {
        SimpleAudioMotor { is_high: false }
    }

    fn advance(&mut self) {
        self.is_high = true;
    }

    fn reset(&mut self) {
        self.is_high = false;
    }
}

} // verus!
