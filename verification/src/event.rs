//! The events the surrounding application feeds the simulation loop: a
//! timer tick, or a request to quit.

use vstd::prelude::*;

verus! {

/// One event from the outside world: a periodic timer firing, or the user
/// asking to exit.
#[derive(Clone, Copy, Debug, PartialEq, Eq, Structural)]
pub enum Event {
    Tick,
    Exit,
}

} // verus!
