//! The views of the library.
use vstd::prelude::*;

verus! {

#[derive(Clone, Copy, PartialEq, Eq, Structural, Debug)]
pub enum View {
    Splash,
    List,
    Results,
    Viewer,
    /// The tailnet fleet: board machines over ssh.
    Raft,
    /// Stats about your library.
    Den,
}

} // verus!
