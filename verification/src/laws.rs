//! What holds of the protocol whatever the inputs: the laws of the leader
//! schedule, of notarization, of finality, of the fork choice and of gossip.

pub mod finality;
pub mod fork_choice;
pub mod gossip;
pub mod leader;
pub mod notarization;
