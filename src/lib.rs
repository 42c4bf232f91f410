pub mod filter;
pub mod podman;
pub mod process;
pub mod socket;
pub mod pty;
pub mod state;
pub mod title;
