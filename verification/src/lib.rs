//! Podium workspace core: configuration model, persisted UI state, SSH host
//! alias parsing, onboarding flow state, dock layout and watch-channel
//! versioning, each stated and proved with Verus.

pub mod config;
pub mod dock;
pub mod onboarding;
pub mod panel;
pub mod ssh_config;
pub mod ssh_hosts;
pub mod state;
pub mod text;
pub mod watch;
