pub mod multinode;
pub mod job;
pub mod selector;
pub mod registry;
pub mod wait;
pub mod cancel;
pub mod worker;
pub mod progress;
pub mod env;
pub mod settings;
pub mod session;
