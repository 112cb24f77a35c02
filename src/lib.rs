//! Resolution of SSH targets behind a bastion host: a target is parsed, joined
//! against container-orchestration and virtual-machine inventory records, and
//! rendered as an SSH command line.
pub mod access;
pub mod assoc;
pub mod choices;
pub mod connections;
pub mod inventory;
pub mod lookup;
pub mod pipeline;
pub mod resolve;
pub mod settings;
pub mod target;
pub mod text;
