//! Execution-management core: manifest validation, dependency-aware grouping
//! of applications per function-group mode, and the state-transition protocol.

pub mod text;
pub mod string_map;
pub mod machine_manifest;
pub mod search;
pub mod execution_manifest;
pub mod order;
pub mod group;
pub mod manifest_set;
pub mod function_group;
pub mod protocol;
pub mod state_manager;
pub mod ara_core;
pub mod instance_specifier;
pub mod argument;
pub mod application;
