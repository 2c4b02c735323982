//! The decision logic of the app's controllers.
pub mod permission_workflow;
pub mod entity;
pub mod session;
pub mod tool;
pub mod turn;
pub mod query;
pub mod render;
