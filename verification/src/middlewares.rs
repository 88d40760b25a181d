//! What the guards in front of the pages decide.

pub mod privilege_validator;
pub mod token_validator;
