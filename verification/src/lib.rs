use vstd::prelude::*;

pub mod runtime;
pub mod bytes;
pub mod decimal;
pub mod filetail;
pub mod git_observer;
pub mod inventory;
pub mod json;
pub mod message;
pub mod otlp;
pub mod paths;
pub mod rfc3339;
pub mod sha256;
pub mod strings;

verus! {

} // verus!
