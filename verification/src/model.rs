//! What a model is given.

use serde_json::Value;
use vstd::prelude::*;

verus! {

/// The messages of a conversation, and the tools that the model may call.
#[derive(Debug)]
pub struct ModelContext {
    pub messages: Vec<Value>,
    pub tools: Vec<Value>,
}

} // verus!
