//! What a tool offers to the model, and how a call of one can fail.

use serde_json::Value;
use vstd::prelude::*;

use crate::json::json_content;
use crate::json::Json;

verus! {

/// A tool, as it is described to the model.
#[derive(Debug)]
pub struct ToolboxTool {
    pub toolbox: String,
    pub local_name: String,
    pub full_name: String,
    pub api_name: String,
    pub input_schema: Value,
    pub output_schema: Value,
    pub instructions: String,
    pub route: String,
    pub examples: String,
}

/// The model of a tool.
#[verifier::ext_equal]
pub struct ToolText {
    pub toolbox: Seq<char>,
    pub local_name: Seq<char>,
    pub full_name: Seq<char>,
    pub api_name: Seq<char>,
    pub input_schema: Json,
    pub output_schema: Json,
    pub instructions: Seq<char>,
    pub route: Seq<char>,
    pub examples: Seq<char>,
}

impl View for ToolboxTool {
    type V = ToolText;

    open spec fn view(&self) -> ToolText {
        ToolText {
            toolbox: self.toolbox@,
            local_name: self.local_name@,
            full_name: self.full_name@,
            api_name: self.api_name@,
            input_schema: json_content(self.input_schema),
            output_schema: json_content(self.output_schema),
            instructions: self.instructions@,
            route: self.route@,
            examples: self.examples@,
        }
    }
}

/// How a call of a tool can fail.
#[derive(Debug, PartialEq, Eq)]
pub enum ToolboxExecutionError {
    Tool { code: String, message: String, retryable: bool },
}

/// The model of a failure.
#[verifier::ext_equal]
pub struct ErrorText {
    pub code: Seq<char>,
    pub message: Seq<char>,
    pub retryable: bool,
}

impl View for ToolboxExecutionError {
    type V = ErrorText;

    open spec fn view(&self) -> ErrorText {
        match self {
            ToolboxExecutionError::Tool { code, message, retryable } => ErrorText {
                code: code@,
                message: message@,
                retryable: *retryable,
            },
        }
    }
}

} // verus!
