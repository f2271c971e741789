//! The instruction that asks the inference service for a summary.

use vstd::prelude::*;
use vstd::string::StringExecFns;

verus! {

/// What the instruction says before the text to summarize.
pub const PROMPT_OPENING: &'static str =
    "<s>[INST]<<SYS>>You are a friendly summarization assistant. Take the input text and return a summary in three sentences. Please keep your responses concise, up to three sentences..<</SYS>>Please summarize following text: ";

/// What the instruction says after the text to summarize.
pub const PROMPT_CLOSING: &'static str = " [/INST]";

/// The instruction for `text`: the text between the opening and the closing,
/// character for character.
pub open spec fn prompt_for(text: Seq<char>) -> Seq<char> {
    PROMPT_OPENING@ + text + PROMPT_CLOSING@
}

/// Builds the instruction that asks for a summary of `text`.
pub fn summarization_prompt(text: &str) -> (prompt: String)
    ensures
        prompt@ == prompt_for(text@),
{
    String::from_str(PROMPT_OPENING).concat(text).concat(PROMPT_CLOSING)
}

} // verus!
