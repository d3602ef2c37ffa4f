//! Recovery from gateways that reject the way reasoning is replayed.
//!
//! Some OpenAI-protocol gateways front a reasoning model through an
//! Anthropic-shaped validation layer and reject the flat replay of earlier
//! reasoning as "not passed back". The provider then retries once with
//! reasoning replayed as content blocks, and once more with it left out.

use crate::text::{contains_text, lowercase, seq_contains, to_lowercase};
use vstd::prelude::*;

verus! {

/// The error text names the `content[].thinking` field and says it was not
/// passed back, in any letter case.
pub open spec fn is_thinking_replay_error_spec(message: Seq<char>) -> bool {
    seq_contains(lowercase(message), "content[].thinking"@) && seq_contains(lowercase(message), "passed back"@)
}

/// Whether a gateway's error rejects the flat reasoning replay.
pub fn is_thinking_replay_format_error(message: &str) -> (b: bool)
    ensures
        b == is_thinking_replay_error_spec(message@),
{
    let lower = to_lowercase(message);
    contains_text(lower.as_str(), "content[].thinking") && contains_text(lower.as_str(), "passed back")
}

/// How earlier reasoning is sent back to the model.
#[derive(Clone, Copy, Debug, PartialEq, Eq, Structural)]
pub enum ThinkingReplay {
    /// As the provider is configured.
    Configured,
    /// As `content[].thinking` blocks.
    ContentBlock,
    /// Not at all.
    Omitted,
}

/// The replay to retry with after an attempt failed, or `None` to return
/// the attempt's result. Only an API error that rejects the replay format
/// leads to a retry: from the configured replay (unless that already uses
/// content blocks) to content blocks, and from content blocks to none.
pub open spec fn replay_retry_spec(attempt: ThinkingReplay, configured_as_blocks: bool, api_error: Option<Seq<char>>) -> Option<ThinkingReplay> {
    match api_error {
        Some(message) => if !is_thinking_replay_error_spec(message) {
            None
        } else {
            match attempt {
                ThinkingReplay::Configured => if configured_as_blocks { None } else { Some(ThinkingReplay::ContentBlock) },
                ThinkingReplay::ContentBlock => Some(ThinkingReplay::Omitted),
                ThinkingReplay::Omitted => None,
            }
        },
        None => None,
    }
}

pub fn replay_retry(attempt: ThinkingReplay, configured_as_blocks: bool, api_error: Option<&str>) -> (next: Option<ThinkingReplay>)
    ensures
        next == replay_retry_spec(attempt, configured_as_blocks, match api_error {
            Some(m) => Some(m@),
            None => None,
        }),
{
    match api_error {
        Some(message) => {
            match attempt {
                ThinkingReplay::Configured => {
                    if !configured_as_blocks && is_thinking_replay_format_error(message) {
                        Some(ThinkingReplay::ContentBlock)
                    } else {
                        None
                    }
                },
                ThinkingReplay::ContentBlock => {
                    if is_thinking_replay_format_error(message) {
                        Some(ThinkingReplay::Omitted)
                    } else {
                        None
                    }
                },
                ThinkingReplay::Omitted => None,
            }
        },
        None => None,
    }
}

/// The retries end: at most two retries follow the first attempt,
/// whatever errors come back.
pub proof fn law_replay_retries_end(configured_as_blocks: bool, e1: Option<Seq<char>>, e2: Option<Seq<char>>, e3: Option<Seq<char>>)
    ensures
        ({
            let second = replay_retry_spec(ThinkingReplay::Configured, configured_as_blocks, e1);
            let third = match second {
                Some(a) => replay_retry_spec(a, configured_as_blocks, e2),
                None => None,
            };
            match third {
                Some(a) => replay_retry_spec(a, configured_as_blocks, e3) is None,
                None => true,
            }
        }),
{
}

} // verus!
