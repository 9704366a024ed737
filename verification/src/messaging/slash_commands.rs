//! Slash command handling for debugging and echo.

use vstd::prelude::*;
use crate::messaging::debug_mode::{DebugMode, MessageTiming, platform_latency, toggled};
use crate::text::{chars_of, chars_equal, decimal, has_prefix, push_decimal, string_of, trim, trim_chars};

verus! {

/// Result of slash command handling.
#[derive(Debug, PartialEq, Eq, Structural)]
pub enum SlashCommandResult {
    /// Command handled – no further processing.
    Handled,
    /// Not a slash command – continue normal flow.
    NotACommand,
}

pub open spec fn echo_prefix() -> Seq<char> {
    "/echo "@
}

pub open spec fn toggle_command() -> Seq<char> {
    "/toggle-debug"@
}

/// Reply to `/echo <text>`: the text, then the platform latency.
pub open spec fn echo_reply(cmd: Seq<char>, t: MessageTiming) -> Seq<char> {
    cmd.subrange(echo_prefix().len() as int, cmd.len() as int) + "\n\n---\nPlatform→SDK: "@
        + decimal(platform_latency(t) as nat) + "ms"@
}

/// Reply to `/toggle-debug` once the new state is known.
pub open spec fn toggle_reply(enabled: bool) -> Seq<char> {
    if enabled {
        "[Debug mode: ON]"@
    } else {
        "[Debug mode: OFF]"@
    }
}

/// Decide on a possible slash command. Returns the result and the reply text
/// to send back, if any; `/toggle-debug` also toggles `debug_mode`.
pub fn handle_slash_command(text: &str, debug_mode: &mut DebugMode, timing: &MessageTiming) -> (r:
    (SlashCommandResult, Option<String>))
    ensures
        ({
            let cmd = trim(text@);
            if cmd.len() >= echo_prefix().len() && cmd.subrange(0, echo_prefix().len() as int)
                == echo_prefix() {
                &&& r.0 == SlashCommandResult::Handled
                &&& r.1 matches Some(reply) && reply@ == echo_reply(cmd, *timing)
                &&& final(debug_mode)@ == old(debug_mode)@
            } else if cmd == toggle_command() {
                &&& r.0 == SlashCommandResult::Handled
                &&& final(debug_mode)@ == toggled(old(debug_mode)@)
                &&& r.1 matches Some(reply) && reply@ == toggle_reply(final(debug_mode)@)
            } else {
                &&& r.0 == SlashCommandResult::NotACommand
                &&& r.1 is None
                &&& final(debug_mode)@ == old(debug_mode)@
            }
        }),
{
    let all = chars_of(text);
    let cmd = trim_chars(&all);
    let echo = chars_of("/echo ");
    if has_prefix(&cmd, &echo) {
        let mut reply = string_of(&cmd, echo.len(), cmd.len());
        reply.append("\n\n---\nPlatform→SDK: ");
        push_decimal(&mut reply, timing.platform_to_plugin_ms());
        reply.append("ms");
        return (SlashCommandResult::Handled, Some(reply));
    }
    let toggle = chars_of("/toggle-debug");
    if chars_equal(&cmd, &toggle) {
        let new_state = debug_mode.toggle();
        let reply = if new_state {
            String::from_str("[Debug mode: ON]")
        } else {
            String::from_str("[Debug mode: OFF]")
        };
        return (SlashCommandResult::Handled, Some(reply));
    }
    (SlashCommandResult::NotACommand, None)
}

} // verus!
