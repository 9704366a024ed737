use weixin_agent::messaging::debug_mode::{DebugMode, MessageTiming};
use weixin_agent::messaging::slash_commands::{handle_slash_command, SlashCommandResult};

#[test]
fn toggle_works() {
    let mut dm = DebugMode::new();
    assert!(!dm.is_enabled());
    assert!(dm.toggle());
    assert!(dm.is_enabled());
    assert!(!dm.toggle());
    assert!(!dm.is_enabled());
}

#[test]
fn debug_mode_default_is_off() {
    let dm = DebugMode::default();
    assert!(!dm.is_enabled());
}

#[test]
fn timing_report() {
    let timing = MessageTiming {
        event_timestamp_ms: 1000,
        received_at_ms: 1100,
        inbound_done_ms: Some(1150),
        reply_done_ms: Some(1200),
    };
    let report = timing.format_report();
    assert!(report.contains("Platform→Plugin: 100ms"));
    assert!(report.contains("Inbound processing: 50ms"));
    assert!(report.contains("Total: 100ms"));
}

#[test]
fn timing_report_exact_text() {
    let timing = MessageTiming {
        event_timestamp_ms: 1000,
        received_at_ms: 1100,
        inbound_done_ms: Some(1150),
        reply_done_ms: Some(1200),
    };
    assert_eq!(
        timing.format_report(),
        "\n\n---\nPlatform→Plugin: 100ms\nInbound processing: 50ms\nTotal: 100ms"
    );
    let partial = MessageTiming {
        event_timestamp_ms: 1000,
        received_at_ms: 1100,
        inbound_done_ms: None,
        reply_done_ms: None,
    };
    assert_eq!(partial.format_report(), "\n\n---\nPlatform→Plugin: 100ms");
}

#[test]
fn timing_saturates_on_clock_skew() {
    let skewed = MessageTiming {
        event_timestamp_ms: 5000,
        received_at_ms: 1000,
        inbound_done_ms: Some(900),
        reply_done_ms: Some(1000),
    };
    assert_eq!(skewed.platform_to_plugin_ms(), 0);
    assert_eq!(skewed.inbound_processing_ms(), Some(0));
    assert_eq!(skewed.total_ms(), Some(0));
    let negative = MessageTiming {
        event_timestamp_ms: -5,
        received_at_ms: 1000,
        inbound_done_ms: None,
        reply_done_ms: None,
    };
    assert_eq!(negative.platform_to_plugin_ms(), 1000);
    assert_eq!(negative.inbound_processing_ms(), None);
    assert_eq!(negative.total_ms(), None);
}

fn timing() -> MessageTiming {
    MessageTiming { event_timestamp_ms: 1000, received_at_ms: 1042, inbound_done_ms: None, reply_done_ms: None }
}

#[test]
fn slash_echo_replies_with_latency() {
    let mut dm = DebugMode::new();
    let (result, reply) = handle_slash_command("  /echo hello world \n", &mut dm, &timing());
    assert_eq!(result, SlashCommandResult::Handled);
    assert_eq!(reply.as_deref(), Some("hello world\n\n---\nPlatform→SDK: 42ms"));
    assert!(!dm.is_enabled());
}

#[test]
fn slash_toggle_debug_switches_mode() {
    let mut dm = DebugMode::new();
    let (result, reply) = handle_slash_command("/toggle-debug", &mut dm, &timing());
    assert_eq!(result, SlashCommandResult::Handled);
    assert_eq!(reply.as_deref(), Some("[Debug mode: ON]"));
    assert!(dm.is_enabled());
    let (_, reply) = handle_slash_command(" /toggle-debug ", &mut dm, &timing());
    assert_eq!(reply.as_deref(), Some("[Debug mode: OFF]"));
    assert!(!dm.is_enabled());
}

#[test]
fn slash_other_text_is_not_a_command() {
    let mut dm = DebugMode::new();
    for text in ["hello", "/echo", "/toggle-debugger", "/unknown", ""] {
        let (result, reply) = handle_slash_command(text, &mut dm, &timing());
        assert_eq!(result, SlashCommandResult::NotACommand);
        assert!(reply.is_none());
    }
    assert!(!dm.is_enabled());
}

#[test]
fn toggle_n_times_flips_on_odd_counts() {
    for n in 0..7u32 {
        let mut dm = DebugMode::new();
        for _ in 0..n {
            dm.toggle();
        }
        assert_eq!(dm.is_enabled(), n % 2 == 1);
    }
}
