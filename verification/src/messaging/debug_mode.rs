//! Debug mode state and message timing utilities.

use vstd::prelude::*;
use crate::text::{decimal, push_decimal};

verus! {

/// Debug mode switch, initially off.
pub struct DebugMode {
    enabled: bool,
}

impl View for DebugMode {
    /// Whether debug mode is on.
    type V = bool;

    closed spec fn view(&self) -> bool {
        self.enabled
    }
}

/// The state after one toggle.
pub open spec fn toggled(enabled: bool) -> bool {
    !enabled
}

/// Toggling twice restores the state.
pub proof fn lemma_toggle_twice(enabled: bool)
    ensures
        toggled(toggled(enabled)) == enabled,
{
}

/// The state after `n` toggles.
pub open spec fn toggled_times(enabled: bool, n: nat) -> bool
    decreases n,
{
    if n == 0 {
        enabled
    } else {
        toggled(toggled_times(enabled, (n - 1) as nat))
    }
}

/// After `n` toggles the switch is flipped exactly when `n` is odd.
pub proof fn lemma_toggle_n_times(enabled: bool, n: nat)
    ensures
        toggled_times(enabled, n) == (enabled != (n % 2 == 1)),
    decreases n,
{
    if n > 0 {
        lemma_toggle_n_times(enabled, (n - 1) as nat);
    }
}

impl DebugMode {
    /// Create a new instance, initially disabled.
    pub fn new() -> (r: Self)
        ensures
            r@ == false,
    {
        DebugMode { enabled: false }
    }

    /// Toggle the debug flag and return the new state.
    pub fn toggle(&mut self) -> (r: bool)
        ensures
            final(self)@ == toggled(old(self)@),
            r == final(self)@,
    {
        self.enabled = !self.enabled;
        self.enabled
    }

    /// Query whether debug mode is currently enabled.
    pub fn is_enabled(&self) -> (r: bool)
        ensures
            r == self@,
    {
        self.enabled
    }
}

impl Default for DebugMode {
    fn default() -> (r: Self)
        ensures
            r@ == false,
    {
        Self::new()
    }
}

/// Timing information for a single message processing lifecycle.
#[derive(Debug, Clone)]
pub struct MessageTiming {
    /// Message creation timestamp on the platform (ms since epoch).
    pub event_timestamp_ms: i64,
    /// When the SDK received the message (ms since epoch).
    pub received_at_ms: u64,
    /// When inbound processing completed (optional, ms since epoch).
    pub inbound_done_ms: Option<u64>,
    /// When the reply was sent (optional, ms since epoch).
    pub reply_done_ms: Option<u64>,
}

/// `a - b`, or 0 when `b > a`.
pub open spec fn saturating_diff(a: int, b: int) -> int {
    if a >= b {
        a - b
    } else {
        0
    }
}

/// A negative event timestamp counts as 0.
pub open spec fn event_time(t: MessageTiming) -> int {
    if t.event_timestamp_ms >= 0 {
        t.event_timestamp_ms as int
    } else {
        0
    }
}

pub open spec fn platform_latency(t: MessageTiming) -> int {
    saturating_diff(t.received_at_ms as int, event_time(t))
}

pub open spec fn since_received(t: MessageTiming, done: Option<u64>) -> Option<int> {
    match done {
        Some(d) => Some(saturating_diff(d as int, t.received_at_ms as int)),
        None => None,
    }
}

/// "<label><n>ms" when the duration is known, nothing otherwise.
pub open spec fn report_line(label: Seq<char>, duration: Option<int>) -> Seq<char> {
    match duration {
        Some(n) => label + decimal(n as nat) + "ms"@,
        None => seq![],
    }
}

/// The timing report: a separator, then one line per known duration.
pub open spec fn timing_report(t: MessageTiming) -> Seq<char> {
    "\n\n---\nPlatform→Plugin: "@ + decimal(platform_latency(t) as nat) + "ms"@ + report_line(
        "\nInbound processing: "@,
        since_received(t, t.inbound_done_ms),
    ) + report_line("\nTotal: "@, since_received(t, t.reply_done_ms))
}

fn elapsed_since(start: u64, done: Option<u64>) -> (r: Option<u64>)
    ensures
        match (r, done) {
            (Some(x), Some(d)) => x == saturating_diff(d as int, start as int),
            (None, None) => true,
            _ => false,
        },
{
    match done {
        Some(d) => Some(
            if d >= start {
                d - start
            } else {
                0
            },
        ),
        None => None,
    }
}

impl MessageTiming {
    /// Milliseconds from platform to SDK (network latency).
    pub fn platform_to_plugin_ms(&self) -> (r: u64)
        ensures
            r == platform_latency(*self),
    {
        let event: u64 = if self.event_timestamp_ms >= 0 {
            self.event_timestamp_ms as u64
        } else {
            0
        };
        if self.received_at_ms >= event {
            self.received_at_ms - event
        } else {
            0
        }
    }

    /// Milliseconds spent in inbound processing.
    pub fn inbound_processing_ms(&self) -> (r: Option<u64>)
        ensures
            match r {
                Some(x) => since_received(*self, self.inbound_done_ms) == Some(x as int),
                None => since_received(*self, self.inbound_done_ms) is None,
            },
    {
        elapsed_since(self.received_at_ms, self.inbound_done_ms)
    }

    /// Total elapsed time from SDK receipt to reply completion.
    pub fn total_ms(&self) -> (r: Option<u64>)
        ensures
            match r {
                Some(x) => since_received(*self, self.reply_done_ms) == Some(x as int),
                None => since_received(*self, self.reply_done_ms) is None,
            },
    {
        elapsed_since(self.received_at_ms, self.reply_done_ms)
    }

    /// Generate a human-readable report.
    pub fn format_report(&self) -> (r: String)
        ensures
            r@ == timing_report(*self),
    {
        let mut s = String::new();
        s.append("\n\n---\nPlatform→Plugin: ");
        push_decimal(&mut s, self.platform_to_plugin_ms());
        s.append("ms");
        let ghost head = s@;
        if let Some(inb) = self.inbound_processing_ms() {
            s.append("\nInbound processing: ");
            push_decimal(&mut s, inb);
            s.append("ms");
        }
        let ghost mid = s@;
        if let Some(total) = self.total_ms() {
            s.append("\nTotal: ");
            push_decimal(&mut s, total);
            s.append("ms");
        }
        assert(s@ =~= timing_report(*self));
        s
    }
}

} // verus!
