//! The RBN telnet client's configuration and decision logic.
//!
//! The network side (connecting, reading bytes, timers) lives outside the
//! library. What stands here is everything the connection task decides:
//! the login handshake's byte-level prompt detection, line cleanup for
//! streaming, and the reconnect decision.

use vstd::prelude::*;

use crate::text::trim_end;

verus! {

/// Default RBN telnet server for CW/RTTY spots.
pub const RBN_HOST: &'static str = "telnet.reversebeacon.net";

/// Default port for CW/RTTY spots.
pub const RBN_PORT_CW: u16 = 7000;

/// Default port for FT8 spots.
pub const RBN_PORT_FT8: u16 = 7001;

/// Cap on how many bytes of banner the login handshake will buffer while
/// looking for a prompt.
pub const LOGIN_BUFFER_CAP: usize = 4096;

/// Configuration for the RBN client. Timeouts and delays are in seconds.
#[derive(Debug)]
pub struct RbnClientConfig {
    /// Hostname of the RBN server.
    pub host: String,

    /// Port number.
    pub port: u16,

    /// Callsign to use for login.
    pub callsign: String,

    /// Connection timeout in seconds, also applied to each login byte
    /// read.
    pub connect_timeout_secs: u64,

    /// Read timeout in seconds for individual lines while streaming.
    pub read_timeout_secs: u64,

    /// Whether to automatically reconnect on disconnect.
    pub auto_reconnect: bool,

    /// Delay in seconds between reconnection attempts.
    pub reconnect_delay_secs: u64,
}

impl Default for RbnClientConfig {
    /// The public RBN server with a placeholder callsign and standard
    /// timeouts.
    fn default() -> (r: Self)
        ensures
            r.host@ == RBN_HOST@,
            r.port == RBN_PORT_CW,
            r.callsign@ == "N0CALL"@,
            r.connect_timeout_secs == 30,
            r.read_timeout_secs == 120,
            r.auto_reconnect,
            r.reconnect_delay_secs == 5,
    {
        RbnClientConfig {
            host: String::from_str(RBN_HOST),
            port: RBN_PORT_CW,
            callsign: String::from_str("N0CALL"),
            connect_timeout_secs: 30,
            read_timeout_secs: 120,
            auto_reconnect: true,
            reconnect_delay_secs: 5,
        }
    }
}

impl Clone for RbnClientConfig {
    /// A clone carries exactly the same settings.
    fn clone(&self) -> (r: Self)
        ensures
            r.host@ == self.host@,
            r.port == self.port,
            r.callsign@ == self.callsign@,
            r.connect_timeout_secs == self.connect_timeout_secs,
            r.read_timeout_secs == self.read_timeout_secs,
            r.auto_reconnect == self.auto_reconnect,
            r.reconnect_delay_secs == self.reconnect_delay_secs,
    {
        RbnClientConfig {
            host: self.host.clone(),
            port: self.port,
            callsign: self.callsign.clone(),
            connect_timeout_secs: self.connect_timeout_secs,
            read_timeout_secs: self.read_timeout_secs,
            auto_reconnect: self.auto_reconnect,
            reconnect_delay_secs: self.reconnect_delay_secs,
        }
    }
}

impl RbnClientConfig {
    /// A default configuration with the given callsign.
    pub fn with_callsign(callsign: &str) -> (r: Self)
        ensures
            r.callsign@ == callsign@,
            r.host@ == RBN_HOST@,
            r.port == RBN_PORT_CW,
            r.connect_timeout_secs == 30,
            r.read_timeout_secs == 120,
            r.auto_reconnect,
            r.reconnect_delay_secs == 5,
    {
        let mut c = RbnClientConfig::default();
        c.callsign = String::from_str(callsign);
        c
    }

    /// This configuration with the host and port replaced.
    pub fn with_server(self, host: &str, port: u16) -> (r: Self)
        ensures
            r.host@ == host@,
            r.port == port,
            r.callsign@ == self.callsign@,
            r.connect_timeout_secs == self.connect_timeout_secs,
            r.read_timeout_secs == self.read_timeout_secs,
            r.auto_reconnect == self.auto_reconnect,
            r.reconnect_delay_secs == self.reconnect_delay_secs,
    {
        let mut c = self;
        c.host = String::from_str(host);
        c.port = port;
        c
    }

    /// What to do after a disconnect: reconnect after the configured
    /// delay, or stop.
    pub fn after_disconnect(&self) -> (r: Option<u64>)
        ensures
            r == if self.auto_reconnect {
                Some(self.reconnect_delay_secs)
            } else {
                None::<u64>
            },
    {
        if self.auto_reconnect {
            Some(self.reconnect_delay_secs)
        } else {
            None
        }
    }
}

/// Events the RBN connection task reports.
#[derive(Debug)]
pub enum RbnEvent {
    /// A line was received from the server.
    Line(String),
    /// Connection was established and login completed.
    Connected,
    /// Connection was lost, with the reason.
    Disconnected(String),
    /// An error occurred.
    Error(String),
}

/// The RBN telnet client: its configuration, ready to be run by a
/// connection task.
#[derive(Debug)]
pub struct RbnClient {
    /// The connection configuration.
    pub config: RbnClientConfig,
}

impl RbnClient {
    /// Create a new RBN client with the given configuration.
    pub fn new(config: RbnClientConfig) -> (r: Self)
        ensures
            r.config == config,
    {
        RbnClient { config }
    }
}

/// ASCII uppercase of a byte.
pub open spec fn upper_byte(b: u8) -> u8 {
    if 97 <= b <= 122 {
        (b - 32) as u8
    } else {
        b
    }
}

/// Whether the buffer ends with the bytes `call:`, ASCII
/// case-insensitively — the RBN login prompt is not newline-terminated,
/// so it must be recognized from the byte tail.
pub open spec fn spec_prompt_seen(s: Seq<u8>) -> bool {
    &&& s.len() >= 5
    &&& upper_byte(s[s.len() - 5]) == 67  // C
    &&& upper_byte(s[s.len() - 4]) == 65  // A
    &&& upper_byte(s[s.len() - 3]) == 76  // L
    &&& upper_byte(s[s.len() - 2]) == 76  // L
    &&& s[s.len() - 1] == 58  // :
}

/// ASCII uppercase of a byte.
fn upper_byte_exec(b: u8) -> (r: u8)
    ensures
        r == upper_byte(b),
{
    if 97 <= b && b <= 122 {
        b - 32
    } else {
        b
    }
}

/// Whether the buffer currently ends with the login prompt `call:`
/// (ASCII case-insensitive).
pub fn prompt_seen(buf: &Vec<u8>) -> (r: bool)
    ensures
        r == spec_prompt_seen(buf@),
{
    let n = buf.len();
    if n < 5 {
        return false;
    }
    upper_byte_exec(buf[n - 5]) == 67 && upper_byte_exec(buf[n - 4]) == 65 && upper_byte_exec(
        buf[n - 3],
    ) == 76 && upper_byte_exec(buf[n - 2]) == 76 && buf[n - 1] == 58
}

/// Outcome of feeding one byte to the login prompt scanner.
#[derive(Debug, Clone, Copy, PartialEq, Eq, Structural)]
pub enum PromptStep {
    /// Keep reading bytes.
    Continue,
    /// The `call:` prompt has been seen; send the callsign next.
    Found,
    /// The buffer cap was exceeded without a prompt; treat as an error.
    Overflow,
}

/// Feed one received byte to the login prompt scanner (the AWAIT-PROMPT
/// state): the byte is buffered, then the last five bytes are checked for
/// the prompt; exceeding the buffer cap without a match is an error.
pub fn prompt_step(buf: &mut Vec<u8>, byte: u8) -> (r: PromptStep)
    requires
        old(buf)@.len() <= LOGIN_BUFFER_CAP,
    ensures
        final(buf)@ == old(buf)@.push(byte),
        r == PromptStep::Found <==> spec_prompt_seen(final(buf)@),
        r == PromptStep::Overflow <==> (!spec_prompt_seen(final(buf)@) && final(buf)@.len()
            > LOGIN_BUFFER_CAP),
        r == PromptStep::Continue <==> (!spec_prompt_seen(final(buf)@) && final(buf)@.len()
            <= LOGIN_BUFFER_CAP),
{
    buf.push(byte);
    if prompt_seen(buf) {
        PromptStep::Found
    } else if buf.len() > LOGIN_BUFFER_CAP {
        PromptStep::Overflow
    } else {
        PromptStep::Continue
    }
}

/// Outcome of feeding one byte to the post-login scanner.
#[derive(Debug, Clone, Copy, PartialEq, Eq, Structural)]
pub enum ReadyStep {
    /// Keep reading bytes.
    Continue,
    /// The command prompt `>` arrived; streaming can begin.
    Ready,
    /// The buffer cap was exceeded; assume the banner omitted the prompt
    /// and begin streaming anyway.
    AssumeReady,
}

/// Feed one received byte to the post-login scanner (the AWAIT-READY
/// state): success is the command prompt byte `>`; overrunning the buffer
/// cap is treated as success, since some server variants omit the prompt.
pub fn ready_step(buf: &mut Vec<u8>, byte: u8) -> (r: ReadyStep)
    requires
        old(buf)@.len() <= LOGIN_BUFFER_CAP,
    ensures
        final(buf)@ == old(buf)@.push(byte),
        r == ReadyStep::Ready <==> byte == 62,
        r == ReadyStep::AssumeReady <==> (byte != 62 && final(buf)@.len() > LOGIN_BUFFER_CAP),
        r == ReadyStep::Continue <==> (byte != 62 && final(buf)@.len() <= LOGIN_BUFFER_CAP),
{
    buf.push(byte);
    if byte == 62 {
        ReadyStep::Ready
    } else if buf.len() > LOGIN_BUFFER_CAP {
        ReadyStep::AssumeReady
    } else {
        ReadyStep::Continue
    }
}

/// Clean a received line for delivery: strip trailing line terminators
/// and other trailing whitespace.
pub fn clean_line(line: &str) -> (r: String)
    ensures
        r@ == crate::text::trim_back(line@),
{
    let t = trim_end(line);
    String::from_str(t)
}

} // verus!
