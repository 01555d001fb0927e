//! Decisions of the persistent WebSocket connection: the gateway URL,
//! the application-message protocol, the ping/pong liveness check, and
//! the classification of connection errors for the retry policy.
use crate::backoff::{AsBackoffKind, BackoffKind};
use vstd::prelude::*;

verus! {

/// The bounds of the random ping cadence.
pub const DEFAULT_MIN_PING_INTERVAL_MS: u64 = 15_000;

pub const DEFAULT_MAX_PING_INTERVAL_MS: u64 = 25_000;

/// How long a sent ping may go unanswered before the connection is
/// abandoned.
pub const DEFAULT_PONG_TIMEOUT_MS: u64 = 10_000;

/// An application message on the gateway channel.
pub struct ChannelMessage {
    pub action: String,
    pub channel_name: String,
    pub data: Option<MessageData>,
}

/// The payload of an `install` message.
pub struct MessageData {
    pub install_code: String,
    pub mod_file_id: String,
}

/// What a received application message calls for.
pub enum WsDecision {
    Announce { channel_name: String },
    StartInstall { code: String, channel_name: String },
    Nothing,
}

/// Decides how to answer one application message: channel greetings are
/// answered with an announcement, an `install` message with data starts
/// a remote install, and everything else — partings, `install` without
/// data, unknown actions — is ignored.
pub fn handle_message(msg: &ChannelMessage) -> (r: WsDecision)
    ensures
        (msg.action@ == "web-connected"@ || msg.action@ == "hello"@) ==> (
        r matches WsDecision::Announce { channel_name } && channel_name@ == msg.channel_name@),
        (msg.action@ == "install"@ && msg.data is Some) ==> (
        r matches WsDecision::StartInstall { code, channel_name } && code@
            == msg.data->Some_0.install_code@ && channel_name@ == msg.channel_name@),
        (msg.action@ == "install"@ && msg.data is None) ==> r is Nothing,
        !(msg.action@ == "web-connected"@ || msg.action@ == "hello"@ || msg.action@
            == "install"@) ==> r is Nothing,
{
    proof {
        reveal_strlit("web-connected");
        reveal_strlit("hello");
        reveal_strlit("install");
        assert("install"@.len() == 7);
        assert("web-connected"@.len() == 13);
        assert("hello"@.len() == 5);
        assert("install"@ != "web-connected"@);
        assert("install"@ != "hello"@);
    }
    if crate::paths::str_eq(msg.action.as_str(), "web-connected") || crate::paths::str_eq(
        msg.action.as_str(),
        "hello",
    ) {
        WsDecision::Announce { channel_name: msg.channel_name.clone() }
    } else if crate::paths::str_eq(msg.action.as_str(), "install") {
        match &msg.data {
            None => WsDecision::Nothing,
            Some(data) => WsDecision::StartInstall {
                code: data.install_code.clone(),
                channel_name: msg.channel_name.clone(),
            },
        }
    } else {
        WsDecision::Nothing
    }
}

/// The announcement sent in reply to a channel greeting.
pub fn announce_message(channel_name: String) -> (r: ChannelMessage)
    ensures
        r.action@ == "announce"@,
        r.channel_name@ == channel_name@,
        r.data is None,
{
    ChannelMessage { action: String::from_str("announce"), channel_name, data: None }
}

/// The message sent after an install request completed: only a
/// successful install is acknowledged, with `install-complete`; a
/// failure is logged and nothing is sent.
pub fn install_result_message(channel_name: &str, ok: bool) -> (r: Option<ChannelMessage>)
    ensures
        ok ==> (r matches Some(m) && m.action@ == "install-complete"@ && m.channel_name@
            == channel_name@ && m.data is None),
        !ok ==> r is None,
{
    if ok {
        Some(
            ChannelMessage {
                action: String::from_str("install-complete"),
                channel_name: channel_name.to_owned(),
                data: None,
            },
        )
    } else {
        None
    }
}

/// The liveness check alternates between waiting to send the next ping
/// and waiting for its pong.
#[derive(Clone, Copy, Debug, PartialEq, Eq, Structural)]
pub enum Check {
    Ping,
    Pong,
}

/// What the connection loop must do when the armed timer fires.
#[derive(Clone, Copy, Debug, PartialEq, Eq, Structural)]
pub enum PingAction {
    SendPing,
    Reconnect,
}

/// The ping/pong state of one connection.
pub struct PingState {
    pub state: Check,
}

impl PingState {
    /// A fresh connection starts by scheduling a ping.
    pub fn new() -> (r: Self)
        ensures
            r.state == Check::Ping,
    {
        PingState { state: Check::Ping }
    }

    /// The armed timer fired: in the ping phase a ping goes out and the
    /// pong timeout is armed; in the pong phase the peer stayed silent
    /// too long and the connection is abandoned for a reconnect.
    pub fn on_timer(&mut self) -> (r: PingAction)
        ensures
            old(self).state == Check::Ping ==> (r == PingAction::SendPing && final(self).state
                == Check::Pong),
            old(self).state == Check::Pong ==> (r == PingAction::Reconnect && final(self).state
                == old(self).state),
    {
        match self.state {
            Check::Ping => {
                self.state = Check::Pong;
                PingAction::SendPing
            },
            Check::Pong => PingAction::Reconnect,
        }
    }

    /// Any pong counts: the check disarms and the next ping is
    /// scheduled.
    pub fn on_pong(&mut self)
        ensures
            final(self).state == Check::Ping,
    {
        self.state = Check::Ping;
    }
}

/// The gateway's scheme for a service root's scheme: plain HTTP maps
/// onto plain WebSocket, TLS stays TLS, WebSocket schemes pass through,
/// and anything else is refused.
pub open spec fn ws_scheme_spec(scheme: Seq<char>) -> Option<Seq<char>> {
    if scheme == "http"@ || scheme == "ws"@ {
        Some("ws"@)
    } else if scheme == "https"@ || scheme == "wss"@ {
        Some("wss"@)
    } else {
        None
    }
}

/// Maps a service root's scheme onto the gateway's WebSocket scheme.
pub fn ws_scheme(scheme: &str) -> (r: Option<String>)
    ensures
        match r {
            Some(s) => ws_scheme_spec(scheme@) == Some(s@),
            None => ws_scheme_spec(scheme@) is None,
        },
{
    if crate::paths::str_eq(scheme, "http") || crate::paths::str_eq(scheme, "ws") {
        Some(String::from_str("ws"))
    } else if crate::paths::str_eq(scheme, "https") || crate::paths::str_eq(scheme, "wss") {
        Some(String::from_str("wss"))
    } else {
        None
    }
}

/// The gateway path under a service root's path: the fixed segment
/// `ws/gateway/ml/`, joined with exactly one slash.
pub open spec fn ws_path_spec(base_path: Seq<char>) -> Seq<char> {
    if base_path.len() > 0 && base_path.last() == '/' {
        base_path + "ws/gateway/ml/"@
    } else {
        base_path + "/ws/gateway/ml/"@
    }
}

/// Appends the gateway segment to a service root's path.
pub fn ws_path(base_path: &str) -> (r: String)
    ensures
        r@ == ws_path_spec(base_path@),
{
    let n = base_path.unicode_len();
    let mut out = base_path.to_owned();
    if n > 0 && base_path.get_char(n - 1) == '/' {
        out.append("ws/gateway/ml/");
    } else {
        out.append("/ws/gateway/ml/");
    }
    out
}

/// One connection attempt's failure, reduced to what the retry policy
/// needs: where it arose and, for an HTTP rejection of the handshake,
/// the status code.
pub enum ConnectionError {
    Http,
    Json,
    WsHttpStatus(u16),
    WsIo,
    WsOther,
}

impl AsBackoffKind for ConnectionError {
    /// How one connection failure bears on retrying: rate limiting and
    /// gateway hiccups (429, 503, 504) and plain I/O failures are
    /// transient; a malformed request, a JSON failure, or any other
    /// rejection — 403 in particular — is permanent.
    fn as_backoff_kind(&self) -> (r: BackoffKind)
        ensures
            r == connection_backoff_kind(*self),
    {
        match self {
            ConnectionError::Http => BackoffKind::Permanent,
            ConnectionError::Json => BackoffKind::Permanent,
            ConnectionError::WsHttpStatus(status) => {
                if *status == 429 || *status == 503 || *status == 504 {
                    BackoffKind::Transient
                } else {
                    BackoffKind::Permanent
                }
            },
            ConnectionError::WsIo => BackoffKind::Transient,
            ConnectionError::WsOther => BackoffKind::Permanent,
        }
    }
}

/// The backoff kind each connection error calls for.
pub open spec fn connection_backoff_kind(e: ConnectionError) -> BackoffKind {
    match e {
        ConnectionError::Http => BackoffKind::Permanent,
        ConnectionError::Json => BackoffKind::Permanent,
        ConnectionError::WsHttpStatus(status) => if status == 429 || status == 503 || status
            == 504 {
            BackoffKind::Transient
        } else {
            BackoffKind::Permanent
        },
        ConnectionError::WsIo => BackoffKind::Transient,
        ConnectionError::WsOther => BackoffKind::Permanent,
    }
}

/// Whether a handshake rejection is the one that points at a bad token:
/// 403 Forbidden is reported specially so the user can fix their
/// configuration.
pub fn is_likely_bad_token(e: &ConnectionError) -> (r: bool)
    ensures
        r <==> *e == ConnectionError::WsHttpStatus(403),
{
    match e {
        ConnectionError::WsHttpStatus(status) => *status == 403,
        _ => false,
    }
}

} // verus!
