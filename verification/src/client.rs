//! A client for the notification service's HTTP API: the request it sends and the errors
//! it reports. Sending itself is network I/O and happens outside this library.

use vstd::prelude::*;
use vstd::string::*;
use crate::agent::TimedAgent;
use crate::text::{decimal, push_decimal};

verus! {

/// Default host the service's HTTP server binds to.
pub const DEFAULT_HOST: &'static str = "127.0.0.1";

/// Default port the service's HTTP server listens on.
pub const DEFAULT_PORT: u16 = 5667u16;

/// Seconds allowed to connect to the service.
pub const CONNECT_TIMEOUT_SECS: u64 = 2u64;

/// Seconds allowed to read the service's reply.
pub const READ_TIMEOUT_SECS: u64 = 3u64;

/// Seconds allowed to write the request.
pub const WRITE_TIMEOUT_SECS: u64 = 3u64;

/// A notification request: title and message, and the module that sends it, if given.
#[derive(Debug, Clone)]
pub struct NotificationRequest {
    pub title: String,
    pub message: String,
    pub sender: Option<String>,
}

/// Why a notification could not be delivered.
#[derive(Debug)]
pub enum NotifyError {
    /// The request never reached the service; a human-readable description.
    Transport(String),
    /// The service received the request but answered with this non-2xx status.
    Rejected(u16),
}

/// The description of an error.
pub open spec fn describe_error(e: NotifyError) -> Seq<char> {
    match e {
        NotifyError::Transport(msg) => "could not reach aw-notify: "@ + msg@,
        NotifyError::Rejected(code) => "aw-notify rejected the notification (HTTP "@ + decimal(code as nat) + ")"@,
    }
}

impl NotifyError {
    /// A human-readable description of the error.
    pub fn describe(&self) -> (s: String)
        ensures
            s@ == describe_error(*self),
    {
        match self {
            NotifyError::Transport(msg) => {
                let mut s = String::from_str("could not reach aw-notify: ");
                s.append(msg.as_str());
                s
            },
            NotifyError::Rejected(code) => {
                let mut s = String::from_str("aw-notify rejected the notification (HTTP ");
                push_decimal(&mut s, *code as u64);
                s.append(")");
                s
            },
        }
    }
}

/// The base URL of a service at `host` and `port`.
pub open spec fn base_url_of(host: Seq<char>, port: u16) -> Seq<char> {
    "http://"@ + host + ":"@ + decimal(port as nat)
}

/// A client of one notification service, with the sender it reports.
pub struct NotificationClient {
    base_url: String,
    sender: Option<String>,
    agent: TimedAgent,
}

impl NotificationClient {
    /// The client's base URL.
    pub closed spec fn base_url_view(&self) -> Seq<char> {
        self.base_url@
    }

    /// The HTTP agent the client holds.
    pub closed spec fn agent_view(&self) -> ureq::Agent {
        self.agent.agent_view()
    }

    /// The connect, read and write timeouts, in seconds, that the client's agent was built
    /// with.
    pub closed spec fn timeouts_view(&self) -> (u64, u64, u64) {
        self.agent.timeouts_view()
    }

    /// The sender the client reports.
    pub closed spec fn sender_view(&self) -> Option<Seq<char>> {
        match self.sender {
            Some(s) => Some(s@),
            None => None,
        }
    }

    /// A client of the service at the default address (127.0.0.1:5667), without a sender.
    pub fn new() -> (c: NotificationClient)
        ensures
            c.base_url_view() == base_url_of(DEFAULT_HOST@, DEFAULT_PORT),
            c.sender_view() is None,
            c.timeouts_view() == (CONNECT_TIMEOUT_SECS, READ_TIMEOUT_SECS, WRITE_TIMEOUT_SECS),
    {
        NotificationClient::with_addr(DEFAULT_HOST, DEFAULT_PORT)
    }

    /// A client of the service at `host` and `port`, without a sender; its agent is built
    /// with a 2 s connect timeout and 3 s read and write timeouts.
    pub fn with_addr(host: &str, port: u16) -> (c: NotificationClient)
        ensures
            c.base_url_view() == base_url_of(host@, port),
            c.sender_view() is None,
            c.timeouts_view() == (CONNECT_TIMEOUT_SECS, READ_TIMEOUT_SECS, WRITE_TIMEOUT_SECS),
    {
        let agent = TimedAgent::build(CONNECT_TIMEOUT_SECS, READ_TIMEOUT_SECS, WRITE_TIMEOUT_SECS);
        let mut base_url = String::from_str("http://");
        base_url.append(host);
        base_url.append(":");
        push_decimal(&mut base_url, port as u64);
        NotificationClient { base_url, sender: None, agent }
    }

    /// The client that a one-shot send uses: the default address, with `sender` where one
    /// is given.
    pub fn for_sender(sender: Option<&str>) -> (c: NotificationClient)
        ensures
            c.base_url_view() == base_url_of(DEFAULT_HOST@, DEFAULT_PORT),
            c.sender_view() == match sender {
                Some(s) => Some(s@),
                None => None,
            },
            c.timeouts_view() == (CONNECT_TIMEOUT_SECS, READ_TIMEOUT_SECS, WRITE_TIMEOUT_SECS),
    {
        let client = NotificationClient::new();
        match sender {
            Some(s) => client.with_sender(s),
            None => client,
        }
    }

    /// The same client, reporting `sender` with every notification.
    pub fn with_sender(self, sender: &str) -> (c: NotificationClient)
        ensures
            c.base_url_view() == self.base_url_view(),
            c.sender_view() == Some(sender@),
            c.agent_view() == self.agent_view(),
            c.timeouts_view() == self.timeouts_view(),
    {
        NotificationClient {
            base_url: self.base_url,
            sender: Some(String::from_str(sender)),
            agent: self.agent,
        }
    }

    /// The connect, read and write timeouts, in seconds, that the client's agent was built
    /// with.
    pub fn timeouts(&self) -> (t: (u64, u64, u64))
        ensures
            t == self.timeouts_view(),
    {
        self.agent.timeouts()
    }

    /// The client's base URL.
    pub fn base_url(&self) -> (s: &String)
        ensures
            s@ == self.base_url_view(),
    {
        &self.base_url
    }

    /// The URL notifications are posted to.
    pub fn notify_url(&self) -> (s: String)
        ensures
            s@ == self.base_url_view() + "/notify"@,
    {
        let mut s = self.base_url.clone();
        s.append("/notify");
        s
    }

    /// The request that notifies `title` and `message` from this client.
    pub fn request(&self, title: &str, message: &str) -> (r: NotificationRequest)
        ensures
            r.title@ == title@,
            r.message@ == message@,
            match r.sender {
                Some(s) => self.sender_view() == Some(s@),
                None => self.sender_view() is None,
            },
    {
        let sender = match &self.sender {
            Some(s) => Some(s.clone()),
            None => None,
        };
        NotificationRequest { title: String::from_str(title), message: String::from_str(message), sender }
    }

    /// The HTTP agent the client sends with: the one it holds.
    pub fn agent(&self) -> (a: &ureq::Agent)
        ensures
            *a == self.agent_view(),
    {
        self.agent.agent()
    }
}

impl Default for NotificationClient {
    /// The client of the service at the default address.
    fn default() -> (c: NotificationClient)
        ensures
            c.base_url_view() == base_url_of(DEFAULT_HOST@, DEFAULT_PORT),
            c.sender_view() is None,
            c.timeouts_view() == (CONNECT_TIMEOUT_SECS, READ_TIMEOUT_SECS, WRITE_TIMEOUT_SECS),
    {
        NotificationClient::new()
    }
}

} // verus!
