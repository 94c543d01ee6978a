//! The client handle and its configuration.
use vstd::prelude::*;
use std::time::Duration;
use crate::event::owned;
use crate::request::MessageBuilder;
use crate::retry::{duration_from_secs, duration_nanos};

verus! {

/// ureq's connection agent, carried through this crate opaquely.
#[verifier::external_type_specification]
#[verifier::external_body]
pub struct ExAgent(ureq::Agent);

/// Builds the pooled connection agent with
/// `ureq::Agent::config_builder().http_status_as_error(false).build()`, so
/// that non-2xx responses come back as responses whose JSON error body can
/// be read. Trusted; nothing is claimed of the agent.
#[verifier::external_body]
fn new_agent() -> ureq::Agent {
    ureq::Agent::config_builder().http_status_as_error(false).build().into()
}

/// `ureq::Agent::clone`: another handle on the same connection pool.
/// Trusted: the agent is a derived `Clone` of shared (`Arc`) handles, so the
/// copy is taken to be the same agent, as vstd takes an `Arc`'s clone to be.
#[verifier::external_body]
fn clone_agent(agent: &ureq::Agent) -> (r: ureq::Agent)
    ensures
        r == *agent,
{
    agent.clone()
}

/// The API's address unless overridden.
pub open spec fn default_base_url() -> Seq<char> {
    "https://api.anthropic.com"@
}

/// The `anthropic-version` sent unless overridden.
pub open spec fn default_version() -> Seq<char> {
    "2023-06-01"@
}

/// A handle to the Anthropic API.
///
/// Cheap to clone where you need to share it; holds a pooled connection agent
/// so repeated calls reuse TLS connections.
pub struct Anthropic {
    agent: ureq::Agent,
    api_key: String,
    base_url: String,
    version: String,
    timeout: Duration,
    connect_timeout: Duration,
    max_retries: u32,
}

/// The model of a client's configuration.
pub struct AnthropicV {
    pub api_key: Seq<char>,
    pub base_url: Seq<char>,
    pub version: Seq<char>,
    pub timeout: Duration,
    pub connect_timeout: Duration,
    pub max_retries: u32,
}

impl View for Anthropic {
    type V = AnthropicV;

    closed spec fn view(&self) -> AnthropicV {
        AnthropicV {
            api_key: self.api_key@,
            base_url: self.base_url@,
            version: self.version@,
            timeout: self.timeout,
            connect_timeout: self.connect_timeout,
            max_retries: self.max_retries,
        }
    }
}

impl Clone for Anthropic {
    /// Another handle with the same configuration, sharing the connection
    /// pool.
    fn clone(&self) -> (r: Self)
        ensures
            r@ == self@,
            r.pool() == self.pool(),
    {
        Anthropic {
            agent: clone_agent(&self.agent),
            api_key: self.api_key.clone(),
            base_url: self.base_url.clone(),
            version: self.version.clone(),
            timeout: self.timeout,
            connect_timeout: self.connect_timeout,
            max_retries: self.max_retries,
        }
    }
}

/// The deadlines one request is sent with; `None` leaves a deadline unset.
pub struct RequestTimeouts {
    /// The bound on connecting.
    pub connect: Duration,
    /// The bound on the whole call.
    pub global: Option<Duration>,
    /// The bound on the wait for the response to begin.
    pub recv_response: Option<Duration>,
}

impl Anthropic {
    /// Create a client with the given API key and sensible defaults: the
    /// public API address, version `2023-06-01`, a 600 s response deadline, a
    /// 10 s connect deadline, and 2 retries.
    pub fn new(api_key: String) -> (r: Self)
        ensures
            r@.api_key == api_key@,
            r@.base_url == default_base_url(),
            r@.version == default_version(),
            duration_nanos(r@.timeout) == 600_000_000_000,
            duration_nanos(r@.connect_timeout) == 10_000_000_000,
            r@.max_retries == 2,
    {
        Anthropic {
            agent: new_agent(),
            api_key,
            base_url: owned("https://api.anthropic.com"),
            version: owned("2023-06-01"),
            timeout: duration_from_secs(600),
            connect_timeout: duration_from_secs(10),
            max_retries: 2,
        }
    }

    /// Override the base URL (e.g. to point at a proxy or gateway).
    pub fn base_url(self, url: String) -> (r: Self)
        ensures
            r@ == (AnthropicV { base_url: url@, ..self@ }),
    {
        Anthropic { base_url: url, ..self }
    }

    /// Override the `anthropic-version` header.
    pub fn version(self, version: String) -> (r: Self)
        ensures
            r@ == (AnthropicV { version: version@, ..self@ }),
    {
        Anthropic { version, ..self }
    }

    /// The deadline for a response: the whole call when not streaming, the
    /// time to the first response bytes when streaming.
    pub fn timeout(self, timeout: Duration) -> (r: Self)
        ensures
            r@ == (AnthropicV { timeout, ..self@ }),
    {
        Anthropic { timeout, ..self }
    }

    /// The deadline for opening the connection.
    pub fn connect_timeout(self, connect_timeout: Duration) -> (r: Self)
        ensures
            r@ == (AnthropicV { connect_timeout, ..self@ }),
    {
        Anthropic { connect_timeout, ..self }
    }

    /// How many times a failed request is tried again.
    pub fn max_retries(self, max_retries: u32) -> (r: Self)
        ensures
            r@ == (AnthropicV { max_retries, ..self@ }),
    {
        Anthropic { max_retries, ..self }
    }

    /// Start building a message request against the given model.
    pub fn message(&self, model: String) -> (r: MessageBuilder<'_>)
        ensures
            r.client() == self,
            r@ == crate::request::fresh_builder(model@),
    {
        MessageBuilder::new(self, model)
    }

    /// The connection agent this client holds.
    pub closed spec fn pool(&self) -> ureq::Agent {
        self.agent
    }

    /// The connection agent requests go through: the one this client holds.
    pub fn agent(&self) -> (r: &ureq::Agent)
        ensures
            *r == self.pool(),
    {
        &self.agent
    }

    /// The configured response deadline.
    pub fn response_timeout(&self) -> (r: Duration)
        ensures
            r == self@.timeout,
    {
        self.timeout
    }

    /// The configured connect deadline.
    pub fn connection_timeout(&self) -> (r: Duration)
        ensures
            r == self@.connect_timeout,
    {
        self.connect_timeout
    }

    /// The deadlines for one request. Every request bounds its connect
    /// time. A non-streaming reply arrives in one piece, so the response
    /// deadline bounds the whole call; a stream can legitimately run for
    /// minutes, so there it bounds only the wait for the response to begin.
    pub fn request_timeouts(&self, streaming: bool) -> (r: RequestTimeouts)
        ensures
            r.connect == self@.connect_timeout,
            streaming ==> r.global is None && r.recv_response == Some(self@.timeout),
            !streaming ==> r.global == Some(self@.timeout) && r.recv_response is None,
    {
        if streaming {
            RequestTimeouts { connect: self.connect_timeout, global: None, recv_response: Some(self.timeout) }
        } else {
            RequestTimeouts { connect: self.connect_timeout, global: Some(self.timeout), recv_response: None }
        }
    }

    /// The configured number of retries.
    pub fn retry_limit(&self) -> (r: u32)
        ensures
            r == self@.max_retries,
    {
        self.max_retries
    }

    /// The API key requests are sent with.
    pub fn api_key(&self) -> (r: &str)
        ensures
            r@ == self@.api_key,
    {
        self.api_key.as_str()
    }

    /// The address requests are sent to.
    pub fn address(&self) -> (r: &str)
        ensures
            r@ == self@.base_url,
    {
        self.base_url.as_str()
    }

    /// The `anthropic-version` requests are sent with.
    pub fn api_version(&self) -> (r: &str)
        ensures
            r@ == self@.version,
    {
        self.version.as_str()
    }
}

} // verus!
