//! An HTTP agent together with the timeouts it was built with.

use vstd::prelude::*;

verus! {

#[verifier::external_type_specification]
#[verifier::external_body]
pub struct ExAgent(ureq::Agent);

/// A `ureq::Agent` and the connect, read and write timeouts, in seconds, it was built with.
/// Its fields are private, so the only way to make one is `TimedAgent::build`.
pub struct TimedAgent {
    timeouts: (u64, u64, u64),
    agent: ureq::Agent,
}

impl TimedAgent {
    /// The connect, read and write timeouts, in seconds, the agent was built with.
    pub closed spec fn timeouts_view(&self) -> (u64, u64, u64) {
        self.timeouts
    }

    /// The agent itself.
    pub closed spec fn agent_view(&self) -> ureq::Agent {
        self.agent
    }

    /// Builds a `ureq::Agent` through `ureq::AgentBuilder` with `timeout_connect`,
    /// `timeout_read` and `timeout_write` set to the given numbers of seconds, and keeps
    /// those three numbers beside it. The agent is opaque: nothing else is stated of it.
    #[verifier::external_body]
    pub(crate) fn build(connect_secs: u64, read_secs: u64, write_secs: u64) -> (a: TimedAgent)
        ensures
            a.timeouts_view() == (connect_secs, read_secs, write_secs),
    {
        let agent = ureq::AgentBuilder::new()
            .timeout_connect(std::time::Duration::from_secs(connect_secs))
            .timeout_read(std::time::Duration::from_secs(read_secs))
            .timeout_write(std::time::Duration::from_secs(write_secs))
            .build();
        TimedAgent { timeouts: (connect_secs, read_secs, write_secs), agent }
    }

    /// The connect, read and write timeouts, in seconds.
    pub fn timeouts(&self) -> (t: (u64, u64, u64))
        ensures
            t == self.timeouts_view(),
    {
        self.timeouts
    }

    /// The agent.
    pub fn agent(&self) -> (a: &ureq::Agent)
        ensures
            *a == self.agent_view(),
    {
        &self.agent
    }
}

} // verus!
