//! Telling people how a job run ended.
pub mod channel;
pub mod email;
pub mod message;
pub mod service;
pub mod slack;

use vstd::prelude::*;

verus! {

/// A way to reach somebody.
#[derive(Clone, Copy, Debug, PartialEq, Eq, Structural)]
pub enum NotificationChannel {
    Email,
    Slack,
}

impl NotificationChannel {
    /// The word for the channel.
    pub open spec fn called(self) -> Seq<char> {
        match self {
            NotificationChannel::Email => "email"@,
            NotificationChannel::Slack => "slack"@,
        }
    }

    /// The word for the channel.
    pub fn word(self) -> (text: &'static str)
        ensures
            text@ == self.called(),
    {
        match self {
            NotificationChannel::Email => "email",
            NotificationChannel::Slack => "slack",
        }
    }
}

} // verus!
