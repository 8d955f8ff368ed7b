//! The channels a server can deliver over.
use crate::config::AppConfig;
use crate::notifications::email::EmailChannel;
use crate::notifications::slack::SlackChannel;
use crate::notifications::NotificationChannel;
use vstd::prelude::*;

verus! {

/// Every channel that the configuration sets up. One it does not is absent, and a
/// notification that asks for it fails, naming what is missing.
#[derive(Debug)]
pub struct NotificationChannels {
    email: Option<EmailChannel>,
    slack: Option<SlackChannel>,
}

/// The channel a notification goes out over.
pub enum Sender<'a> {
    Email(&'a EmailChannel),
    Slack(&'a SlackChannel),
}

impl NotificationChannels {
    /// The mail channel.
    pub closed spec fn email(&self) -> Option<EmailChannel> {
        self.email
    }

    /// The Slack channel.
    pub closed spec fn slack(&self) -> Option<SlackChannel> {
        self.slack
    }

    /// The channels of a configuration.
    pub fn from_config(app_config: &AppConfig) -> (channels: Self)
        ensures
            channels.email() is Some <==> app_config.smtp is Some,
            channels.email() matches Some(email) ==> email.smtp() == app_config.smtp->0,
            channels.slack() is Some <==> app_config.slack is Some,
            channels.slack() matches Some(slack) ==> slack.slack() == app_config.slack->0,
    {
        let email = match &app_config.smtp {
            Some(smtp) => Some(EmailChannel::new(smtp.clone())),
            None => None,
        };
        let slack = match &app_config.slack {
            Some(slack) => Some(SlackChannel::new(slack.clone())),
            None => None,
        };
        NotificationChannels { email, slack }
    }

    /// Finds the channel a notification asks for, or says what is missing.
    pub fn sender(&self, channel: NotificationChannel) -> (r: Result<Sender<'_>, &'static str>)
        ensures
            match channel {
                NotificationChannel::Email => match self.email() {
                    Some(email) => r == Ok::<Sender, &str>(Sender::Email(&email)),
                    None => r matches Err(e) && e@
                        == "config.toml has no [smtp] section, so nothing can be delivered by email"@,
                },
                NotificationChannel::Slack => match self.slack() {
                    Some(slack) => r == Ok::<Sender, &str>(Sender::Slack(&slack)),
                    None => r matches Err(e) && e@
                        == "config.toml has no [slack] section, so nothing can be delivered by slack"@,
                },
            },
    {
        match channel {
            NotificationChannel::Email => match &self.email {
                Some(email) => Ok(Sender::Email(email)),
                None => Err(
                    "config.toml has no [smtp] section, so nothing can be delivered by email",
                ),
            },
            NotificationChannel::Slack => match &self.slack {
                Some(slack) => Ok(Sender::Slack(slack)),
                None => Err(
                    "config.toml has no [slack] section, so nothing can be delivered by slack",
                ),
            },
        }
    }

    /// The most bytes of one stream of one failed task that a message for a channel quotes:
    /// none where the channel is not configured.
    pub fn max_output_bytes(&self, channel: NotificationChannel) -> (n: usize)
        ensures
            n == (match channel {
                NotificationChannel::Email => match self.email() {
                    Some(email) => email.smtp().max_output_bytes,
                    None => 0,
                },
                NotificationChannel::Slack => match self.slack() {
                    Some(slack) => slack.slack().max_output_bytes,
                    None => 0,
                },
            }),
    {
        match channel {
            NotificationChannel::Email => match &self.email {
                Some(email) => email.max_output_bytes(),
                None => 0,
            },
            NotificationChannel::Slack => match &self.slack {
                Some(slack) => slack.max_output_bytes(),
                None => 0,
            },
        }
    }
}

} // verus!
