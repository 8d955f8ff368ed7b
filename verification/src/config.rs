//! The parts of the configuration that the rules read.
use vstd::prelude::*;
use vstd::string::*;

verus! {

/// How a connection to a mail server is encrypted.
#[derive(Clone, Copy, Debug, PartialEq, Eq, Structural)]
pub enum AppConfigSmtpEncryption {
    StartTls,
    Tls,
    /// Not at all.
    Plain,
}

/// Where mail goes out through.
#[derive(Debug)]
pub struct AppConfigSmtp {
    pub host: String,
    pub port: u16,
    pub from: String,
    /// Empty for a relay that authenticates nobody.
    pub username: String,
    pub password: String,
    pub encryption: AppConfigSmtpEncryption,
    /// The most bytes of one stream that a message quotes.
    pub max_output_bytes: usize,
}

impl Clone for AppConfigSmtp {
    fn clone(&self) -> (copy: Self)
        ensures
            copy == *self,
    {
        AppConfigSmtp {
            host: self.host.clone(),
            port: self.port,
            from: self.from.clone(),
            username: self.username.clone(),
            password: self.password.clone(),
            encryption: self.encryption,
            max_output_bytes: self.max_output_bytes,
        }
    }
}

/// Which Slack workspace is posted in.
#[derive(Debug)]
pub struct AppConfigSlack {
    pub token: String,
    pub api_url: String,
    pub timeout_seconds: u64,
    /// The most bytes of one stream that a post quotes.
    pub max_output_bytes: usize,
}

impl Clone for AppConfigSlack {
    fn clone(&self) -> (copy: Self)
        ensures
            copy == *self,
    {
        AppConfigSlack {
            token: self.token.clone(),
            api_url: self.api_url.clone(),
            timeout_seconds: self.timeout_seconds,
            max_output_bytes: self.max_output_bytes,
        }
    }
}

/// Which palette pages are shown in.
#[derive(Clone, Copy, Debug, PartialEq, Eq, Structural)]
pub enum AppConfigTheme {
    /// Whichever the viewer's system asks for.
    Auto,
    Dark,
    Light,
}

impl AppConfigTheme {
    /// The word for a theme, in the configuration and on a page.
    pub open spec fn called(self) -> Seq<char> {
        match self {
            AppConfigTheme::Auto => "auto"@,
            AppConfigTheme::Dark => "dark"@,
            AppConfigTheme::Light => "light"@,
        }
    }

    /// The attribute by which a page asks for a theme.
    pub fn as_attribute(self) -> (text: &'static str)
        ensures
            text@ == self.called(),
    {
        match self {
            AppConfigTheme::Auto => "auto",
            AppConfigTheme::Dark => "dark",
            AppConfigTheme::Light => "light",
        }
    }
}

/// How pages are shown.
#[derive(Clone, Copy, Debug)]
pub struct AppConfigUi {
    /// Rows per page.
    pub page_size: u32,
    /// The most rows per page that a query may ask for.
    pub max_page_size: u32,
    pub refresh_interval_seconds: u32,
    pub theme: AppConfigTheme,
}

/// How the background services run.
#[derive(Clone, Copy, Debug)]
pub struct AppConfigOrchestrator {
    /// How often a service looks for work itself.
    pub poll_interval_seconds: u64,
    /// The pause before a service that failed starts over.
    pub error_backoff_seconds: u64,
    /// How long the output of a finished attempt may take to end.
    pub reader_eof_timeout_seconds: u64,
    /// The most bytes of one stream of one attempt that are recorded.
    pub max_stream_bytes: usize,
    /// The most bytes that one read takes out of a running command's pipe.
    pub read_buffer_bytes: usize,
    /// The most attempts that run at once; 0 for no limit.
    pub max_running_attempts: u32,
}

/// How many finished runs are kept across every job, and how many one pass deletes.
#[derive(Clone, Copy, Debug)]
pub struct AppConfigRetention {
    /// 0 for no ceiling.
    pub keep_runs_total: u32,
    /// 0 for no cap.
    pub max_deletes_per_pass: u32,
}

/// The configuration. A channel that is not configured is off.
#[derive(Debug)]
pub struct AppConfig {
    pub smtp: Option<AppConfigSmtp>,
    pub slack: Option<AppConfigSlack>,
    pub orchestrator: AppConfigOrchestrator,
    pub ui: AppConfigUi,
    pub retention: AppConfigRetention,
}

} // verus!
