//! The settings of the front end, read from optional texts.
use crate::decimal::{parse_counter, read_counter};
use vstd::prelude::*;
use vstd::string::*;

verus! {

/// The port that `text` reads as: a number of at most sixteen bits.
pub open spec fn parse_port(text: Seq<char>) -> Option<u16> {
    match parse_counter(text) {
        Some(n) => if n <= u16::MAX {
            Some(n as u16)
        } else {
            None
        },
        None => None,
    }
}

/// `value`, or `default` where there is none.
pub open spec fn or_default(value: Option<Seq<char>>, default: Seq<char>) -> Seq<char> {
    match value {
        Some(text) => text,
        None => default,
    }
}

/// The settings, as plain values.
pub ghost struct ConfigView {
    pub port: u16,
    pub worker_namespace: Seq<char>,
    pub worker_selector: Seq<char>,
    pub log_level: Seq<char>,
}

/// The settings of the front end.
#[derive(Debug, Clone)]
pub struct Config {
    pub port: u16,
    pub worker_namespace: String,
    pub worker_selector: String,
    pub log_level: String,
}

impl View for Config {
    type V = ConfigView;

    open spec fn view(&self) -> ConfigView {
        ConfigView {
            port: self.port,
            worker_namespace: self.worker_namespace@,
            worker_selector: self.worker_selector@,
            log_level: self.log_level@,
        }
    }
}

/// Why settings could not be read.
#[derive(Debug, PartialEq, Eq)]
pub enum ConfigError {
    /// The text given for the port is no port.
    InvalidPort(String),
}

/// The settings that the four optional texts give: each absent one stands
/// for its default, and the port must read as a port.
pub open spec fn settings(
    port: Option<Seq<char>>,
    worker_namespace: Option<Seq<char>>,
    worker_selector: Option<Seq<char>>,
    log_level: Option<Seq<char>>,
) -> Result<ConfigView, Seq<char>> {
    let port_text = or_default(port, "8080"@);
    match parse_port(port_text) {
        Some(port) => Ok(
            ConfigView {
                port,
                worker_namespace: or_default(worker_namespace, "face-it-workers"@),
                worker_selector: or_default(
                    worker_selector,
                    "app=face-recognition-worker,status=ready"@,
                ),
                log_level: or_default(log_level, "info"@),
            },
        ),
        None => Err(port_text),
    }
}

/// Decides [`parse_port`].
pub fn read_port(text: &str) -> (port: Option<u16>)
    ensures
        port == parse_port(text@),
{
    match read_counter(text) {
        Some(n) => if n <= 65535 {
            Some(n as u16)
        } else {
            None
        },
        None => None,
    }
}

/// `value`, or `default` where there is none.
fn text_or(value: Option<String>, default: &str) -> (text: String)
    ensures
        text@ == or_default(value.deep_view(), default@),
{
    match value {
        Some(text) => text,
        None => String::from_str(default),
    }
}

impl Config {
    /// The settings that the four optional texts give.
    pub fn from_values(
        port: Option<String>,
        worker_namespace: Option<String>,
        worker_selector: Option<String>,
        log_level: Option<String>,
    ) -> (config: Result<Config, ConfigError>)
        ensures
            match settings(
                port.deep_view(),
                worker_namespace.deep_view(),
                worker_selector.deep_view(),
                log_level.deep_view(),
            ) {
                Ok(view) => config is Ok && config->Ok_0@ == view,
                Err(text) => config matches Err(ConfigError::InvalidPort(t)) && t@ == text,
            },
    {
        let port_text = text_or(port, "8080");
        let port = match read_port(port_text.as_str()) {
            Some(port) => port,
            None => {
                return Err(ConfigError::InvalidPort(port_text));
            },
        };
        Ok(
            Config {
                port,
                worker_namespace: text_or(worker_namespace, "face-it-workers"),
                worker_selector: text_or(
                    worker_selector,
                    "app=face-recognition-worker,status=ready",
                ),
                log_level: text_or(log_level, "info"),
            },
        )
    }
}

impl ConfigError {
    /// The sentence that reports the failure.
    pub fn message(&self) -> (text: String)
        ensures
            match self {
                ConfigError::InvalidPort(port) => text@ == "invalid port: "@ + port@,
            },
    {
        match self {
            ConfigError::InvalidPort(port) => {
                let mut text = String::from_str("invalid port: ");
                text.append(port.as_str());
                text
            },
        }
    }
}

} // verus!
