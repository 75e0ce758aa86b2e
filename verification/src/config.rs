//! Configuration data: listener settings, the ordered reflect target list,
//! and credentials.  Loading these from disk is the surrounding process's
//! business; the library only holds and reads the values.

use vstd::prelude::*;
use crate::store::AssocTable;
use crate::text::{ci_eq_seq, str_ci_eq};

verus! {

/// The service mode a configured protocol name selects.
pub enum Mode {
    Tcp,
    Udp,
    Reflect,
    Unknown,
}

/// The mode a protocol setting selects: an absent setting means `tcp`,
/// names are matched ASCII case-insensitively, and any other name is
/// unknown.
pub open spec fn mode_spec(protocol: Option<Seq<char>>) -> Mode {
    match protocol {
        None => Mode::Tcp,
        Some(p) => if ci_eq_seq(p, "tcp"@) {
            Mode::Tcp
        } else if ci_eq_seq(p, "udp"@) {
            Mode::Udp
        } else if ci_eq_seq(p, "reflect"@) {
            Mode::Reflect
        } else {
            Mode::Unknown
        },
    }
}

/// Classify the configured protocol name into a service mode.
pub fn classify_protocol(protocol: &Option<String>) -> (m: Mode)
    ensures
        m == mode_spec(
            match protocol {
                Some(p) => Some(p@),
                None => None,
            },
        ),
{
    match protocol {
        None => Mode::Tcp,
        Some(p) => {
            if str_ci_eq(p.as_str(), "tcp") {
                Mode::Tcp
            } else if str_ci_eq(p.as_str(), "udp") {
                Mode::Udp
            } else if str_ci_eq(p.as_str(), "reflect") {
                Mode::Reflect
            } else {
                Mode::Unknown
            }
        },
    }
}

/// One username/password pair.
pub struct UserCredentials {
    pub username: String,
    pub password: String,
}

/// The mathematical shape of a credential pair.
pub struct CredModel {
    pub username: Seq<char>,
    pub password: Seq<char>,
}

impl View for UserCredentials {
    type V = CredModel;

    open spec fn view(&self) -> CredModel {
        CredModel { username: self.username@, password: self.password@ }
    }
}

impl DeepView for UserCredentials {
    type V = CredModel;

    open spec fn deep_view(&self) -> CredModel {
        self@
    }
}

/// The optional mapping from a target address to the credentials the fan-out
/// controller authenticates with against that target.
pub type TargetCredentials = AssocTable<UserCredentials>;

/// Listener settings.
pub struct ServerConfig {
    pub port: u16,
    pub bind_address: String,
    pub protocol: Option<String>,
}

/// The ordered, immutable fan-out target list; fan-out visits it in this
/// order, which defines the ordering of reply segments.
pub struct ReflectConfig {
    pub targets: Vec<String>,
}

/// The server-wide credential pair and the optional per-target credentials.
pub struct UserConfig {
    pub username: String,
    pub password: String,
    pub targets: Option<TargetCredentials>,
}

/// The whole configuration.
pub struct Config {
    pub server: ServerConfig,
    pub reflect: ReflectConfig,
    pub user: UserConfig,
}

} // verus!
