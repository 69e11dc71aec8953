//! Connection profiles for remote sessions, and the parser for the user's
//! SSH client configuration.

pub mod session;
pub mod ssh_config;

use vstd::prelude::*;
use crate::text::string_from_chars;

verus! {

#[verifier::external_type_specification]
#[verifier::external_body]
pub struct ExIoError(std::io::Error);

/// A session backend for a terminal tab: it forwards input to the process
/// or remote session and follows the tab's size.
pub trait PtyBackend: Send {
    fn write(&mut self, data: &[u8]) -> std::io::Result<()>;

    fn resize(&mut self, cols: u16, rows: u16) -> std::io::Result<()>;
}

/// A saved SSH connection.
#[derive(Clone, Debug)]
pub struct SshProfile {
    pub name: String,
    pub host: String,
    pub port: u16,
    pub user: String,
    /// "password" or "key".
    pub auth: String,
    /// Password when `auth` is "password".
    pub password: Option<String>,
    /// Private key path when `auth` is "key".
    pub key_path: Option<String>,
}

/// How a session authenticates.
#[derive(Clone, Debug)]
pub enum SshAuth {
    Password(String),
    Key(String),
}

/// A profile as plain character sequences.
pub struct ProfileModel {
    pub name: Seq<char>,
    pub host: Seq<char>,
    pub port: u16,
    pub user: Seq<char>,
    pub auth: Seq<char>,
    pub password: Option<Seq<char>>,
    pub key_path: Option<Seq<char>>,
}

pub open spec fn opt_text(o: Option<String>) -> Option<Seq<char>> {
    match o {
        Some(s) => Some(s@),
        None => None,
    }
}

impl View for SshProfile {
    type V = ProfileModel;

    open spec fn view(&self) -> ProfileModel {
        ProfileModel {
            name: self.name@,
            host: self.host@,
            port: self.port,
            user: self.user@,
            auth: self.auth@,
            password: opt_text(self.password),
            key_path: opt_text(self.key_path),
        }
    }
}

/// The port used when a profile names none.
pub fn default_port() -> (p: u16)
    ensures
        p == 22,
{
    22
}

/// The word "key".
pub open spec fn key_word() -> Seq<char> {
    seq!['k', 'e', 'y']
}

/// The authentication used when a profile names none: "key".
pub fn default_auth() -> (s: String)
    ensures
        s@ == key_word(),
{
    let k: [char; 3] = ['k', 'e', 'y'];
    assert(k@ =~= key_word());
    string_from_chars(&k)
}

} // verus!
