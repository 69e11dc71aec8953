//! The decisions of a remote shell session: what to announce, how to
//! authenticate, and what each event of the running session leads to.

use vstd::prelude::*;
use vstd::string::StringSliceAdditionalSpecFns;
use crate::pty::SshProfile;
use crate::terminal::handler::{decimal, push_decimal};
use crate::text::{chars_of, string_from_chars, chars_eq};

verus! {

fn append_bytes(v: &mut Vec<u8>, s: &[u8])
    ensures
        final(v)@ == old(v)@ + s@,
{
    let mut i: usize = 0;
    while i < s.len()
        invariant
            i <= s@.len(),
            v@ == old(v)@ + s@.take(i as int),
        decreases s@.len() - i,
    {
        v.push(s[i]);
        i = i + 1;
        assert(v@ =~= old(v)@ + s@.take(i as int));
    }
    assert(s@.take(s@.len() as int) =~= s@);
}

pub open spec fn connecting_to() -> Seq<u8> {
    seq![0x43u8, 0x6Fu8, 0x6Eu8, 0x6Eu8, 0x65u8, 0x63u8, 0x74u8, 0x69u8, 0x6Eu8, 0x67u8, 0x20u8, 0x74u8, 0x6Fu8, 0x20u8]
}

/// `CR LF Connecting to <user>@<host>:<port>... CR LF`, the user and host
/// in UTF-8.
pub open spec fn spec_connect_banner(user: Seq<u8>, host: Seq<u8>, port: u16) -> Seq<u8> {
    seq![0x0Du8, 0x0Au8] + connecting_to() + user + seq![0x40u8] + host + seq![0x3Au8]
        + decimal(port as nat) + seq![0x2Eu8, 0x2Eu8, 0x2Eu8, 0x0Du8, 0x0Au8]
}

/// The line shown while connecting to `profile`.
pub fn connect_banner(profile: &SshProfile) -> (v: Vec<u8>)
    ensures
        v@ == spec_connect_banner(vstd::utf8::encode_utf8(profile.user@), vstd::utf8::encode_utf8(profile.host@), profile.port),
{
    let conn: [u8; 14] = [0x43, 0x6F, 0x6E, 0x6E, 0x65, 0x63, 0x74, 0x69, 0x6E, 0x67, 0x20, 0x74, 0x6F, 0x20];
    assert(conn@ =~= connecting_to());
    let mut v: Vec<u8> = Vec::new();
    v.push(0x0D);
    v.push(0x0A);
    append_bytes(&mut v, &conn);
    append_bytes(&mut v, profile.user.as_str().as_bytes());
    v.push(0x40);
    append_bytes(&mut v, profile.host.as_str().as_bytes());
    v.push(0x3A);
    push_decimal(&mut v, profile.port as usize);
    v.push(0x2E);
    v.push(0x2E);
    v.push(0x2E);
    v.push(0x0D);
    v.push(0x0A);
    assert(v@ =~= spec_connect_banner(vstd::utf8::encode_utf8(profile.user@), vstd::utf8::encode_utf8(profile.host@), profile.port));
    v
}

/// How a session authenticates.
pub enum AuthPlan {
    Password { user: String, password: String },
    Key { user: String, key_path: String },
}

pub enum AuthModel {
    Password(Seq<char>, Seq<char>),
    Key(Seq<char>, Seq<char>),
}

impl View for AuthPlan {
    type V = AuthModel;

    open spec fn view(&self) -> AuthModel {
        match self {
            AuthPlan::Password { user, password } => AuthModel::Password(user@, password@),
            AuthPlan::Key { user, key_path } => AuthModel::Key(user@, key_path@),
        }
    }
}

pub open spec fn word_password() -> Seq<char> {
    seq!['p', 'a', 's', 's', 'w', 'o', 'r', 'd']
}

pub open spec fn key_path_required() -> Seq<char> {
    seq!['k', 'e', 'y', '_', 'p', 'a', 't', 'h', ' ', 'r', 'e', 'q', 'u', 'i', 'r', 'e', 'd']
}

/// Password authentication when the profile says "password" (an absent
/// password counts as empty), key authentication otherwise, which needs a
/// key path.
pub open spec fn spec_auth_plan(auth: Seq<char>, user: Seq<char>, password: Option<Seq<char>>, key_path: Option<Seq<char>>) -> Result<AuthModel, Seq<char>> {
    if auth == word_password() {
        Ok(AuthModel::Password(user, match password { Some(p) => p, None => Seq::empty() }))
    } else {
        match key_path {
            Some(k) => Ok(AuthModel::Key(user, k)),
            None => Err(key_path_required()),
        }
    }
}

/// How to authenticate with `profile`.
pub fn auth_plan(profile: &SshProfile) -> (r: Result<AuthPlan, String>)
    ensures
        match spec_auth_plan(profile.auth@, profile.user@, crate::pty::opt_text(profile.password), crate::pty::opt_text(profile.key_path)) {
            Ok(m) => r matches Ok(p) && p@ == m,
            Err(e) => r matches Err(s) && s@ == e,
        },
{
    let pw: [char; 8] = ['p', 'a', 's', 's', 'w', 'o', 'r', 'd'];
    assert(pw@ =~= word_password());
    let auth = chars_of(profile.auth.as_str());
    if chars_eq(auth.as_slice(), &pw) {
        let password = match &profile.password {
            Some(p) => p.clone(),
            None => string_from_chars(&[]),
        };
        proof {
            let e: [char; 0] = [];
            assert(e@ =~= Seq::<char>::empty());
        }
        Ok(AuthPlan::Password { user: profile.user.clone(), password })
    } else {
        match &profile.key_path {
            Some(k) => Ok(AuthPlan::Key { user: profile.user.clone(), key_path: k.clone() }),
            None => {
                let msg: [char; 17] = ['k', 'e', 'y', '_', 'p', 'a', 't', 'h', ' ', 'r', 'e', 'q', 'u', 'i', 'r', 'e', 'd'];
                assert(msg@ =~= key_path_required());
                Err(string_from_chars(&msg))
            },
        }
    }
}

/// What happens in a running session: output from the server's channel,
/// or a command from the tab.
pub enum SessionEvent {
    ChannelData(Vec<u8>),
    ChannelExtendedData(Vec<u8>),
    ChannelEof,
    ChannelClose,
    /// The channel has nothing more to give.
    ChannelGone,
    /// Any other channel message.
    ChannelOther,
    Write(Vec<u8>),
    Resize(u16, u16),
    CloseRequest,
    /// The tab dropped its command sender.
    CommandsGone,
}

/// What the session does about an event.
pub enum SessionStep {
    /// Hand server output to the tab.
    Forward(Vec<u8>),
    /// Send input to the server.
    SendData(Vec<u8>),
    /// Tell the server the new size (columns, rows).
    WindowChange(u32, u32),
    /// End the session.
    Stop,
    /// Nothing to do.
    Continue,
}

/// Output of both kinds goes to the tab, input to the server, a resize
/// becomes a window change; end of file, close and either side going
/// away end the session; anything else is ignored.
pub fn session_step(ev: SessionEvent) -> (s: SessionStep)
    ensures
        match (ev, s) {
            (SessionEvent::ChannelData(d), SessionStep::Forward(f)) => f@ == d@,
            (SessionEvent::ChannelExtendedData(d), SessionStep::Forward(f)) => f@ == d@,
            (SessionEvent::Write(d), SessionStep::SendData(f)) => f@ == d@,
            (SessionEvent::Resize(c, r), SessionStep::WindowChange(c2, r2)) => c2 == c && r2 == r,
            (SessionEvent::ChannelEof, SessionStep::Stop) => true,
            (SessionEvent::ChannelClose, SessionStep::Stop) => true,
            (SessionEvent::ChannelGone, SessionStep::Stop) => true,
            (SessionEvent::CloseRequest, SessionStep::Stop) => true,
            (SessionEvent::CommandsGone, SessionStep::Stop) => true,
            (SessionEvent::ChannelOther, SessionStep::Continue) => true,
            _ => false,
        },
{
    match ev {
        SessionEvent::ChannelData(d) => SessionStep::Forward(d),
        SessionEvent::ChannelExtendedData(d) => SessionStep::Forward(d),
        SessionEvent::ChannelEof => SessionStep::Stop,
        SessionEvent::ChannelClose => SessionStep::Stop,
        SessionEvent::ChannelGone => SessionStep::Stop,
        SessionEvent::ChannelOther => SessionStep::Continue,
        SessionEvent::Write(d) => SessionStep::SendData(d),
        SessionEvent::Resize(c, r) => SessionStep::WindowChange(c as u32, r as u32),
        SessionEvent::CloseRequest => SessionStep::Stop,
        SessionEvent::CommandsGone => SessionStep::Stop,
    }
}

/// A profile whose authentication is "password" logs in with its
/// password (empty when it has none); any other uses its key file, and
/// without one there is no plan but the error "key_path required".
pub proof fn lemma_auth_plan(auth: Seq<char>, user: Seq<char>, password: Option<Seq<char>>, key_path: Option<Seq<char>>)
    ensures
        auth == seq!['p', 'a', 's', 's', 'w', 'o', 'r', 'd'] ==> spec_auth_plan(auth, user, password, key_path)
            == Ok::<AuthModel, Seq<char>>(AuthModel::Password(user, if password is Some { password->Some_0 } else { Seq::empty() })),
        auth != seq!['p', 'a', 's', 's', 'w', 'o', 'r', 'd'] && key_path is Some ==> spec_auth_plan(auth, user, password, key_path)
            == Ok::<AuthModel, Seq<char>>(AuthModel::Key(user, key_path->Some_0)),
        auth != seq!['p', 'a', 's', 's', 'w', 'o', 'r', 'd'] && key_path is None ==> spec_auth_plan(auth, user, password, key_path)
            == Err::<AuthModel, Seq<char>>(seq!['k', 'e', 'y', '_', 'p', 'a', 't', 'h', ' ', 'r', 'e', 'q', 'u', 'i', 'r', 'e', 'd']),
{
    assert(word_password() =~= seq!['p', 'a', 's', 's', 'w', 'o', 'r', 'd']);
}

/// The connecting banner is CR LF, "Connecting to ", the user, `@`, the
/// host, `:`, the port in decimal, "..." and CR LF.
pub proof fn lemma_connect_banner(user: Seq<u8>, host: Seq<u8>, port: u16)
    ensures
        spec_connect_banner(user, host, port) == seq![0x0Du8, 0x0Au8]
            + seq![0x43u8, 0x6Fu8, 0x6Eu8, 0x6Eu8, 0x65u8, 0x63u8, 0x74u8, 0x69u8, 0x6Eu8, 0x67u8, 0x20u8, 0x74u8, 0x6Fu8, 0x20u8]
            + user + seq![0x40u8] + host + seq![0x3Au8] + decimal(port as nat) + seq![0x2Eu8, 0x2Eu8, 0x2Eu8, 0x0Du8, 0x0Au8],
{
}

} // verus!
