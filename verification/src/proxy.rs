//! The proxy protocol spoken over each substream: method negotiation,
//! username/password authentication, and the per-flow CONNECT exchange.
//!
//! The client side builds and checks the exact messages; the gateway side
//! is a byte-fed state machine that performs the one-time negotiation and
//! authentication, and small functions that parse the CONNECT request of
//! each later substream. All reading and writing stays with the caller.

use vstd::prelude::*;

use crate::codec::slice_range;
use crate::engine::FlowKey;
use crate::packet::{be16n, be32n, u16be, u32be, SockAddr};

verus! {

/// Why an exchange with the gateway failed, as the client sees it.
#[derive(Clone, Copy, Debug, PartialEq, Eq, Structural)]
pub enum UpstreamError {
    /// A reply did not carry the expected protocol version byte.
    BadVersion,
    /// The gateway does not offer username/password authentication.
    AuthUnsupported,
    /// The reply to the credentials did not carry the auth version byte.
    BadAuthVersion,
    /// The gateway rejected the credentials.
    AuthFailed,
    /// The gateway rejected the CONNECT with this status byte.
    ConnectRejected(u8),
}

/// Why the gateway refused a substream.
#[derive(Clone, Copy, Debug, PartialEq, Eq, Structural)]
pub enum GatewayError {
    /// The request did not carry version 5 and the CONNECT command.
    OnlyConnectSupported,
    /// The destination address type is not IPv4.
    AddrTypeUnsupported,
}

/// The username the minimum configuration authenticates with.
pub open spec fn username_bytes() -> Seq<u8> {
    seq![116u8, 101u8, 115u8, 116u8, 117u8, 115u8, 101u8, 114u8]
}

/// The password the minimum configuration authenticates with.
pub open spec fn password_bytes() -> Seq<u8> {
    seq![116u8, 101u8, 115u8, 116u8, 112u8, 97u8, 115u8, 115u8]
}

/// The configured username as bytes.
pub fn default_username() -> (r: Vec<u8>)
    ensures
        r@ == username_bytes(),
{
    let mut v: Vec<u8> = Vec::new();
    v.push(116);
    v.push(101);
    v.push(115);
    v.push(116);
    v.push(117);
    v.push(115);
    v.push(101);
    v.push(114);
    proof {
        assert(v@ =~= username_bytes());
    }
    v
}

/// The configured password as bytes.
pub fn default_password() -> (r: Vec<u8>)
    ensures
        r@ == password_bytes(),
{
    let mut v: Vec<u8> = Vec::new();
    v.push(116);
    v.push(101);
    v.push(115);
    v.push(116);
    v.push(112);
    v.push(97);
    v.push(115);
    v.push(115);
    proof {
        assert(v@ =~= password_bytes());
    }
    v
}

/// Whether two byte strings hold the same bytes.
pub fn bytes_eq(a: &[u8], b: &[u8]) -> (r: bool)
    ensures
        r == (a@ == b@),
{
    if a.len() != b.len() {
        proof {
            assert(a@ != b@);
        }
        return false;
    }
    let mut i: usize = 0;
    while i < a.len()
        invariant
            i <= a@.len(),
            a@.len() == b@.len(),
            forall|j: int| 0 <= j < i ==> a@[j] == b@[j],
        decreases a@.len() - i,
    {
        if a[i] != b[i] {
            proof {
                assert(a@ != b@);
            }
            return false;
        }
        i = i + 1;
    }
    proof {
        assert(a@ =~= b@);
    }
    true
}

/// Whether a byte string contains a byte.
pub fn contains_byte(s: &[u8], b: u8) -> (r: bool)
    ensures
        r == s@.contains(b),
{
    let mut i: usize = 0;
    while i < s.len()
        invariant
            i <= s@.len(),
            forall|j: int| 0 <= j < i ==> s@[j] != b,
        decreases s@.len() - i,
    {
        if s[i] == b {
            return true;
        }
        i = i + 1;
    }
    false
}

/// The method-negotiation request the client opens with: version 5, one
/// method, username/password.
pub fn method_request() -> (r: Vec<u8>)
    ensures
        r@ == seq![5u8, 1u8, 2u8],
{
    let mut v: Vec<u8> = Vec::new();
    v.push(5);
    v.push(1);
    v.push(2);
    proof {
        assert(v@ =~= seq![5u8, 1u8, 2u8]);
    }
    v
}

/// Checks the gateway's two-byte method reply: version 5 and the
/// username/password method, or the matching error.
pub fn check_method_reply(buf: &[u8]) -> (r: Result<(), UpstreamError>)
    requires
        buf@.len() == 2,
    ensures
        r is Ok <==> buf@[0] == 5 && buf@[1] == 2,
        buf@[0] != 5 ==> r == Err::<(), UpstreamError>(UpstreamError::BadVersion),
        buf@[0] == 5 && buf@[1] != 2 ==> r == Err::<(), UpstreamError>(
            UpstreamError::AuthUnsupported,
        ),
{
    if buf[0] != 5 {
        Err(UpstreamError::BadVersion)
    } else if buf[1] != 2 {
        Err(UpstreamError::AuthUnsupported)
    } else {
        Ok(())
    }
}

/// The credentials message: auth version 1, then the length-prefixed
/// username and password.
pub fn auth_request(user: &[u8], pass: &[u8]) -> (r: Vec<u8>)
    requires
        user@.len() <= 255,
        pass@.len() <= 255,
    ensures
        r@ == seq![1u8, user@.len() as u8] + user@ + seq![pass@.len() as u8] + pass@,
{
    let mut v: Vec<u8> = Vec::new();
    v.push(1);
    v.push(user.len() as u8);
    crate::packet::push_bytes(&mut v, user);
    v.push(pass.len() as u8);
    crate::packet::push_bytes(&mut v, pass);
    proof {
        assert(v@ =~= seq![1u8, user@.len() as u8] + user@ + seq![pass@.len() as u8] + pass@);
    }
    v
}

/// Checks the gateway's two-byte credentials reply: auth version 1 and
/// status 0, or the matching error.
pub fn check_auth_reply(buf: &[u8]) -> (r: Result<(), UpstreamError>)
    requires
        buf@.len() == 2,
    ensures
        r is Ok <==> buf@[0] == 1 && buf@[1] == 0,
        buf@[0] != 1 ==> r == Err::<(), UpstreamError>(UpstreamError::BadAuthVersion),
        buf@[0] == 1 && buf@[1] != 0 ==> r == Err::<(), UpstreamError>(UpstreamError::AuthFailed),
{
    if buf[0] != 1 {
        Err(UpstreamError::BadAuthVersion)
    } else if buf[1] != 0 {
        Err(UpstreamError::AuthFailed)
    } else {
        Ok(())
    }
}

/// The per-flow CONNECT request: version 5, command CONNECT, reserved,
/// address type IPv4, then the destination address and port.
pub fn connect_request(key: &FlowKey) -> (r: Vec<u8>)
    ensures
        r@ == seq![5u8, 1u8, 0u8, 1u8] + be32n(key.remote_ip) + be16n(key.remote_port as int),
        r@.len() == 10,
{
    let mut v: Vec<u8> = Vec::new();
    v.push(5);
    v.push(1);
    v.push(0);
    v.push(1);
    v.push((key.remote_ip / 0x1000000) as u8);
    v.push(((key.remote_ip / 0x10000) % 256) as u8);
    v.push(((key.remote_ip / 256) % 256) as u8);
    v.push((key.remote_ip % 256) as u8);
    v.push((key.remote_port / 256) as u8);
    v.push((key.remote_port % 256) as u8);
    proof {
        assert(v@ =~= seq![5u8, 1u8, 0u8, 1u8] + be32n(key.remote_ip) + be16n(
            key.remote_port as int,
        ));
    }
    v
}

/// Checks the gateway's ten-byte CONNECT reply: version 5 and status 0,
/// or the status the gateway rejected with.
pub fn check_connect_reply(buf: &[u8]) -> (r: Result<(), UpstreamError>)
    requires
        buf@.len() == 10,
    ensures
        r is Ok <==> buf@[0] == 5 && buf@[1] == 0,
        buf@[0] != 5 ==> r == Err::<(), UpstreamError>(UpstreamError::BadVersion),
        buf@[0] == 5 && buf@[1] != 0 ==> r == Err::<(), UpstreamError>(
            UpstreamError::ConnectRejected(buf@[1]),
        ),
{
    if buf[0] != 5 {
        Err(UpstreamError::BadVersion)
    } else if buf[1] != 0 {
        Err(UpstreamError::ConnectRejected(buf[1]))
    } else {
        Ok(())
    }
}

/// Checks the first four bytes of a CONNECT request the gateway reads:
/// version 5, command CONNECT, address type IPv4.
pub fn check_connect_header(req: &[u8]) -> (r: Result<(), GatewayError>)
    requires
        req@.len() == 4,
    ensures
        r is Ok <==> req@[0] == 5 && req@[1] == 1 && req@[3] == 1,
        !(req@[0] == 5 && req@[1] == 1) ==> r == Err::<(), GatewayError>(
            GatewayError::OnlyConnectSupported,
        ),
        req@[0] == 5 && req@[1] == 1 && req@[3] != 1 ==> r == Err::<(), GatewayError>(
            GatewayError::AddrTypeUnsupported,
        ),
{
    if req[0] != 5 || req[1] != 1 {
        Err(GatewayError::OnlyConnectSupported)
    } else if req[3] != 1 {
        Err(GatewayError::AddrTypeUnsupported)
    } else {
        Ok(())
    }
}

/// Parses the six address bytes of an IPv4 CONNECT request: four address
/// bytes, then the big-endian port.
pub fn parse_connect_addr(buf: &[u8]) -> (r: SockAddr)
    requires
        buf@.len() == 6,
    ensures
        r.ip == u32be(buf@, 0),
        r.port == u16be(buf@, 4),
{
    let ip = (buf[0] as u32) * 0x1000000 + (buf[1] as u32) * 0x10000 + (buf[2] as u32) * 256 + (
    buf[3] as u32);
    let port = (buf[4] as u16) * 256 + (buf[5] as u16);
    SockAddr { ip, port }
}

/// The gateway's reply to an accepted CONNECT: status 0 and a zero bound
/// address.
pub fn connect_success_reply() -> (r: Vec<u8>)
    ensures
        r@ == seq![5u8, 0u8, 0u8, 1u8, 0u8, 0u8, 0u8, 0u8, 0u8, 0u8],
{
    let mut v: Vec<u8> = Vec::new();
    v.push(5);
    v.push(0);
    v.push(0);
    v.push(1);
    v.push(0);
    v.push(0);
    v.push(0);
    v.push(0);
    v.push(0);
    v.push(0);
    proof {
        assert(v@ =~= seq![5u8, 0u8, 0u8, 1u8, 0u8, 0u8, 0u8, 0u8, 0u8, 0u8]);
    }
    v
}

/// Where the gateway's negotiation-and-authentication exchange stands:
/// each state says what it is waiting for.
#[derive(Clone, Copy, Debug, PartialEq, Eq, Structural)]
pub enum AuthState {
    /// The two-byte negotiation header: version and method count.
    Header,
    /// The `n` advertised method bytes.
    Methods { n: u8 },
    /// The credentials version byte.
    AuthVersion,
    /// The username length byte.
    UserLen,
    /// The `n` username bytes.
    User { n: u8 },
    /// The password length byte.
    PassLen,
    /// The `n` password bytes.
    Pass { n: u8 },
    /// The client is authenticated.
    Accepted,
    /// The exchange failed; the transport is to be closed.
    Rejected,
}

/// What the gateway should do after feeding bytes to the exchange.
pub enum AuthEvent {
    /// Read the next `needed` bytes.
    Continue,
    /// Send these bytes, then read on.
    Reply(Vec<u8>),
    /// Send these bytes: the client is now authenticated.
    Accept(Vec<u8>),
    /// Send these bytes, then close the transport.
    Reject(Vec<u8>),
    /// Close the transport without an answer.
    Fail,
}

/// The model of an `AuthEvent`.
pub ghost enum AuthEventModel {
    Continue,
    Reply(Seq<u8>),
    Accept(Seq<u8>),
    Reject(Seq<u8>),
    Fail,
}

impl View for AuthEvent {
    type V = AuthEventModel;

    open spec fn view(&self) -> AuthEventModel {
        match self {
            AuthEvent::Continue => AuthEventModel::Continue,
            AuthEvent::Reply(v) => AuthEventModel::Reply(v@),
            AuthEvent::Accept(v) => AuthEventModel::Accept(v@),
            AuthEvent::Reject(v) => AuthEventModel::Reject(v@),
            AuthEvent::Fail => AuthEventModel::Fail,
        }
    }
}

/// How many bytes the exchange is waiting for in a state.
pub open spec fn needed_spec(st: AuthState) -> int {
    match st {
        AuthState::Header => 2,
        AuthState::Methods { n } => n as int,
        AuthState::AuthVersion => 1,
        AuthState::UserLen => 1,
        AuthState::User { n } => n as int,
        AuthState::PassLen => 1,
        AuthState::Pass { n } => n as int,
        AuthState::Accepted => 0,
        AuthState::Rejected => 0,
    }
}

/// The transition relation of the gateway exchange, fed exactly the bytes
/// the pre-state waits for.
///
/// The header's method count decides how many method bytes follow; the
/// username/password method must be among them or the client is turned
/// away with `05 FF`; the credentials version must be 1; the username and
/// password are length-prefixed; only the configured pair is accepted,
/// answered with `01 00`, and anything else is refused with `01 01`.
pub open spec fn auth_transition(
    pre: AuthState,
    pre_user: Seq<u8>,
    input: Seq<u8>,
    post: AuthState,
    post_user: Seq<u8>,
    ev: AuthEventModel,
) -> bool {
    match pre {
        AuthState::Header => post == (AuthState::Methods { n: input[1] }) && post_user == pre_user
            && ev == AuthEventModel::Continue,
        AuthState::Methods { n } => if input.contains(2u8) {
            post == AuthState::AuthVersion && post_user == pre_user && ev
                == AuthEventModel::Reply(seq![5u8, 2u8])
        } else {
            post == AuthState::Rejected && post_user == pre_user && ev
                == AuthEventModel::Reject(seq![5u8, 255u8])
        },
        AuthState::AuthVersion => if input[0] == 1 {
            post == AuthState::UserLen && post_user == pre_user && ev == AuthEventModel::Continue
        } else {
            post == AuthState::Rejected && post_user == pre_user && ev == AuthEventModel::Fail
        },
        AuthState::UserLen => post == (AuthState::User { n: input[0] }) && post_user == pre_user
            && ev == AuthEventModel::Continue,
        AuthState::User { n } => post == AuthState::PassLen && post_user == input && ev
            == AuthEventModel::Continue,
        AuthState::PassLen => post == (AuthState::Pass { n: input[0] }) && post_user == pre_user
            && ev == AuthEventModel::Continue,
        AuthState::Pass { n } => if pre_user == username_bytes() && input == password_bytes() {
            post == AuthState::Accepted && post_user == pre_user && ev
                == AuthEventModel::Accept(seq![1u8, 0u8])
        } else {
            post == AuthState::Rejected && post_user == pre_user && ev
                == AuthEventModel::Reject(seq![1u8, 1u8])
        },
        AuthState::Accepted => false,
        AuthState::Rejected => false,
    }
}

/// The gateway's negotiation-and-authentication exchange for one
/// transport connection: the caller reads exactly `needed()` bytes and
/// feeds them to `advance` until the exchange accepts or rejects.
pub struct GatewayAuth {
    state: AuthState,
    user: Vec<u8>,
}

impl GatewayAuth {
    /// The state the exchange is in.
    pub closed spec fn state_spec(&self) -> AuthState {
        self.state
    }

    /// The username collected so far.
    pub closed spec fn user_spec(&self) -> Seq<u8> {
        self.user@
    }

    pub fn new() -> (r: Self)
        ensures
            r.state_spec() == AuthState::Header,
            r.user_spec() == Seq::<u8>::empty(),
    {
        GatewayAuth { state: AuthState::Header, user: Vec::new() }
    }

    /// The exchange's current state.
    pub fn state(&self) -> (r: AuthState)
        ensures
            r == self.state_spec(),
    {
        self.state
    }

    /// How many bytes to read and feed next.
    pub fn needed(&self) -> (r: usize)
        ensures
            r == needed_spec(self.state_spec()),
    {
        match self.state {
            AuthState::Header => 2,
            AuthState::Methods { n } => n as usize,
            AuthState::AuthVersion => 1,
            AuthState::UserLen => 1,
            AuthState::User { n } => n as usize,
            AuthState::PassLen => 1,
            AuthState::Pass { n } => n as usize,
            AuthState::Accepted => 0,
            AuthState::Rejected => 0,
        }
    }

    /// Feeds the bytes the current state waits for and takes one step of
    /// the exchange.
    pub fn advance(&mut self, input: &[u8]) -> (ev: AuthEvent)
        requires
            old(self).state_spec() != AuthState::Accepted,
            old(self).state_spec() != AuthState::Rejected,
            input@.len() == needed_spec(old(self).state_spec()),
        ensures
            auth_transition(
                old(self).state_spec(),
                old(self).user_spec(),
                input@,
                final(self).state_spec(),
                final(self).user_spec(),
                ev@,
            ),
    {
        match self.state {
            AuthState::Header => {
                self.state = AuthState::Methods { n: input[1] };
                AuthEvent::Continue
            },
            AuthState::Methods { n } => {
                if contains_byte(input, 2) {
                    self.state = AuthState::AuthVersion;
                    let mut v: Vec<u8> = Vec::new();
                    v.push(5);
                    v.push(2);
                    proof {
                        assert(v@ =~= seq![5u8, 2u8]);
                    }
                    AuthEvent::Reply(v)
                } else {
                    self.state = AuthState::Rejected;
                    let mut v: Vec<u8> = Vec::new();
                    v.push(5);
                    v.push(255);
                    proof {
                        assert(v@ =~= seq![5u8, 255u8]);
                    }
                    AuthEvent::Reject(v)
                }
            },
            AuthState::AuthVersion => {
                if input[0] == 1 {
                    self.state = AuthState::UserLen;
                    AuthEvent::Continue
                } else {
                    self.state = AuthState::Rejected;
                    AuthEvent::Fail
                }
            },
            AuthState::UserLen => {
                self.state = AuthState::User { n: input[0] };
                AuthEvent::Continue
            },
            AuthState::User { n } => {
                self.user = slice_range(input, 0, input.len());
                proof {
                    assert(self.user@ =~= input@);
                }
                self.state = AuthState::PassLen;
                AuthEvent::Continue
            },
            AuthState::PassLen => {
                self.state = AuthState::Pass { n: input[0] };
                AuthEvent::Continue
            },
            AuthState::Pass { n } => {
                let expected_user = default_username();
                let expected_pass = default_password();
                if bytes_eq(self.user.as_slice(), expected_user.as_slice()) && bytes_eq(
                    input,
                    expected_pass.as_slice(),
                ) {
                    self.state = AuthState::Accepted;
                    let mut v: Vec<u8> = Vec::new();
                    v.push(1);
                    v.push(0);
                    proof {
                        assert(v@ =~= seq![1u8, 0u8]);
                    }
                    AuthEvent::Accept(v)
                } else {
                    self.state = AuthState::Rejected;
                    let mut v: Vec<u8> = Vec::new();
                    v.push(1);
                    v.push(1);
                    proof {
                        assert(v@ =~= seq![1u8, 1u8]);
                    }
                    AuthEvent::Reject(v)
                }
            },
            AuthState::Accepted => {
                proof {
                    assert(false);
                }
                AuthEvent::Fail
            },
            AuthState::Rejected => {
                proof {
                    assert(false);
                }
                AuthEvent::Fail
            },
        }
    }
}

} // verus!
