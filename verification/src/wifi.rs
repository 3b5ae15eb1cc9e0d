//! Joining the Wi-Fi network and telling where the stream can be heard.

use vstd::arithmetic::power2::{lemma2_to64, lemma_pow2_strictly_increases, pow2};
use vstd::bits::lemma_u64_shl_is_mul;
use vstd::prelude::*;
use vstd::utf8::encode_utf8;

use crate::text::{all_digits, decimal, decimal_value, law_decimal_is_faithful, push_decimal};
use crate::upgrade::WS_PATH;

verus! {

/// Address that the websocket server listens on.
pub const WS_LISTEN_ADDR: &'static str = "0.0.0.0";

/// Port that the websocket server listens on.
pub const WS_PORT: u16 = 80;

/// Port that a `ws://` address means when it names none.
pub const DEFAULT_WS_PORT: u16 = 80;

/// Longest network name, in bytes.
pub const MAX_SSID_BYTES: usize = 32;

/// Longest password, in bytes.
pub const MAX_PASSWORD_BYTES: usize = 64;

/// Milliseconds to wait after the first attempt to join failed.
pub const BACKOFF_BASE_MS: u64 = 1000;

/// How often the wait is doubled at most.
pub const BACKOFF_MAX_DOUBLINGS: u32 = 6;

/// Milliseconds between looks at the address while there is none.
pub const ADDRESS_POLL_MS: u64 = 800;

/// How a network is joined.
#[derive(Debug, Clone, Copy, PartialEq, Eq, Structural)]
pub enum AuthMethod {
    /// The network is open.
    Open,
    /// The network asks for a password.
    Wpa2Personal,
}

/// Which of the credentials is too long.
#[derive(Debug, Clone, Copy, PartialEq, Eq, Structural)]
pub enum CredentialError {
    Ssid,
    Password,
}

/// Credentials that are short enough.
pub struct Credentials {
    pub ssid: String,
    pub password: String,
}

/// How to join a network as a client. The access point and the channel are left open.
pub struct ClientConfig {
    pub credentials: Credentials,
    pub auth_method: AuthMethod,
}

/// Copies a string into a `heapless::String` with room for `N` bytes and back: the same
/// string, or nothing when it has more than `N` bytes.
#[verifier::external_body]
fn fit_string<const N: usize>(s: &str) -> (r: Option<String>)
    ensures
        r is Some <==> encode_utf8(s@).len() <= N,
        r matches Some(t) ==> t@ == s@,
{
    let fitted: Result<heapless::String<N>, ()> = heapless::String::try_from(s);
    fitted.ok().map(|h| h.as_str().to_string())
}

/// What is wrong with credentials, the name first.
pub open spec fn credential_error(ssid: Seq<char>, password: Seq<char>) -> Option<CredentialError> {
    if encode_utf8(ssid).len() > MAX_SSID_BYTES {
        Some(CredentialError::Ssid)
    } else if encode_utf8(password).len() > MAX_PASSWORD_BYTES {
        Some(CredentialError::Password)
    } else {
        None
    }
}

/// Checks that a network's name and password are short enough.
pub fn check_credentials(ssid: &str, password: &str) -> (r: Result<Credentials, CredentialError>)
    ensures
        match r {
            Ok(c) => {
                &&& credential_error(ssid@, password@) is None
                &&& c.ssid@ == ssid@
                &&& c.password@ == password@
            },
            Err(e) => credential_error(ssid@, password@) == Some(e),
        },
{
    match fit_string::<MAX_SSID_BYTES>(ssid) {
        None => Err(CredentialError::Ssid),
        Some(ssid) => {
            match fit_string::<MAX_PASSWORD_BYTES>(password) {
                None => Err(CredentialError::Password),
                Some(password) => Ok(Credentials { ssid, password }),
            }
        },
    }
}

/// How a network with this password is joined.
pub open spec fn auth_for(password: Seq<char>) -> AuthMethod {
    if password.len() == 0 {
        AuthMethod::Open
    } else {
        AuthMethod::Wpa2Personal
    }
}

/// How to join the network with these credentials: without a password it is open.
pub fn connect_wifi(ssid: &str, password: &str) -> (r: Result<ClientConfig, CredentialError>)
    ensures
        match r {
            Ok(c) => {
                &&& credential_error(ssid@, password@) is None
                &&& c.credentials.ssid@ == ssid@
                &&& c.credentials.password@ == password@
                &&& c.auth_method == (if password@.len() == 0 {
                    AuthMethod::Open
                } else {
                    AuthMethod::Wpa2Personal
                })
            },
            Err(e) => credential_error(ssid@, password@) == Some(e),
        },
        r matches Ok(c) ==> c.auth_method == auth_for(password@),
{
    let auth_method: AuthMethod = if password.is_empty() {
        AuthMethod::Open
    } else {
        AuthMethod::Wpa2Personal
    };
    match check_credentials(ssid, password) {
        Ok(credentials) => Ok(ClientConfig { credentials, auth_method }),
        Err(e) => Err(e),
    }
}

/// How often the wait is doubled after attempt number `attempt` failed.
pub open spec fn doublings(attempt: u32) -> nat {
    if attempt <= 1 {
        0
    } else if attempt - 1 < BACKOFF_MAX_DOUBLINGS {
        (attempt - 1) as nat
    } else {
        BACKOFF_MAX_DOUBLINGS as nat
    }
}

/// Milliseconds to wait after attempt number `attempt` failed.
pub open spec fn backoff(attempt: u32) -> int {
    BACKOFF_BASE_MS * pow2(doublings(attempt))
}

/// Milliseconds to wait after attempt number `attempt` failed: a second, doubled with
/// each further attempt up to 64 seconds.
pub fn backoff_ms(attempt: u32) -> (ms: u64)
    ensures
        ms == backoff(attempt),
{
    let past: u32 = if attempt == 0 {
        0
    } else {
        attempt - 1
    };
    let exp: u32 = if past < BACKOFF_MAX_DOUBLINGS {
        past
    } else {
        BACKOFF_MAX_DOUBLINGS
    };
    proof {
        lemma2_to64();
        if exp < BACKOFF_MAX_DOUBLINGS {
            lemma_pow2_strictly_increases(exp as nat, BACKOFF_MAX_DOUBLINGS as nat);
        }
        lemma_u64_shl_is_mul(1, exp as u64);
    }
    BACKOFF_BASE_MS * (1u64 << exp as u64)
}

/// What to do after an attempt to join.
#[derive(Debug, Clone, Copy, PartialEq, Eq, Structural)]
pub enum JoinAction {
    /// The network is joined, with that attempt.
    Joined { attempt: u32 },
    /// Wait so many milliseconds after that attempt, then try again.
    Retry { attempt: u32, wait_ms: u64 },
}

/// What to do after attempt number `attempt`.
pub open spec fn action_after_attempt(joined: bool, attempt: u32) -> JoinAction {
    if joined {
        JoinAction::Joined { attempt }
    } else {
        JoinAction::Retry { attempt, wait_ms: backoff(attempt) as u64 }
    }
}

/// The attempts to join a network so far.
pub struct JoinAttempts {
    attempt: u32,
}

impl View for JoinAttempts {
    type V = u32;

    closed spec fn view(&self) -> u32 {
        self.attempt
    }
}

impl JoinAttempts {
    /// No attempt was made.
    pub fn new() -> (r: JoinAttempts)
        ensures
            r@ == 0,
    {
        JoinAttempts { attempt: 0 }
    }

    /// The number of attempts.
    pub fn count(&self) -> (n: u32)
        ensures
            n == self@,
    {
        self.attempt
    }

    /// Takes the outcome of one more attempt in. A failed one is repeated, however often.
    pub fn on_attempt(&mut self, joined: bool) -> (action: JoinAction)
        requires
            old(self)@ < u32::MAX,
        ensures
            final(self)@ == old(self)@ + 1,
            match action {
                JoinAction::Joined { attempt } => joined && attempt == final(self)@,
                JoinAction::Retry { attempt, wait_ms } => !joined && attempt == final(self)@
                    && wait_ms == backoff(attempt),
            },
            action == action_after_attempt(joined, final(self)@),
    {
        self.attempt = self.attempt + 1;
        if joined {
            JoinAction::Joined { attempt: self.attempt }
        } else {
            JoinAction::Retry { attempt: self.attempt, wait_ms: backoff_ms(self.attempt) }
        }
    }
}

/// An address of these bytes was assigned.
pub open spec fn is_assigned(octets: Seq<u8>) -> bool {
    !(octets[0] == 0 && octets[1] == 0 && octets[2] == 0 && octets[3] == 0)
}

/// Whether an address was assigned: any but 0.0.0.0.
pub fn has_address(octets: [u8; 4]) -> (r: bool)
    ensures
        r == !(octets[0] == 0 && octets[1] == 0 && octets[2] == 0 && octets[3] == 0),
        r == is_assigned(octets@),
{
    octets[0] != 0 || octets[1] != 0 || octets[2] != 0 || octets[3] != 0
}

/// Takes in a look at the address, which may have given none. Waiting for one is over
/// exactly when there is one and it was assigned.
pub fn on_address(octets: Option<[u8; 4]>) -> (done: bool)
    ensures
        done == (match octets {
            Some(o) => !(o[0] == 0 && o[1] == 0 && o[2] == 0 && o[3] == 0),
            None => false,
        }),
        done <==> octets is Some && is_assigned(octets->0@),
{
    match octets {
        Some(o) => has_address(o),
        None => false,
    }
}

/// The address of the stream on a device with address `ip`; the usual port goes unsaid.
pub open spec fn endpoint(ip: Seq<char>, port: u16) -> Seq<char> {
    if port == DEFAULT_WS_PORT {
        "ws://"@ + ip + WS_PATH@
    } else {
        "ws://"@ + ip + ":"@ + decimal(port as nat) + WS_PATH@
    }
}

/// The address of the stream on a device with address `ip`.
pub fn format_endpoint(ip: &str) -> (r: String)
    ensures
        r@ == endpoint(ip@, WS_PORT),
{
    let mut out: String = String::from_str("ws://");
    out.append(ip);
    if WS_PORT != DEFAULT_WS_PORT {
        out.append(":");
        push_decimal(&mut out, WS_PORT as u64);
    }
    out.append(WS_PATH);
    out
}

/// The line that tells a shell the device's address.
pub open spec fn address_line(ip: Seq<char>) -> Seq<char> {
    "set -gx S3_IP "@ + ip
}

/// The line that tells a shell the device's address.
pub fn format_address_line(ip: &str) -> (r: String)
    ensures
        r@ == address_line(ip@),
{
    let mut out: String = String::from_str("set -gx S3_IP ");
    out.append(ip);
    out
}

/// The address line between two rules.
pub open spec fn banner(ip: Seq<char>) -> Seq<char> {
    "\n========================================\n"@ + address_line(ip)
        + "\n========================================\n"@
}

/// The address line between two rules.
pub fn format_banner(ip: &str) -> (r: String)
    ensures
        r@ == "\n========================================\n"@ + address_line(ip@)
            + "\n========================================\n"@,
        r@ == banner(ip@),
{
    let mut out: String = String::from_str("\n========================================\n");
    out.append(format_address_line(ip).as_str());
    out.append("\n========================================\n");
    out
}

/// Whether an address is one that a home router is expected to give.
pub fn is_expected_network(ip: &str) -> (r: bool)
    ensures
        r == "192."@.is_prefix_of(ip@),
{
    proof {
        reveal_strlit("192.");
    }
    let n: usize = ip.unicode_len();
    let r: bool = n >= 4 && ip.get_char(0) == '1' && ip.get_char(1) == '9' && ip.get_char(2) == '2'
        && ip.get_char(3) == '.';
    proof {
        if r {
            assert(ip@.subrange(0, 4) =~= "192."@);
        } else if "192."@.is_prefix_of(ip@) {
            assert(ip@[0] == "192."@[0] && ip@[1] == "192."@[1] && ip@[2] == "192."@[2] && ip@[3]
                == "192."@[3]);
        }
    }
    r
}

/// The wait never shrinks, and never exceeds 64 seconds.
pub proof fn law_backoff_is_monotone_and_bounded(a: u32, b: u32)
    requires
        a <= b,
    ensures
        BACKOFF_BASE_MS <= backoff(a) <= backoff(b) <= 64_000,
{
    lemma2_to64();
    if doublings(a) < doublings(b) {
        lemma_pow2_strictly_increases(doublings(a), doublings(b));
    }
    if 0 < doublings(a) {
        lemma_pow2_strictly_increases(0, doublings(a));
    }
    if doublings(b) < BACKOFF_MAX_DOUBLINGS {
        lemma_pow2_strictly_increases(doublings(b), BACKOFF_MAX_DOUBLINGS as nat);
    }
}

/// The wait doubles from attempt to attempt until it has reached its cap, and stays
/// there.
pub proof fn law_backoff_doubles(attempt: u32)
    requires
        1 <= attempt < u32::MAX,
    ensures
        attempt <= BACKOFF_MAX_DOUBLINGS ==> backoff((attempt + 1) as u32) == 2 * backoff(attempt),
        attempt > BACKOFF_MAX_DOUBLINGS ==> backoff(attempt) == 64_000,
{
    lemma2_to64();
    if attempt <= BACKOFF_MAX_DOUBLINGS {
        vstd::arithmetic::power2::lemma_pow2_unfold(doublings((attempt + 1) as u32));
    }
}

/// Credentials are refused only for their length in bytes: a name of up to 32 and a
/// password of up to 64 are always taken, and the name is looked at first.
pub proof fn law_credentials_are_refused_only_for_their_length(ssid: Seq<char>, password: Seq<char>)
    ensures
        credential_error(ssid, password) is None <==> encode_utf8(ssid).len() <= 32 && encode_utf8(
            password,
        ).len() <= 64,
        credential_error(ssid, password) == Some(CredentialError::Ssid) <==> encode_utf8(ssid).len()
            > 32,
        credential_error(ssid, password) == Some(CredentialError::Password) <==> encode_utf8(
            ssid,
        ).len() <= 32 && encode_utf8(password).len() > 64,
{
}

/// The first wait is a second.
pub proof fn law_backoff_begins_with_a_second()
    ensures
        backoff(0) == 1000,
        backoff(1) == 1000,
{
    lemma2_to64();
}

/// The address of the stream names the device and the path; the port only where it is not
/// the one that goes without saying.
pub proof fn law_endpoint_names_device_and_path(ip: Seq<char>, port: u16)
    ensures
        endpoint(ip, WS_PORT) == "ws://"@ + ip + "/audio"@,
        port != 80 ==> exists|digits: Seq<char>|
            {
                &&& #[trigger] all_digits(digits)
                &&& decimal_value(digits) == port
                &&& endpoint(ip, port) == "ws://"@ + ip + ":"@ + digits + "/audio"@
            },
{
    law_decimal_is_faithful(port as nat);
    assert(all_digits(decimal(port as nat)));
}

/// The line for the shell ends with the whole address, behind the command that sets it.
pub proof fn law_address_line_ends_with_the_address(ip: Seq<char>)
    ensures
        address_line(ip) == "set -gx S3_IP "@ + ip,
        address_line(ip).len() == 14 + ip.len(),
{
    reveal_strlit("set -gx S3_IP ");
}

/// A network is taken to be open exactly when there is no password.
pub proof fn law_a_password_is_always_used(password: Seq<char>)
    ensures
        auth_for(password) == AuthMethod::Open <==> password.len() == 0,
        auth_for(password) == AuthMethod::Wpa2Personal <==> password.len() > 0,
{
}

/// A failed attempt is always repeated, after a second at least and 64 at most; a good one
/// never.
pub proof fn law_joining_goes_on_until_it_succeeds(attempt: u32)
    ensures
        action_after_attempt(true, attempt) == (JoinAction::Joined { attempt }),
        action_after_attempt(false, attempt) matches JoinAction::Retry { attempt: a, wait_ms } && a
            == attempt && wait_ms == backoff(attempt) && 1000 <= wait_ms <= 64_000,
{
    law_backoff_is_monotone_and_bounded(attempt, attempt);
}

/// Every address but that of four zeros counts as assigned.
pub proof fn law_only_four_zeros_are_no_address(octets: Seq<u8>)
    requires
        octets.len() == 4,
    ensures
        !is_assigned(octets) <==> octets == seq![0u8, 0, 0, 0],
{
    if !is_assigned(octets) {
        assert(octets =~= seq![0u8, 0, 0, 0]);
    }
}

/// The banner is the line for the shell with a rule of forty signs on either side.
pub proof fn law_banner_frames_the_address_line(ip: Seq<char>)
    ensures
        banner(ip) == "\n========================================\n"@ + "set -gx S3_IP "@ + ip
            + "\n========================================\n"@,
{
    assert(banner(ip) =~= "\n========================================\n"@ + "set -gx S3_IP "@ + ip
        + "\n========================================\n"@);
}

} // verus!
