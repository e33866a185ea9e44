//! Resolution of an endpoint source into the plan that starts a session.
use vstd::prelude::*;
use vstd::string::StringSliceAdditionalSpecFns;
use crate::bridge::{BridgeDescriptor, derive_e2e_key, e2e_key_of};
use crate::connector::Dial;
use vstd::utf8::encode_utf8;
use crate::endpoint::{EndpointError, endpoint_of, parse_independent_endpoint};

verus! {

/// Number of redundant pipes opened to a fixed peer.
pub const INDEPENDENT_PIPES: usize = 4;

/// Why a session could not be resolved.
#[derive(Clone, Copy, Debug, PartialEq, Eq, Structural)]
pub enum ResolveError {
    /// The fixed endpoint text is malformed.
    Format(EndpointError),
    /// Discovery could not name an exit or list its bridges.
    Discovery,
    /// Discovery listed no bridge for the exit.
    NoBridges,
    /// No bridge carries a decodable end-to-end key.
    KeyDerivation,
}

/// How a session to a fixed peer starts: a session with no expected peer key,
/// and redundant UDP pipes that must all connect.
pub struct IndependentStart {
    pub session_token: u128,
    /// The peer's socket address text.
    pub addr: String,
    pub dials: Vec<Dial>,
}

/// How a discovered session starts: a session that expects the exit's
/// end-to-end key, and one independent attempt per bridge.
pub struct DiscoveredStart {
    pub session_token: u128,
    pub e2e_key: [u8; 32],
    pub attempts: Vec<BridgeDescriptor>,
}

/// Relies on rand::Rng::gen::<u128> over rand::thread_rng: a random token,
/// of which nothing is promised.
#[verifier::external_body]
fn random_session_token() -> (r: u128) {
    rand::Rng::gen::<u128>(&mut rand::thread_rng())
}

/// Whether `d` is a UDP dial keyed by `key`.
pub open spec fn is_udp_dial(d: Dial, key: Seq<u8>) -> bool {
    d matches Dial::Udp { udp_key } && udp_key@ == key
}

/// Resolves a fixed endpoint `<64 hex digits>@<address>` into the peer's
/// address text and four UDP dials to it, all under one session token.
pub fn independent_bootstrap(endpoint: &str) -> (r: Result<IndependentStart, ResolveError>)
    ensures
        match endpoint_of(endpoint.spec_bytes()) {
            Ok((addr, key)) => r matches Ok(st) && encode_utf8(st.addr@) == addr
                && st.dials@.len() == INDEPENDENT_PIPES
                && forall|i: int| 0 <= i < st.dials@.len() ==> is_udp_dial(#[trigger] st.dials@[i], key),
            Err(e) => r is Err && r->Err_0 == ResolveError::Format(e),
        },
{
    let (addr, key) = match parse_independent_endpoint(endpoint) {
        Ok(p) => p,
        Err(e) => return Err(ResolveError::Format(e)),
    };
    let session_token = random_session_token();
    let mut dials: Vec<Dial> = Vec::new();
    let mut i: usize = 0;
    while i < INDEPENDENT_PIPES
        invariant
            i <= INDEPENDENT_PIPES,
            dials@.len() == i,
            forall|j: int| 0 <= j < i ==> is_udp_dial(#[trigger] dials@[j], key@),
        decreases INDEPENDENT_PIPES - i,
    {
        dials.push(Dial::Udp { udp_key: key });
        i = i + 1;
    }
    Ok(IndependentStart { session_token, addr, dials })
}

/// Starts a discovered session from the exit's bridge list: fails when the
/// list is empty or no bridge yields the end-to-end key, and otherwise plans
/// one attempt per bridge, in the order given.
pub fn discovered_bootstrap(bridges: Vec<BridgeDescriptor>) -> (r: Result<DiscoveredStart, ResolveError>)
    ensures
        bridges@.len() == 0 ==> r is Err && r->Err_0 == ResolveError::NoBridges,
        bridges@.len() > 0 && e2e_key_of(bridges@) is None ==> r is Err && r->Err_0
            == ResolveError::KeyDerivation,
        bridges@.len() > 0 ==> match e2e_key_of(bridges@) {
            Some(k) => r matches Ok(st) && st.e2e_key@ == k && st.attempts@ == bridges@,
            None => r is Err,
        },
{
    if bridges.len() == 0 {
        return Err(ResolveError::NoBridges);
    }
    let e2e_key = match derive_e2e_key(&bridges) {
        Some(k) => k,
        None => return Err(ResolveError::KeyDerivation),
    };
    let session_token = random_session_token();
    Ok(DiscoveredStart { session_token, e2e_key, attempts: bridges })
}

} // verus!
