//! What one connection attempt to a bridge does before any I/O: the filter
//! policy, the choice of transport and the key material handed to it.
use vstd::prelude::*;
use vstd::string::StringExecFns;
use crate::bridge::{
    BridgeDescriptor, decode_bridge_keys, is_tls_protocol, is_udp_protocol, key_pair_of,
    tls_protocol, udp_protocol,
};

verus! {

/// The filter settings of a discovered session.
pub struct FilterPolicy {
    /// Only bridges may be used: descriptors marked direct are skipped.
    pub use_bridges: bool,
    /// A regular expression that the protocol name must match.
    pub force_protocol: Option<String>,
}

/// Why an attempt ended without a pipe.
#[derive(Clone, Copy, Debug, PartialEq, Eq, Structural)]
pub enum AttemptError {
    /// Skipped by policy: the descriptor is direct and bridges are required.
    SkippedDirect,
    /// Skipped by policy: the protocol does not match the filter.
    SkippedProtocol,
    /// The protocol filter is not a valid regular expression.
    InvalidFilter,
    /// The UDP bridge's key blob does not decode.
    BadKeys,
    /// The protocol is neither of the two transports.
    UnsupportedProtocol,
    /// The transport failed to connect.
    ConnectionFailed,
    /// The transport did not connect within the deadline.
    Timeout,
}

/// The connection that an attempt is to open.
pub enum Dial {
    /// A UDP-obfuscated pipe to the bridge, keyed by its UDP-layer key.
    Udp { udp_key: [u8; 32] },
    /// A TLS-mimicry pipe to the bridge carrying its raw key blob, presenting
    /// `sni` as the server name.
    Tls { sni: String, key_blob: Vec<u8> },
}

/// Whether the regular expression `pattern` compiles under the default limits.
pub uninterp spec fn regex_compiles(pattern: Seq<char>) -> bool;

/// Whether the compiled `pattern` matches somewhere in `text`.
pub uninterp spec fn regex_is_match(pattern: Seq<char>, text: Seq<char>) -> bool;

/// Relies on regex::Regex::new, which fails on a pattern that does not parse
/// or that exceeds the fixed default size limit, and on Regex::is_match,
/// which reports whether the pattern matches anywhere in the text; both are
/// functions of their arguments alone.
#[verifier::external_body]
fn regex_match(pattern: &str, text: &str) -> (r: Option<bool>)
    ensures
        r.is_some() == regex_compiles(pattern@),
        r matches Some(m) ==> m == regex_is_match(pattern@, text@),
{
    regex::Regex::new(pattern).ok().map(|re| re.is_match(text))
}

/// The verdict of the filter policy on a descriptor, before any I/O: `None`
/// lets the attempt go on.
pub open spec fn filter_verdict(policy: FilterPolicy, desc: BridgeDescriptor) -> Option<AttemptError> {
    if policy.use_bridges && desc.is_direct {
        Some(AttemptError::SkippedDirect)
    } else {
        match policy.force_protocol {
            Some(p) => if !regex_compiles(p@) {
                Some(AttemptError::InvalidFilter)
            } else if !regex_is_match(p@, desc.protocol@) {
                Some(AttemptError::SkippedProtocol)
            } else {
                None
            },
            None => None,
        }
    }
}

/// Applies the filter policy to a descriptor.
pub fn check_filter(policy: &FilterPolicy, desc: &BridgeDescriptor) -> (r: Option<AttemptError>)
    ensures
        r == filter_verdict(*policy, *desc),
{
    if policy.use_bridges && desc.is_direct {
        return Some(AttemptError::SkippedDirect);
    }
    match &policy.force_protocol {
        Some(p) => match regex_match(p.as_str(), desc.protocol.as_str()) {
            None => Some(AttemptError::InvalidFilter),
            Some(false) => Some(AttemptError::SkippedProtocol),
            Some(true) => None,
        },
        None => None,
    }
}

/// The server name presented by a TLS-mimicry pipe: `first.secondthird.com`.
pub open spec fn domain_text(first: Seq<char>, second: Seq<char>, third: Seq<char>) -> Seq<char> {
    first + "."@ + second + third + ".com"@
}

/// Joins three words into a server name.
pub fn sni_domain(first: &str, second: &str, third: &str) -> (r: String)
    ensures
        r@ == domain_text(first@, second@, third@),
{
    let mut s = String::from_str(first);
    s.append(".");
    s.append(second);
    s.append(third);
    s.append(".com");
    s
}

/// A character that words of the EFF lists are made of: a lowercase ASCII
/// letter or `-`.
pub open spec fn is_word_char(c: char) -> bool {
    ('a' <= c && c <= 'z') || c == '-'
}

/// A non-empty word of lowercase ASCII letters and `-`.
pub open spec fn is_word(w: Seq<char>) -> bool {
    w.len() > 0 && forall|i: int| 0 <= i < w.len() ==> is_word_char(#[trigger] w[i])
}

/// Relies on eff_wordlist::short::random_word, a word drawn at random from
/// the short EFF list, every entry of which is a non-empty word of lowercase
/// letters and `-`.
#[verifier::external_body]
fn short_word() -> (r: &'static str)
    ensures
        is_word(r@),
{
    eff_wordlist::short::random_word()
}

/// Relies on eff_wordlist::large::random_word, a word drawn at random from
/// the large EFF list, every entry of which is a non-empty word of lowercase
/// letters and `-`.
#[verifier::external_body]
fn large_word() -> (r: &'static str)
    ensures
        is_word(r@),
{
    eff_wordlist::large::random_word()
}

/// A fresh random server name made of three dictionary words, so that the
/// handshake carries no fixed name to fingerprint.
pub fn fake_sni_domain() -> (r: String)
    ensures
        exists|a: Seq<char>, b: Seq<char>, c: Seq<char>|
            is_word(a) && is_word(b) && is_word(c) && r@ == domain_text(a, b, c),
{
    let first = short_word();
    let second = large_word();
    let third = large_word();
    sni_domain(first, second, third)
}

/// Plans one connection attempt to a discovered bridge: the filter first,
/// then the transport chosen by the protocol name.
pub fn plan_attempt(policy: &FilterPolicy, desc: &BridgeDescriptor) -> (r: Result<Dial, AttemptError>)
    ensures
        filter_verdict(*policy, *desc) matches Some(e) ==> r == Err::<Dial, AttemptError>(e),
        filter_verdict(*policy, *desc) is None && desc.protocol@ == udp_protocol() ==> match key_pair_of(desc.key_blob@) {
            Some((udp, _)) => r matches Ok(Dial::Udp { udp_key }) && udp_key@ == udp,
            None => r == Err::<Dial, AttemptError>(AttemptError::BadKeys),
        },
        filter_verdict(*policy, *desc) is None && desc.protocol@ == tls_protocol() ==> (
            r matches Ok(Dial::Tls { sni, key_blob }) && key_blob@ == desc.key_blob@
                && exists|a: Seq<char>, b: Seq<char>, c: Seq<char>|
                is_word(a) && is_word(b) && is_word(c) && sni@ == domain_text(a, b, c)),
        filter_verdict(*policy, *desc) is None && desc.protocol@ != udp_protocol()
            && desc.protocol@ != tls_protocol() ==> r == Err::<Dial, AttemptError>(AttemptError::UnsupportedProtocol),
{
    proof {
        reveal_strlit("sosistab2-obfsudp");
        reveal_strlit("sosistab2-obfstls");
        assert(udp_protocol()[14] != tls_protocol()[14]);
    }
    match check_filter(policy, desc) {
        Some(e) => return Err(e),
        None => {},
    }
    if is_udp_protocol(&desc.protocol) {
        match decode_bridge_keys(&desc.key_blob) {
            Some((udp_key, _)) => Ok(Dial::Udp { udp_key }),
            None => Err(AttemptError::BadKeys),
        }
    } else if is_tls_protocol(&desc.protocol) {
        let sni = fake_sni_domain();
        let key_blob = copy_bytes(&desc.key_blob);
        Ok(Dial::Tls { sni, key_blob })
    } else {
        Err(AttemptError::UnsupportedProtocol)
    }
}

/// A protocol filter that compiles and matches none of the bridges' protocols
/// stops every attempt at the filter, before any I/O.
pub proof fn lemma_filter_matching_nothing_skips_all(policy: FilterPolicy, bs: Seq<BridgeDescriptor>)
    requires
        policy.force_protocol is Some,
        regex_compiles(policy.force_protocol->Some_0@),
        forall|i: int| 0 <= i < bs.len() ==> !regex_is_match(policy.force_protocol->Some_0@, #[trigger] bs[i].protocol@),
    ensures
        forall|i: int| 0 <= i < bs.len() ==> (#[trigger] filter_verdict(policy, bs[i]) matches Some(e) && (e
            == AttemptError::SkippedDirect || e == AttemptError::SkippedProtocol)),
{
    assert forall|i: int| 0 <= i < bs.len() implies (#[trigger] filter_verdict(policy, bs[i]) matches Some(e) && (e
        == AttemptError::SkippedDirect || e == AttemptError::SkippedProtocol)) by {
        assert(!regex_is_match(policy.force_protocol->Some_0@, bs[i].protocol@));
    }
}

/// A copy of a byte vector.
fn copy_bytes(v: &Vec<u8>) -> (r: Vec<u8>)
    ensures
        r@ == v@,
{
    let mut out: Vec<u8> = Vec::new();
    let mut i: usize = 0;
    while i < v.len()
        invariant
            i <= v@.len(),
            out@ == v@.subrange(0, i as int),
        decreases v.len() - i,
    {
        out.push(v[i]);
        i = i + 1;
    }
    assert(out@ =~= v@);
    out
}

} // verus!
