//! Bridge descriptors and the key material that their blobs carry.
use vstd::prelude::*;

verus! {

/// One bridge relay as discovery reports it. Nothing in it is trusted until
/// a connection attempt has checked it.
pub struct BridgeDescriptor {
    /// The socket address, written as a pipe reports its peer address.
    pub endpoint: String,
    pub protocol: String,
    pub key_blob: Vec<u8>,
    pub is_direct: bool,
}

/// Name of the UDP-obfuscation transport.
pub open spec fn udp_protocol() -> Seq<char> {
    "sosistab2-obfsudp"@
}

/// Name of the TLS-mimicry transport.
pub open spec fn tls_protocol() -> Seq<char> {
    "sosistab2-obfstls"@
}

/// Whether `p` names the UDP-obfuscation transport.
pub fn is_udp_protocol(p: &String) -> (r: bool)
    ensures
        r == (p@ == udp_protocol()),
{
    let name = "sosistab2-obfsudp".to_owned();
    *p == name
}

/// Whether `p` names the TLS-mimicry transport.
pub fn is_tls_protocol(p: &String) -> (r: bool)
    ensures
        r == (p@ == tls_protocol()),
{
    let name = "sosistab2-obfstls".to_owned();
    *p == name
}

/// The pair of keys that a UDP bridge's blob encodes: the UDP-layer key, then
/// the exit's end-to-end key. Decoding needs 64 bytes; more are ignored.
pub open spec fn key_pair_of(blob: Seq<u8>) -> Option<(Seq<u8>, Seq<u8>)> {
    if blob.len() >= 64 {
        Some((blob.subrange(0, 32), blob.subrange(32, 64)))
    } else {
        None
    }
}

/// Relies on bincode::deserialize of `([u8; 32], sosistab2::MuxPublic)`: a
/// fixed array and an x25519 point are both written as 32 raw bytes, and
/// bincode's default functions accept trailing bytes.
#[verifier::external_body]
fn decode_key_pair(blob: &[u8]) -> (r: Option<([u8; 32], [u8; 32])>)
    ensures
        match key_pair_of(blob@) {
            Some((udp, e2e)) => r matches Some((u, e)) && u@ == udp && e@ == e2e,
            None => r.is_none(),
        },
{
    match bincode::deserialize::<([u8; 32], sosistab2::MuxPublic)>(blob) {
        Ok((udp, e2e)) => Some((udp, *e2e.as_bytes())),
        Err(_) => None,
    }
}

/// Decodes a bridge key blob into its UDP-layer key and end-to-end key.
pub fn decode_bridge_keys(blob: &Vec<u8>) -> (r: Option<([u8; 32], [u8; 32])>)
    ensures
        match key_pair_of(blob@) {
            Some((udp, e2e)) => r matches Some((u, e)) && u@ == udp && e@ == e2e,
            None => r.is_none(),
        },
{
    decode_key_pair(blob.as_slice())
}

/// Whether a bridge is a UDP bridge whose blob decodes.
pub open spec fn carries_key(b: BridgeDescriptor) -> bool {
    b.protocol@ == udp_protocol() && key_pair_of(b.key_blob@).is_some()
}

/// The exit's end-to-end key as the last key-carrying bridge gives it.
pub open spec fn e2e_key_of(bs: Seq<BridgeDescriptor>) -> Option<Seq<u8>>
    decreases bs.len(),
{
    if bs.len() == 0 {
        None
    } else if carries_key(bs.last()) {
        Some(key_pair_of(bs.last().key_blob@).unwrap().1)
    } else {
        e2e_key_of(bs.drop_last())
    }
}

/// Extracts the exit's end-to-end key from the bridge list: every UDP bridge
/// of one exit carries the same key, and the last one that decodes is used.
pub fn derive_e2e_key(bridges: &Vec<BridgeDescriptor>) -> (r: Option<[u8; 32]>)
    ensures
        match e2e_key_of(bridges@) {
            Some(k) => r matches Some(key) && key@ == k,
            None => r.is_none(),
        },
{
    let mut seen: Option<[u8; 32]> = None;
    let mut i: usize = 0;
    while i < bridges.len()
        invariant
            i <= bridges@.len(),
            match e2e_key_of(bridges@.subrange(0, i as int)) {
                Some(k) => seen matches Some(key) && key@ == k,
                None => seen.is_none(),
            },
        decreases bridges.len() - i,
    {
        let b = &bridges[i];
        assert(bridges@.subrange(0, i + 1).drop_last() =~= bridges@.subrange(0, i as int));
        assert(bridges@.subrange(0, i + 1).last() == bridges@[i as int]);
        if is_udp_protocol(&b.protocol) {
            match decode_bridge_keys(&b.key_blob) {
                Some((_, e2e)) => {
                    seen = Some(e2e);
                },
                None => {},
            }
        }
        i = i + 1;
    }
    assert(bridges@.subrange(0, i as int) =~= bridges@);
    seen
}

} // verus!
