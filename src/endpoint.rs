//! Parsing of a fixed endpoint written as `<64 hex digits>@<socket address>`.
//! The address text is handed back as it stands; the caller that dials it
//! reads it as a socket address (IPv4, or bracketed IPv6).
use vstd::prelude::*;
use vstd::string::StringSliceAdditionalSpecFns;
use vstd::utf8::{encode_utf8, is_char_boundary, is_leading_byte_width_1, pop_first_scalar, valid_utf8};

verus! {

broadcast use vstd::utf8::encode_utf8_valid_utf8;

/// Why a fixed endpoint could not be parsed.
#[derive(Clone, Copy, Debug, PartialEq, Eq, Structural)]
pub enum EndpointError {
    /// The key part is not 64 hexadecimal digits.
    BadKey,
    /// There is not exactly one `@` between key and address.
    BadSeparator,
    /// The address part is not a socket address; reported by the caller
    /// that reads the address text.
    BadAddress,
}

pub open spec fn is_hex_digit(c: u8) -> bool {
    (48 <= c <= 57) || (97 <= c <= 102) || (65 <= c <= 70)
}

pub open spec fn hex_value(c: u8) -> int {
    if 48 <= c <= 57 {
        c - 48
    } else if 97 <= c <= 102 {
        c - 87
    } else {
        c - 55
    }
}

/// Text that decodes as hexadecimal: an even number of hex digits.
pub open spec fn is_hex_text(s: Seq<u8>) -> bool {
    s.len() % 2 == 0 && forall|i: int| 0 <= i < s.len() ==> is_hex_digit(#[trigger] s[i])
}

/// The bytes that hexadecimal text stands for, two digits per byte.
pub open spec fn hex_bytes(s: Seq<u8>) -> Seq<u8> {
    Seq::new((s.len() / 2) as nat, |i: int| (hex_value(s[2 * i]) * 16 + hex_value(s[2 * i + 1])) as u8)
}

/// Relies on hex::decode: it accepts exactly an even number of hex digits of
/// either case and returns one byte per pair, high digit first.
#[verifier::external_body]
fn decode_hex(s: &[u8]) -> (r: Option<Vec<u8>>)
    ensures
        r.is_some() == is_hex_text(s@),
        r matches Some(v) ==> v@ == hex_bytes(s@),
{
    hex::decode(s).ok()
}

/// Index of the first `ch` at or after `from`, or the length if there is none.
pub open spec fn find_from(s: Seq<u8>, ch: u8, from: int) -> int
    decreases s.len() - from,
{
    if from >= s.len() {
        s.len() as int
    } else if from < 0 {
        find_from(s, ch, 0)
    } else if s[from] == ch {
        from
    } else {
        find_from(s, ch, from + 1)
    }
}

proof fn lemma_find_bounds(s: Seq<u8>, ch: u8, from: int)
    ensures
        from <= s.len() ==> from <= find_from(s, ch, from),
        find_from(s, ch, from) <= s.len(),
        0 <= find_from(s, ch, from),
        find_from(s, ch, from) < s.len() ==> s[find_from(s, ch, from)] == ch,
    decreases s.len() - from,
{
    if from < 0 {
        lemma_find_bounds(s, ch, 0);
    } else if from < s.len() && s[from] != ch {
        lemma_find_bounds(s, ch, from + 1);
    }
}

/// Executable counterpart of `find_from`.
fn find_byte(s: &[u8], ch: u8, from: usize) -> (r: usize)
    ensures
        r == find_from(s@, ch, from as int),
{
    let mut i: usize = from;
    if i > s.len() {
        i = s.len();
    }
    while i < s.len() && s[i] != ch
        invariant
            from <= i || i == s@.len(),
            i <= s@.len(),
            find_from(s@, ch, from as int) == find_from(s@, ch, i as int),
        decreases s.len() - i,
    {
        i = i + 1;
    }
    i
}

/// The outcome of parsing `key@address` text: the key is what stands before
/// the `@`, the address text what follows it. The key is checked first, then
/// that there is exactly one `@`.
pub open spec fn endpoint_of(s: Seq<u8>) -> Result<(Seq<u8>, Seq<u8>), EndpointError> {
    let at = find_from(s, 64, 0);
    let key = s.subrange(0, at);
    if !(is_hex_text(key) && key.len() == 64) {
        Err(EndpointError::BadKey)
    } else if at >= s.len() || find_from(s, 64, at + 1) < s.len() {
        Err(EndpointError::BadSeparator)
    } else {
        Ok((s.subrange(at + 1, s.len() as int), hex_bytes(key)))
    }
}

/// In valid UTF-8, a position preceded only by ASCII bytes is a character
/// boundary.
proof fn lemma_ascii_prefix_boundary(b: Seq<u8>, k: int)
    requires
        valid_utf8(b),
        0 <= k <= b.len(),
        forall|i: int| 0 <= i < k ==> #[trigger] b[i] < 128,
    ensures
        is_char_boundary(b, k),
    decreases k,
{
    if k > 0 {
        assert(b[0] < 128);
        assert(is_leading_byte_width_1(b[0]));
        let p = pop_first_scalar(b);
        assert(p =~= b.subrange(1, b.len() as int));
        assert forall|i: int| 0 <= i < k - 1 implies #[trigger] p[i] < 128 by {
            assert(p[i] == b[i + 1]);
        }
        lemma_ascii_prefix_boundary(p, k - 1);
    }
}

/// Parses a fixed endpoint `<64 hex digits>@<address>` into the address text
/// and the 32-byte key.
pub fn parse_independent_endpoint(endpoint: &str) -> (r: Result<(String, [u8; 32]), EndpointError>)
    ensures
        match endpoint_of(endpoint.spec_bytes()) {
            Ok((addr, key)) => r matches Ok((a, k)) && encode_utf8(a@) == addr && k@ == key,
            Err(e) => r is Err && r->Err_0 == e,
        },
{
    let s = endpoint.as_bytes();
    let at = find_byte(s, 64, 0);
    proof {
        lemma_find_bounds(s@, 64, 0);
    }
    let decoded = decode_hex(&s[0..at]);
    let bytes = match decoded {
        Some(v) => v,
        None => return Err(EndpointError::BadKey),
    };
    assert(s@.subrange(0, at as int).len() == at);
    if bytes.len() != 32 {
        return Err(EndpointError::BadKey);
    }
    if at >= s.len() {
        return Err(EndpointError::BadSeparator);
    }
    let second = find_byte(s, 64, at + 1);
    proof {
        lemma_find_bounds(s@, 64, at + 1);
    }
    if second < s.len() {
        return Err(EndpointError::BadSeparator);
    }
    proof {
        let key = s@.subrange(0, at as int);
        assert forall|i: int| 0 <= i < at + 1 implies #[trigger] s@[i] < 128 by {
            if i < at {
                assert(key[i] == s@[i]);
                assert(is_hex_digit(key[i]));
            }
        }
        lemma_ascii_prefix_boundary(s@, at + 1);
    }
    let (_, rest) = endpoint.split_at(at + 1);
    let addr = rest.to_owned();
    let mut key = [0u8; 32];
    let mut i: usize = 0;
    while i < 32
        invariant
            bytes@.len() == 32,
            i <= 32,
            forall|j: int| 0 <= j < i ==> key@[j] == bytes@[j],
        decreases 32 - i,
    {
        key[i] = bytes[i];
        i = i + 1;
    }
    assert(key@ =~= bytes@);
    Ok((addr, key))
}

/// The lowercase hex digit for `n` in `0..16`.
pub open spec fn hex_digit_of(n: int) -> u8 {
    if n < 10 {
        (48 + n) as u8
    } else {
        (87 + n) as u8
    }
}

/// Lowercase hexadecimal text of `bytes`, two digits per byte, high first.
pub open spec fn hex_text_of(bytes: Seq<u8>) -> Seq<u8> {
    Seq::new(
        2 * bytes.len(),
        |i: int| if i % 2 == 0 {
            hex_digit_of(bytes[i / 2] as int / 16)
        } else {
            hex_digit_of(bytes[i / 2] as int % 16)
        },
    )
}

proof fn lemma_find_first(s: Seq<u8>, ch: u8, from: int, to: int)
    requires
        0 <= from <= to <= s.len(),
        forall|j: int| from <= j < to ==> s[j] != ch,
        to == s.len() || s[to] == ch,
    ensures
        find_from(s, ch, from) == to,
    decreases to - from,
{
    if from < to {
        lemma_find_first(s, ch, from + 1, to);
    }
}

/// Writing a 32-byte key as hex, then `@`, then address text without `@`,
/// and parsing the result gives back exactly that address text and key.
pub proof fn lemma_endpoint_round_trip(key: Seq<u8>, addr: Seq<u8>)
    requires
        key.len() == 32,
        forall|i: int| 0 <= i < addr.len() ==> addr[i] != 64,
    ensures
        endpoint_of(hex_text_of(key) + seq![64u8] + addr) == Ok::<(Seq<u8>, Seq<u8>), EndpointError>((addr, key)),
{
    let t = hex_text_of(key);
    let s = t + seq![64u8] + addr;
    assert forall|j: int| 0 <= j < 64 implies s[j] != 64 && is_hex_digit(#[trigger] t[j]) by {
        assert(s[j] == t[j]);
    }
    lemma_find_first(s, 64, 0, 64);
    assert forall|j: int| 65 <= j < s.len() implies s[j] != 64 by {
        assert(s[j] == addr[j - 65]);
    }
    lemma_find_first(s, 64, 65, s.len() as int);
    assert(s.subrange(0, 64) =~= t);
    assert(s.subrange(65, s.len() as int) =~= addr);
    assert forall|i: int| 0 <= i < 32 implies #[trigger] hex_bytes(t)[i] == key[i] by {
        let k = key[i] as int;
        assert(t[2 * i] == hex_digit_of(k / 16));
        assert(t[2 * i + 1] == hex_digit_of(k % 16));
    }
    assert(hex_bytes(t) =~= key);
}

} // verus!
