//! Container names: a short MD5 hash of what the container is made from,
//! and a random suffix.
use vstd::prelude::*;
use md5::{Digest, Md5};
use vstd::string::StringSliceAdditionalSpecFns;
use crate::backend::lit;
use crate::text::{chars_of, string_from_chars, sub_chars};
use crate::types::ComposeService;

verus! {

// ============ Hex text ============

/// The lowercase hex digit for `d < 16`.
pub open spec fn hex_digit(d: nat) -> char {
    if d < 10 {
        (48 + d) as char
    } else {
        (87 + d) as char
    }
}

/// Each byte as two lowercase hex digits, high first (`hex::encode`).
pub open spec fn hex_of(b: Seq<u8>) -> Seq<char>
    decreases b.len(),
{
    if b.len() == 0 {
        Seq::empty()
    } else {
        hex_of(b.drop_last()) + seq![hex_digit(b.last() as nat / 16), hex_digit(b.last() as nat % 16)]
    }
}

/// The last `width` hex digits of `n`, zero-padded (`{:0width$x}` for a
/// number that fits).
pub open spec fn hex_fixed(n: nat, width: nat) -> Seq<char>
    decreases width,
{
    if width == 0 {
        Seq::empty()
    } else {
        hex_fixed(n / 16, (width - 1) as nat).push(hex_digit(n % 16))
    }
}

/// Every character of `s` is a lowercase hex digit.
pub open spec fn lower_hex(s: Seq<char>) -> bool {
    forall|i: int| 0 <= i < s.len() ==> ('0' <= #[trigger] s[i] <= '9' || 'a' <= s[i] <= 'f')
}

proof fn lemma_hex_digit(d: nat)
    requires
        d < 16,
    ensures
        ('0' <= hex_digit(d) <= '9' || 'a' <= hex_digit(d) <= 'f'),
{
}

proof fn lemma_hex_of_lower(b: Seq<u8>)
    ensures
        lower_hex(hex_of(b)),
    decreases b.len(),
{
    if b.len() > 0 {
        lemma_hex_of_lower(b.drop_last());
        lemma_hex_digit(b.last() as nat / 16);
        lemma_hex_digit(b.last() as nat % 16);
        let h = hex_of(b);
        let p = hex_of(b.drop_last());
        assert forall|i: int| 0 <= i < h.len() implies ('0' <= #[trigger] h[i] <= '9' || 'a' <= h[i] <= 'f') by {
            if i < p.len() {
                assert(h[i] == p[i]);
            }
        }
    }
}

proof fn lemma_hex_fixed(n: nat, width: nat)
    ensures
        hex_fixed(n, width).len() == width,
        lower_hex(hex_fixed(n, width)),
    decreases width,
{
    if width > 0 {
        lemma_hex_fixed(n / 16, (width - 1) as nat);
        lemma_hex_digit(n % 16);
        let h = hex_fixed(n, width);
        let p = hex_fixed(n / 16, (width - 1) as nat);
        assert forall|i: int| 0 <= i < h.len() implies ('0' <= #[trigger] h[i] <= '9' || 'a' <= h[i] <= 'f') by {
            if i < p.len() {
                assert(h[i] == p[i]);
            }
        }
    }
}

proof fn lemma_hex_of_len(b: Seq<u8>)
    ensures
        hex_of(b).len() == 2 * b.len(),
    decreases b.len(),
{
    if b.len() > 0 {
        lemma_hex_of_len(b.drop_last());
    }
}

/// Encodes bytes as lowercase hex (`hex::encode`): each byte as two
/// digits, high first.
#[verifier::external_body]
fn hex_encode(data: &[u8]) -> (r: String)
    ensures
        r@ == hex_of(data@),
{
    hex::encode(data)
}

fn hex_char(d: u32) -> (c: char)
    requires
        d < 16,
    ensures
        c == hex_digit(d as nat),
{
    match d {
        0 => '0',
        1 => '1',
        2 => '2',
        3 => '3',
        4 => '4',
        5 => '5',
        6 => '6',
        7 => '7',
        8 => '8',
        9 => '9',
        10 => 'a',
        11 => 'b',
        12 => 'c',
        13 => 'd',
        14 => 'e',
        _ => 'f',
    }
}

fn push_hex(out: &mut Vec<char>, n: u32, width: u32)
    ensures
        final(out)@ == old(out)@ + hex_fixed(n as nat, width as nat),
    decreases width,
{
    if width > 0 {
        push_hex(out, n / 16, width - 1);
        out.push(hex_char(n % 16));
        assert(final(out)@ =~= old(out)@ + hex_fixed(n as nat, width as nat));
    } else {
        assert(out@ =~= old(out)@ + hex_fixed(n as nat, width as nat));
    }
}

/// `n` as eight lowercase hex digits (`{:08x}`).
pub fn hex8(n: u32) -> (r: String)
    ensures
        r@ == hex_fixed(n as nat, 8),
        r@.len() == 8,
        lower_hex(r@),
{
    proof {
        lemma_hex_fixed(n as nat, 8);
    }
    let mut v: Vec<char> = Vec::new();
    push_hex(&mut v, n, 8);
    assert(v@ =~= hex_fixed(n as nat, 8));
    string_from_chars(v)
}

// ============ Hashes ============

/// The MD5 digest of `data`.
pub uninterp spec fn md5_digest(data: Seq<u8>) -> Seq<u8>;

/// The MD5 digest of `data` (`Md5::digest`); named by `md5_digest`, and
/// 16 bytes long.
#[verifier::external_body]
fn md5_bytes(data: &[u8]) -> (r: Vec<u8>)
    ensures
        r@ == md5_digest(data@),
        r@.len() == 16,
{
    Md5::digest(data).to_vec()
}

/// The first eight hex digits of the MD5 digest of `input`'s bytes.
pub open spec fn short_hash_of(input: &str) -> Seq<char> {
    hex_of(md5_digest(input.spec_bytes())).take(8)
}

/// The first eight hex digits of the MD5 digest of `input`'s bytes.
pub fn short_hash(input: &str) -> (r: String)
    ensures
        r@ == short_hash_of(input),
        r@.len() == 8,
        lower_hex(r@),
{
    let digest = md5_bytes(input.as_bytes());
    let hex = hex_encode(digest.as_slice());
    proof {
        lemma_hex_of_len(digest@);
        lemma_hex_of_lower(digest@);
    }
    let chars = chars_of(hex.as_str());
    let head = sub_chars(&chars, 0, 8);
    assert(head@ =~= hex_of(md5_digest(input.spec_bytes())).take(8));
    string_from_chars(head)
}

// ============ Names ============

/// A random number (`rand::random`); nothing is known of its value.
#[verifier::external_body]
pub(crate) fn random_suffix() -> u32 {
    rand::random::<u32>()
}

/// `HASH-SUFFIX`, with the suffix as eight hex digits.
pub open spec fn suffixed(hash: Seq<char>, suffix: u32) -> Seq<char> {
    hash + "-"@ + hex_fixed(suffix as nat, 8)
}

/// `hash-suffix`, with the suffix as eight hex digits.
pub fn suffixed_name(hash: &str, suffix: u32) -> (r: String)
    ensures
        r@ == suffixed(hash@, suffix),
{
    let mut s = lit(hash);
    s.append("-");
    let h = hex8(suffix);
    s.append(h.as_str());
    s
}

/// A generated name: eight lowercase hex digits, a dash, eight lowercase
/// hex digits.
pub open spec fn name_shape(n: Seq<char>) -> bool {
    &&& n.len() == 17
    &&& n[8] == '-'
    &&& lower_hex(n.take(8))
    &&& lower_hex(n.skip(9))
}

/// A fresh name for `input`: its short hash (eight hex digits) and a
/// random suffix (eight hex digits).
pub fn generate_name(input: &str) -> (r: String)
    ensures
        exists|s: u32| r@ == suffixed(short_hash_of(input), s),
        short_hash_of(input).len() == 8,
        name_shape(r@),
{
    let hash = short_hash(input);
    let suffix = random_suffix();
    let r = suffixed_name(hash.as_str(), suffix);
    proof {
        lemma_suffixed_shape(hash@, suffix);
    }
    r
}

proof fn lemma_suffixed_shape(hash: Seq<char>, suffix: u32)
    requires
        hash.len() == 8,
        lower_hex(hash),
    ensures
        name_shape(suffixed(hash, suffix)),
{
    lemma_hex_fixed(suffix as nat, 8);
    reveal_strlit("-");
    let n = suffixed(hash, suffix);
    let h = hex_fixed(suffix as nat, 8);
    assert(n.take(8) =~= hash);
    assert(n.skip(9) =~= h);
    assert(n[8] == '-');
}

/// The name of a service's container: its `container_name` when set,
/// else the short hash of the service's serialized definition
/// (`spec_json`) and a random suffix, so that a changed definition gets a
/// new name.
pub fn service_container_name(service: &ComposeService, _service_name: &str, spec_json: &str) -> (r: String)
    ensures
        match service.container_name {
            Some(n) => r@ == n@,
            None => (exists|s: u32| r@ == suffixed(short_hash_of(spec_json), s)) && short_hash_of(
                spec_json,
            ).len() == 8 && name_shape(r@),
        },
{
    match &service.container_name {
        Some(n) => n.clone(),
        None => generate_name(spec_json),
    }
}

/// A generated name keeps its hash part whatever the random suffix: two
/// names made from the same input agree up to the suffix.
pub proof fn law_name_hash_stable(hash: Seq<char>, s1: u32, s2: u32)
    ensures
        suffixed(hash, s1).take(hash.len() as int) == hash,
        suffixed(hash, s1).take(hash.len() as int) == suffixed(hash, s2).take(hash.len() as int),
{
    assert(suffixed(hash, s1).take(hash.len() as int) =~= hash);
    assert(suffixed(hash, s2).take(hash.len() as int) =~= hash);
}

/// The state of a service's container.
pub struct ServiceState {
    pub id: String,
    pub name: String,
    pub running: bool,
}

} // verus!
