//! Disaggregated KV transfer: the `MRDN` v1 wire format, the pluggable
//! [`Fabric`] transport, an in-process synthetic fabric, and a block manager
//! that routes offload / ingest through a fabric.
//!
//! Wire format (all integers little-endian):
//!
//! ```text
//! magic "MRDN" (4) | version (4) | body_len (4) | tier (1) | padding (3) | checksum (16) | body
//! ```
//!
//! The checksum is the first 16 bytes of the BLAKE3 digest of the body, read
//! as a little-endian `u128`.

use vstd::prelude::*;

use crate::block_manager::{ascending, BlockManager, PhaseAwareBlockManager};
use crate::error::{Error, Result};
use crate::text::{decimal, push_decimal};
use crate::types::{tier_rank, BlockLocation, BlockTier};

verus! {

// ---------------------------------------------------------------------------
// BLAKE3
// ---------------------------------------------------------------------------

/// Name for what `blake3::hash` returns: the 32-byte BLAKE3 digest of `input`.
pub uninterp spec fn blake3_digest(input: Seq<u8>) -> Seq<u8>;

/// Calls `blake3::hash` on `input` and returns the digest bytes
/// (`Hash::as_bytes`). Trusted: the result is the crate's BLAKE3 digest of
/// the input, a function of the input alone; nothing else about BLAKE3 is
/// stated.
#[verifier::external_body]
fn blake3_hash(input: &[u8]) -> (digest: [u8; 32])
    ensures
        digest@ == blake3_digest(input@),
{
    *blake3::hash(input).as_bytes()
}

// ---------------------------------------------------------------------------
// Little-endian integers
// ---------------------------------------------------------------------------

/// The `n` low-order bytes of `x`, least significant first.
pub open spec fn le_bytes(x: nat, n: nat) -> Seq<u8>
    decreases n,
{
    if n == 0 {
        Seq::empty()
    } else {
        seq![(x % 256) as u8] + le_bytes(x / 256, (n - 1) as nat)
    }
}

/// The value of a little-endian byte string.
pub open spec fn le_value(s: Seq<u8>) -> nat
    decreases s.len(),
{
    if s.len() == 0 {
        0
    } else {
        (s[0] + 256 * le_value(s.drop_first())) as nat
    }
}

/// `256^n`.
pub open spec fn pow256(n: nat) -> nat
    decreases n,
{
    if n == 0 {
        1
    } else {
        256 * pow256((n - 1) as nat)
    }
}

proof fn lemma_le_bytes_len(x: nat, n: nat)
    ensures
        le_bytes(x, n).len() == n,
    decreases n,
{
    if n > 0 {
        lemma_le_bytes_len(x / 256, (n - 1) as nat);
    }
}

/// Reading back `n` little-endian bytes of `x` gives `x` when it fits.
pub proof fn lemma_le_round_trip(x: nat, n: nat)
    requires
        x < pow256(n),
    ensures
        le_value(le_bytes(x, n)) == x,
        le_bytes(x, n).len() == n,
    decreases n,
{
    lemma_le_bytes_len(x, n);
    if n > 0 {
        let rest = le_bytes(x / 256, (n - 1) as nat);
        assert(x / 256 < pow256((n - 1) as nat)) by (nonlinear_arith)
            requires x < 256 * pow256((n - 1) as nat);
        lemma_le_round_trip(x / 256, (n - 1) as nat);
        assert(le_bytes(x, n).drop_first() =~= rest);
    }
}

proof fn lemma_le_value_bound(s: Seq<u8>)
    ensures
        le_value(s) < pow256(s.len()),
    decreases s.len(),
{
    if s.len() > 0 {
        lemma_le_value_bound(s.drop_first());
        let v = le_value(s.drop_first());
        let p = pow256((s.len() - 1) as nat);
        assert(s[0] + 256 * v < 256 * p) by (nonlinear_arith)
            requires s[0] < 256, v < p;
    }
}

proof fn lemma_pow256_facts()
    ensures
        pow256(4) == 0x1_0000_0000,
        pow256(16) == 0x1_0000_0000_0000_0000_0000_0000_0000_0000,
{
    reveal_with_fuel(pow256, 17);
}

/// Append the `n` low-order bytes of `x` to `out`, least significant first.
fn push_le(out: &mut Vec<u8>, x: u128, n: usize)
    ensures
        final(out)@ == old(out)@ + le_bytes(x as nat, n as nat),
{
    let mut v = x;
    let mut k: usize = 0;
    while k < n
        invariant
            k <= n,
            old(out)@ + le_bytes(x as nat, n as nat) == out@ + le_bytes(v as nat, (n - k) as nat),
        decreases n - k,
    {
        proof {
            assert(le_bytes(v as nat, (n - k) as nat)
                == seq![(v % 256) as u8] + le_bytes((v / 256) as nat, (n - k - 1) as nat));
            assert(out@.push((v % 256) as u8) + le_bytes((v / 256) as nat, (n - k - 1) as nat)
                =~= out@ + (seq![(v % 256) as u8] + le_bytes((v / 256) as nat, (n - k - 1) as nat)));
        }
        out.push((v % 256) as u8);
        v = v / 256;
        k = k + 1;
    }
    proof {
        assert(out@ + le_bytes(v as nat, 0) =~= out@);
    }
}

/// The little-endian value of `buf[start..start + n]`, for `n <= 16`.
fn read_le(buf: &[u8], start: usize, n: usize) -> (v: u128)
    requires
        n <= 16,
        start + n <= buf@.len(),
    ensures
        v == le_value(buf@.subrange(start as int, start + n)),
{
    let mut acc: u128 = 0;
    let mut j: usize = n;
    let total = buf.len();
    proof {
        assert(buf@.subrange(start + n, start + n) =~= Seq::<u8>::empty());
        lemma_pow256_facts();
    }
    while j > 0
        invariant
            j <= n <= 16,
            start + n <= buf@.len(),
            total == buf@.len(),
            acc == le_value(buf@.subrange(start + j, start + n)),
            pow256(16) == 0x1_0000_0000_0000_0000_0000_0000_0000_0000,
        decreases j,
    {
        let ghost tail = buf@.subrange(start + j, start + n);
        proof {
            lemma_le_value_bound(tail);
            lemma_pow256_mono(tail.len(), 15);
            assert(acc * 256 + 255 < pow256(16)) by (nonlinear_arith)
                requires acc < pow256(15), pow256(16) == 256 * pow256(15);
        }
        let idx = start + (j - 1);
        let b = buf[idx];
        acc = acc * 256 + b as u128;
        j = j - 1;
        proof {
            let s = buf@.subrange(start + j, start + n);
            assert(s.drop_first() =~= tail);
            assert(s[0] == b);
        }
    }
    acc
}

proof fn lemma_pow256_mono(a: nat, b: nat)
    requires
        a <= b,
    ensures
        pow256(a) <= pow256(b),
    decreases b,
{
    if a < b {
        lemma_pow256_mono(a, (b - 1) as nat);
    }
}

// ---------------------------------------------------------------------------
// Wire format
// ---------------------------------------------------------------------------

/// `b"MRDN"`.
pub open spec fn magic_bytes() -> Seq<u8> {
    seq![0x4du8, 0x52u8, 0x44u8, 0x4eu8]
}

/// The checksum carried for `body`: the first 16 digest bytes, little-endian.
pub open spec fn body_checksum(body: Seq<u8>) -> u128 {
    le_value(blake3_digest(body).subrange(0, 16)) as u128
}

/// The 32-byte header for a body of `body_len` bytes.
pub open spec fn header_bytes(tier: u8, body_len: nat, checksum: nat) -> Seq<u8> {
    magic_bytes() + le_bytes(1, 4) + le_bytes(body_len % 0x1_0000_0000, 4) + seq![tier, 0u8, 0u8, 0u8]
        + le_bytes(checksum, 16)
}

/// The complete on-wire payload for `body` produced at `tier`.
pub open spec fn frame(tier: BlockTier, body: Seq<u8>) -> Seq<u8> {
    header_bytes(tier_rank(tier) as u8, body.len(), body_checksum(body) as nat) + body
}

/// The tier a wire byte names: `0` and `1` are the two think tiers, anything
/// else is `OutputCritical`.
pub open spec fn tier_of_byte(b: u8) -> BlockTier {
    if b == 0 {
        BlockTier::ThinkComplete
    } else if b == 1 {
        BlockTier::ThinkActive
    } else {
        BlockTier::OutputCritical
    }
}

/// The body length a header claims.
pub open spec fn claimed_body_len(buf: Seq<u8>) -> nat {
    le_value(buf.subrange(8, 12))
}

/// The checksum a header carries.
pub open spec fn claimed_checksum(buf: Seq<u8>) -> nat {
    le_value(buf.subrange(16, 32))
}

/// The body bytes a well-framed buffer carries.
pub open spec fn framed_body(buf: Seq<u8>) -> Seq<u8> {
    buf.subrange(32, 32 + claimed_body_len(buf) as int)
}

/// `buf` passes every framing check: long enough, right magic and version,
/// and holds the whole body its header claims.
pub open spec fn framing_ok(buf: Seq<u8>) -> bool {
    &&& buf.len() >= 32
    &&& buf.subrange(0, 4) == magic_bytes()
    &&& le_value(buf.subrange(4, 8)) == 1
    &&& buf.len() >= 32 + claimed_body_len(buf)
}

/// The message of the first framing check `buf` fails: length, magic,
/// version, then the body length its header claims.
pub open spec fn framing_error(buf: Seq<u8>) -> Seq<char> {
    if buf.len() < 32 {
        "wire payload truncated: "@ + decimal(buf.len()) + " < 32"@
    } else if buf.subrange(0, 4) != magic_bytes() {
        "wire magic mismatch: ["@ + decimal(buf[0] as nat) + ", "@ + decimal(buf[1] as nat) + ", "@
            + decimal(buf[2] as nat) + ", "@ + decimal(buf[3] as nat) + "] != [77, 82, 68, 78]"@
    } else if le_value(buf.subrange(4, 8)) != 1 {
        "wire version mismatch: "@ + decimal(le_value(buf.subrange(4, 8))) + " != 1"@
    } else {
        "wire payload truncated: header claims "@ + decimal(claimed_body_len(buf)) + " body bytes, buf has "@
            + decimal((buf.len() - 32) as nat)
    }
}

/// Wire-format header prepended to every payload that crosses a fabric.
#[derive(Debug, Clone, Copy)]
pub struct WireHeader {
    /// Magic bytes `MRDN`.
    pub magic: [u8; 4],
    /// Wire format version.
    pub version: u32,
    /// Body length in bytes (excludes the header).
    pub body_len: u32,
    /// Producer-side tier.
    pub tier: u8,
    /// Padding so the checksum is 16-byte aligned.
    padding: [u8; 3],
    /// Truncated BLAKE3-128 of the body.
    pub checksum: u128,
}

impl WireHeader {
    /// Size of the on-wire header in bytes.
    pub const SIZE: usize = 32;

    /// Current wire format version.
    pub const VERSION: u32 = 1;

    /// `b"MRDN"` — fail-fast magic.
    pub const MAGIC: [u8; 4] = [0x4d, 0x52, 0x44, 0x4e];

    /// Header for `body_len` bytes at `tier` with `checksum`.
    pub closed spec fn spec_bytes(&self) -> Seq<u8> {
        self.magic@ + le_bytes(self.version as nat, 4) + le_bytes(self.body_len as nat, 4)
            + seq![self.tier] + self.padding@ + le_bytes(self.checksum as nat, 16)
    }

    /// The header's padding is zero.
    pub closed spec fn padding_is_zero(&self) -> bool {
        self.padding@ == seq![0u8, 0u8, 0u8]
    }

    /// Append the header's 32 bytes to `buf`.
    fn write(&self, buf: &mut Vec<u8>)
        ensures
            final(buf)@ == old(buf)@ + self.spec_bytes(),
    {
        let ghost start = buf@;
        buf.push(self.magic[0]);
        buf.push(self.magic[1]);
        buf.push(self.magic[2]);
        buf.push(self.magic[3]);
        proof {
            assert(buf@ =~= start + self.magic@);
        }
        push_le(buf, self.version as u128, 4);
        push_le(buf, self.body_len as u128, 4);
        buf.push(self.tier);
        buf.push(self.padding[0]);
        buf.push(self.padding[1]);
        buf.push(self.padding[2]);
        push_le(buf, self.checksum, 16);
        proof {
            assert(buf@ =~= start + self.spec_bytes());
        }
    }

    /// Validate the framing of `buf` and return its header. Errors name the
    /// first failed check: truncated header, magic, version, truncated body.
    fn read(buf: &[u8]) -> (r: Result<WireHeader>)
        ensures
            !framing_ok(buf@) ==> (r matches Err(Error::Disagg(m)) && m@ == framing_error(buf@)),
            r is Ok <==> framing_ok(buf@),
            r matches Ok(h) ==> {
                &&& h.magic@ == magic_bytes()
                &&& h.version == 1
                &&& h.body_len == claimed_body_len(buf@)
                &&& h.tier == buf@[12]
                &&& h.padding_is_zero()
                &&& h.checksum == claimed_checksum(buf@)
            },
    {
        if buf.len() < WireHeader::SIZE {
            let mut m = "wire payload truncated: ".to_owned();
            push_decimal(&mut m, buf.len() as u128);
            m.append(" < 32");
            proof {
                assert(m@ =~= framing_error(buf@));
            }
            return Err(Error::Disagg(m));
        }
        let magic = [buf[0], buf[1], buf[2], buf[3]];
        proof {
            assert(magic@ =~= buf@.subrange(0, 4));
        }
        if !(magic[0] == 0x4d && magic[1] == 0x52 && magic[2] == 0x44 && magic[3] == 0x4e) {
            proof {
                assert(buf@.subrange(0, 4) != magic_bytes()) by {
                    assert(buf@.subrange(0, 4)[0] == magic[0]);
                    assert(buf@.subrange(0, 4)[1] == magic[1]);
                    assert(buf@.subrange(0, 4)[2] == magic[2]);
                    assert(buf@.subrange(0, 4)[3] == magic[3]);
                }
            }
            let mut m = "wire magic mismatch: [".to_owned();
            push_decimal(&mut m, magic[0] as u128);
            m.append(", ");
            push_decimal(&mut m, magic[1] as u128);
            m.append(", ");
            push_decimal(&mut m, magic[2] as u128);
            m.append(", ");
            push_decimal(&mut m, magic[3] as u128);
            m.append("] != [77, 82, 68, 78]");
            proof {
                assert(m@ =~= framing_error(buf@));
            }
            return Err(Error::Disagg(m));
        }
        proof {
            assert(buf@.subrange(0, 4) =~= magic_bytes());
            lemma_pow256_facts();
            lemma_le_value_bound(buf@.subrange(4, 8));
            lemma_le_value_bound(buf@.subrange(8, 12));
        }
        let version = read_le(buf, 4, 4);
        if version != 1 {
            let mut m = "wire version mismatch: ".to_owned();
            push_decimal(&mut m, version);
            m.append(" != 1");
            proof {
                assert(m@ =~= framing_error(buf@));
            }
            return Err(Error::Disagg(m));
        }
        let body_len = read_le(buf, 8, 4);
        let tier = buf[12];
        let checksum = read_le(buf, 16, 16);
        if ((buf.len() - WireHeader::SIZE) as u128) < body_len {
            let mut m = "wire payload truncated: header claims ".to_owned();
            push_decimal(&mut m, body_len);
            m.append(" body bytes, buf has ");
            push_decimal(&mut m, (buf.len() - WireHeader::SIZE) as u128);
            proof {
                assert(m@ =~= framing_error(buf@));
            }
            return Err(Error::Disagg(m));
        }
        let h = WireHeader {
            magic,
            version: 1,
            body_len: body_len as u32,
            tier,
            padding: [0u8, 0u8, 0u8],
            checksum,
        };
        proof {
            assert(h.padding@ =~= seq![0u8, 0u8, 0u8]);
        }
        Ok(h)
    }
}

/// Exec form of [`tier_of_byte`].
fn tier_from_u8(t: u8) -> (tier: BlockTier)
    ensures
        tier == tier_of_byte(t),
{
    if t == 0 {
        BlockTier::ThinkComplete
    } else if t == 1 {
        BlockTier::ThinkActive
    } else {
        BlockTier::OutputCritical
    }
}

/// The 128-bit checksum of `body`.
fn checksum_of(body: &[u8]) -> (c: u128)
    ensures
        c == body_checksum(body@),
{
    let digest = blake3_hash(body);
    let c = read_le(digest.as_slice(), 0, 16);
    proof {
        lemma_pow256_facts();
        lemma_le_value_bound(digest@.subrange(0, 16));
    }
    c
}

/// Frame `body` into a complete on-wire payload (header + body). The
/// header's length field holds the body length modulo 2^32.
pub fn encode(tier: BlockTier, body: &[u8]) -> (out: Vec<u8>)
    ensures
        out@ == frame(tier, body@),
{
    let header = WireHeader {
        magic: WireHeader::MAGIC,
        version: WireHeader::VERSION,
        body_len: ((body.len() as u64) % 0x1_0000_0000) as u32,
        tier: tier.as_u8(),
        padding: [0u8, 0u8, 0u8],
        checksum: checksum_of(body),
    };
    let mut out: Vec<u8> = Vec::new();
    header.write(&mut out);
    let mut k: usize = 0;
    while k < body.len()
        invariant
            k <= body@.len(),
            out@ == header.spec_bytes() + body@.take(k as int),
        decreases body@.len() - k,
    {
        out.push(body[k]);
        k = k + 1;
        proof {
            assert(out@ =~= header.spec_bytes() + body@.take(k as int));
        }
    }
    proof {
        assert(header.padding@ =~= seq![0u8, 0u8, 0u8]);
        assert(body@.take(k as int) =~= body@);
        assert(header.spec_bytes() =~= header_bytes(tier_rank(tier) as u8, body@.len(), body_checksum(body@) as nat));
    }
    out
}

/// Validate framing and checksum and return `(tier, body)`. Framing errors
/// are [`Error::Disagg`] (see [`WireHeader`]); a body whose checksum differs
/// from the header's is [`Error::DisaggChecksum`].
pub fn decode(buf: &[u8]) -> (r: Result<(BlockTier, Vec<u8>)>)
    ensures
        !framing_ok(buf@) ==> (r matches Err(Error::Disagg(m)) && m@ == framing_error(buf@)),
        framing_ok(buf@) && body_checksum(framed_body(buf@)) != claimed_checksum(buf@) ==>
            (r matches Err(Error::DisaggChecksum { expected, actual })
                && expected == claimed_checksum(buf@)
                && actual == body_checksum(framed_body(buf@))),
        r is Ok <==> framing_ok(buf@) && body_checksum(framed_body(buf@)) == claimed_checksum(buf@),
        r matches Ok((tier, body)) ==> (tier == tier_of_byte(buf@[12]) && body@ == framed_body(buf@)),
{
    let header = match WireHeader::read(buf) {
        Ok(h) => h,
        Err(e) => {
            return Err(e);
        },
    };
    let len = header.body_len as usize;
    let total = buf.len();
    let mut body: Vec<u8> = Vec::new();
    let mut k: usize = 0;
    while k < len
        invariant
            k <= len,
            len == claimed_body_len(buf@),
            framing_ok(buf@),
            body@ == buf@.subrange(32, 32 + k),
            total == buf@.len(),
        decreases len - k,
    {
        body.push(buf[WireHeader::SIZE + k]);
        k = k + 1;
        proof {
            assert(body@ =~= buf@.subrange(32, 32 + k));
        }
    }
    let actual = checksum_of(body.as_slice());
    if actual != header.checksum {
        return Err(Error::DisaggChecksum { expected: header.checksum, actual });
    }
    Ok((tier_from_u8(header.tier), body))
}

/// Framing is lossless: decoding what [`encode`] produced gives back the tier
/// and the body, for any body whose length fits the 32-bit length field.
pub proof fn lemma_encode_decode_round_trip(tier: BlockTier, body: Seq<u8>)
    requires
        body.len() < 0x1_0000_0000,
    ensures
        framing_ok(frame(tier, body)),
        framed_body(frame(tier, body)) == body,
        claimed_checksum(frame(tier, body)) == body_checksum(body),
        body_checksum(framed_body(frame(tier, body))) == claimed_checksum(frame(tier, body)),
        tier_of_byte(frame(tier, body)[12]) == tier,
{
    let f = frame(tier, body);
    lemma_pow256_facts();
    lemma_le_round_trip(1, 4);
    lemma_le_round_trip(body.len(), 4);
    lemma_le_round_trip(body_checksum(body) as nat, 16);
    assert(f.subrange(0, 4) =~= magic_bytes());
    assert(f.subrange(4, 8) =~= le_bytes(1, 4));
    assert(f.subrange(8, 12) =~= le_bytes(body.len(), 4));
    assert(f.subrange(16, 32) =~= le_bytes(body_checksum(body) as nat, 16));
    assert(f.subrange(32, 32 + body.len() as int) =~= body);
    assert(f[12] == tier_rank(tier) as u8);
}

// ---------------------------------------------------------------------------
// Fabric — pluggable transport
// ---------------------------------------------------------------------------

/// Transport-level fabric: a keyed store of payloads on the remote side.
pub trait Fabric {
    /// The payloads the fabric holds, by handle.
    spec fn stored(&self) -> Map<u64, Seq<u8>>;

    /// The fabric's label.
    spec fn spec_label(&self) -> Seq<char>;

    /// A push made now succeeds.
    spec fn accepts_push(&self) -> bool;

    /// Push `payload` and return the handle it is stored under.
    fn push(&mut self, payload: Vec<u8>) -> (r: Result<u64>)
        ensures
            old(self).accepts_push() ==> r is Ok,
            r matches Ok(h) ==> final(self).stored() == old(self).stored().insert(h, payload@),
            final(self).spec_label() == old(self).spec_label(),
    ;

    /// Fetch a previously pushed payload by handle.
    fn pull(&self, handle: u64) -> (r: Result<Vec<u8>>)
        ensures
            r matches Ok(p) ==> self.stored().contains_key(handle) && p@ == self.stored()[handle],
    ;

    /// Fabric label used in metric tags.
    fn label(&self) -> (l: &'static str)
        ensures
            l@ == self.spec_label(),
    ;
}

/// In-process synthetic fabric: stores payloads in a keyed map under
/// consecutive handles starting at 1.
#[derive(Debug)]
pub struct SyntheticNixlFabric {
    inner: std::collections::HashMap<u64, Vec<u8>>,
    next: u64,
}

impl SyntheticNixlFabric {
    /// The handle most recently issued (`0` before the first push).
    pub closed spec fn last_handle(&self) -> u64 {
        self.next
    }

    /// Every stored handle was issued and not yet reached again: it lies in
    /// `1..=last_handle()`.
    pub open spec fn handles_fresh(&self) -> bool {
        forall|h: u64| #[trigger] self.stored().contains_key(h) ==> 1 <= h <= self.last_handle()
    }

    /// `post` is `pre` after a successful push of `payload` that was given
    /// handle `h`: the handle after the last one, now holding the payload.
    pub open spec fn pushed(pre: SyntheticNixlFabric, post: SyntheticNixlFabric, payload: Seq<u8>, h: u64) -> bool {
        &&& pre.last_handle() < u64::MAX
        &&& h == pre.last_handle() + 1
        &&& post.last_handle() == h
        &&& post.stored() == pre.stored().insert(h, payload)
    }

    /// Construct an empty synthetic fabric.
    pub fn new() -> (f: Self)
        ensures
            f.stored() == Map::<u64, Seq<u8>>::empty(),
            f.last_handle() == 0,
            f.handles_fresh(),
    {
        let f = SyntheticNixlFabric { inner: std::collections::HashMap::new(), next: 0 };
        assert(f.stored() =~= Map::<u64, Seq<u8>>::empty());
        f
    }

    /// Number of payloads currently held.
    pub fn len(&self) -> (n: usize)
        ensures
            n == self.stored().dom().len(),
    {
        assert(self.stored().dom() =~= self.inner@.dom());
        self.inner.len()
    }

    /// True if the fabric holds no payloads.
    pub fn is_empty(&self) -> (b: bool)
        ensures
            b == (self.stored().dom().len() == 0),
    {
        self.len() == 0
    }
}

impl Fabric for SyntheticNixlFabric {
    closed spec fn stored(&self) -> Map<u64, Seq<u8>> {
        self.inner@.map_values(|v: Vec<u8>| v@)
    }

    open spec fn spec_label(&self) -> Seq<char> {
        "nixl-synth"@
    }

    /// Every push succeeds until the handle space is used up.
    open spec fn accepts_push(&self) -> bool {
        self.last_handle() < u64::MAX
    }

    /// Handles are issued consecutively from 1; the handle after `u64::MAX`
    /// wraps to 0, which is refused.
    fn push(&mut self, payload: Vec<u8>) -> (r: Result<u64>)
        ensures
            old(self).last_handle() < u64::MAX && old(self).handles_fresh() ==> {
                &&& !old(self).stored().contains_key((old(self).last_handle() + 1) as u64)
                &&& final(self).handles_fresh()
                &&& final(self).stored().dom().len() == old(self).stored().dom().len() + 1
            },
            old(self).last_handle() < u64::MAX ==> {
                &&& r == Ok::<u64, Error>((old(self).last_handle() + 1) as u64)
                &&& final(self).stored() == old(self).stored().insert((old(self).last_handle() + 1) as u64, payload@)
                &&& final(self).last_handle() == old(self).last_handle() + 1
                &&& SyntheticNixlFabric::pushed(*old(self), *final(self), payload@, (old(self).last_handle() + 1) as u64)
            },
            old(self).last_handle() == u64::MAX ==> {
                &&& r matches Err(Error::Disagg(m)) && m@ == "synthetic fabric handle space exhausted"@
                &&& final(self).stored() == old(self).stored()
                &&& final(self).last_handle() == 0
            },
    {
        let handle = self.next.wrapping_add(1);
        self.next = handle;
        if handle == 0 {
            return Err(Error::Disagg("synthetic fabric handle space exhausted".to_owned()));
        }
        let ghost payload_view = payload@;
        proof {
            vstd::std_specs::hash::axiom_hashmap_view_finite_dom(self.inner);
            assert(self.stored().dom() =~= self.inner@.dom());
        }
        self.inner.insert(handle, payload);
        proof {
            assert(self.stored() =~= old(self).stored().insert(handle, payload_view));
        }
        Ok(handle)
    }

    fn pull(&self, handle: u64) -> (r: Result<Vec<u8>>)
        ensures
            r is Ok <==> self.stored().contains_key(handle),
            r matches Err(Error::Disagg(m)) ==> m@ == "unknown fabric handle: "@ + decimal(handle as nat),
    {
        match self.inner.get(&handle) {
            Some(p) => {
                let mut out: Vec<u8> = Vec::new();
                let mut k: usize = 0;
                while k < p.len()
                    invariant
                        k <= p@.len(),
                        out@ == p@.take(k as int),
                    decreases p@.len() - k,
                {
                    out.push(p[k]);
                    k = k + 1;
                    proof {
                        assert(out@ =~= p@.take(k as int));
                    }
                }
                proof {
                    assert(out@ =~= p@);
                }
                Ok(out)
            },
            None => {
                let mut m = "unknown fabric handle: ".to_owned();
                push_decimal(&mut m, handle as u128);
                Err(Error::Disagg(m))
            },
        }
    }

    fn label(&self) -> (l: &'static str) {
        "nixl-synth"
    }
}

/// The fabric after the first `i` pushes of a run from an empty fabric
/// holds exactly the handles `1..=i`, handle `j + 1` holding the `j`-th
/// payload.
proof fn lemma_push_run_prefix(fs: Seq<SyntheticNixlFabric>, payloads: Seq<Seq<u8>>, handles: Seq<u64>, i: int)
    requires
        fs.len() == payloads.len() + 1,
        handles.len() == payloads.len(),
        fs[0].stored().dom() == Set::<u64>::empty(),
        fs[0].last_handle() == 0,
        forall|j: int| 0 <= j < payloads.len() ==> #[trigger] SyntheticNixlFabric::pushed(
            fs[j], fs[j + 1], payloads[j], handles[j]),
        0 <= i <= payloads.len(),
    ensures
        fs[i].last_handle() == i,
        fs[i].stored().dom().finite(),
        fs[i].stored().dom().len() == i,
        forall|h: u64| #[trigger] fs[i].stored().contains_key(h) ==> 1 <= h <= i,
        forall|j: int| 0 <= j < i ==> #[trigger] handles[j] == j + 1,
        forall|j: int| 0 <= j < i ==> fs[i].stored().contains_key(#[trigger] handles[j])
            && fs[i].stored()[handles[j]] == payloads[j],
    decreases i,
{
    if i > 0 {
        let j = i - 1;
        lemma_push_run_prefix(fs, payloads, handles, j);
        assert(SyntheticNixlFabric::pushed(fs[j], fs[j + 1], payloads[j], handles[j]));
        assert(j + 1 == i);
        assert(!fs[j].stored().contains_key(handles[j]));
    } else {
        assert(fs[0].stored().dom().len() == 0);
    }
}

/// Pushes to a fresh synthetic fabric: after `k` successful pushes it holds
/// `k` payloads, the handles are pairwise distinct, and each handle pulls
/// back its payload.
pub proof fn lemma_push_run(fs: Seq<SyntheticNixlFabric>, payloads: Seq<Seq<u8>>, handles: Seq<u64>)
    requires
        fs.len() == payloads.len() + 1,
        handles.len() == payloads.len(),
        fs[0].stored().dom() == Set::<u64>::empty(),
        fs[0].last_handle() == 0,
        forall|j: int| 0 <= j < payloads.len() ==> #[trigger] SyntheticNixlFabric::pushed(
            fs[j], fs[j + 1], payloads[j], handles[j]),
    ensures
        fs.last().stored().dom().len() == payloads.len(),
        forall|a: int, b: int| 0 <= a < b < handles.len() ==> handles[a] != handles[b],
        forall|j: int| 0 <= j < payloads.len() ==> fs.last().stored().contains_key(#[trigger] handles[j])
            && fs.last().stored()[handles[j]] == payloads[j],
{
    lemma_push_run_prefix(fs, payloads, handles, payloads.len() as int);
}

// ---------------------------------------------------------------------------
// NixlBackedBlockManager
// ---------------------------------------------------------------------------

/// A block manager that owns a local pool and a fabric. Pool operations are
/// delegated to the local manager; `offload_block` frames the block, pushes
/// it through the fabric, records the handle and reclaims the local slot;
/// `ingest_block` validates a payload and re-allocates it locally.
#[derive(Debug)]
pub struct NixlBackedBlockManager<F: Fabric> {
    local: PhaseAwareBlockManager,
    fabric: F,
    /// Local block id -> fabric handle, for blocks offloaded and not reused since.
    remote_ids: std::collections::HashMap<u32, u64>,
}

impl<F: Fabric> NixlBackedBlockManager<F> {
    /// The wrapped local manager.
    pub closed spec fn local_pool(&self) -> PhaseAwareBlockManager {
        self.local
    }

    /// The fabric.
    pub closed spec fn fabric_spec(&self) -> F {
        self.fabric
    }

    /// Offloaded block ids and the handles the fabric gave them.
    pub closed spec fn remote(&self) -> Map<u32, u64> {
        self.remote_ids@
    }

    /// Wrap an existing local manager with the given fabric.
    pub fn new(local: PhaseAwareBlockManager, fabric: F) -> (m: Self)
        ensures
            m.local_pool() == local,
            m.fabric_spec() == fabric,
            m.remote() == Map::<u32, u64>::empty(),
    {
        NixlBackedBlockManager { local, fabric, remote_ids: std::collections::HashMap::new() }
    }

    /// Borrow the underlying local manager.
    pub fn local(&self) -> (l: &PhaseAwareBlockManager)
        ensures
            *l == self.local_pool(),
    {
        &self.local
    }

    /// Fabric label (for telemetry tagging).
    pub fn fabric_label(&self) -> (l: &'static str)
        ensures
            l@ == self.fabric_spec().spec_label(),
    {
        self.fabric.label()
    }

    /// Forget any remote record of the ids just handed out locally.
    fn forget_remote(&mut self, ids: &Vec<u32>)
        ensures
            final(self).remote() == old(self).remote().remove_keys(ids@.to_set()),
            final(self).local_pool() == old(self).local_pool(),
            final(self).fabric_spec() == old(self).fabric_spec(),
    {
        let mut k: usize = 0;
        while k < ids.len()
            invariant
                k <= ids@.len(),
                self.remote() == old(self).remote().remove_keys(ids@.take(k as int).to_set()),
                self.local_pool() == old(self).local_pool(),
                self.fabric_spec() == old(self).fabric_spec(),
            decreases ids@.len() - k,
        {
            self.remote_ids.remove(&ids[k]);
            proof {
                ids@.take(k as int).lemma_push_to_set_commute(ids@[k as int]);
                assert(ids@.take(k as int + 1) =~= ids@.take(k as int).push(ids@[k as int]));
                assert(self.remote() =~= old(self).remote().remove_keys(ids@.take(k as int + 1).to_set()));
            }
            k = k + 1;
        }
        proof {
            assert(ids@.take(k as int) =~= ids@);
        }
    }
}

impl<F: Fabric> BlockManager for NixlBackedBlockManager<F> {
    open spec fn inv(&self) -> bool {
        self.local_pool().well_formed()
    }

    open spec fn allocation_ok(&self, n_blocks: u32) -> bool {
        self.local_pool().allocation_fits(n_blocks)
    }

    open spec fn used_total(&self) -> nat {
        self.local_pool().used()
    }

    open spec fn capacity_total(&self) -> nat {
        self.local_pool().capacity()
    }

    /// Delegates to the local manager; the ids handed out are no longer
    /// reported as remote.
    fn allocate(&mut self, req_id: u64, tier: BlockTier, n_blocks: u32) -> (r: Result<Vec<u32>>)
        ensures
            PhaseAwareBlockManager::allocate_effect(
                old(self).local_pool(),
                final(self).local_pool(),
                req_id,
                tier,
                n_blocks,
                r,
            ),
            r matches Ok(ids) ==> final(self).remote() == old(self).remote().remove_keys(ids@.to_set()),
            r is Err ==> final(self).remote() == old(self).remote(),
            final(self).fabric_spec() == old(self).fabric_spec(),
    {
        let r = self.local.allocate(req_id, tier, n_blocks);
        match r {
            Ok(ids) => {
                self.forget_remote(&ids);
                Ok(ids)
            },
            Err(e) => Err(e),
        }
    }

    fn free(&mut self, req_id: u64)
        ensures
            PhaseAwareBlockManager::free_effect(old(self).local_pool(), final(self).local_pool(), req_id),
            final(self).remote() == old(self).remote(),
            final(self).fabric_spec() == old(self).fabric_spec(),
    {
        self.local.free(req_id);
    }

    fn demote_think_blocks(&mut self, req_id: u64)
        ensures
            PhaseAwareBlockManager::demote_effect(old(self).local_pool(), final(self).local_pool(), req_id),
            final(self).remote() == old(self).remote(),
            final(self).fabric_spec() == old(self).fabric_spec(),
    {
        self.local.demote_think_blocks(req_id);
    }

    fn evict_for(&mut self, needed_bytes: u64) -> (freed: u64)
        ensures
            PhaseAwareBlockManager::evict_effect(old(self).local_pool(), final(self).local_pool(), needed_bytes, freed),
            final(self).remote() == old(self).remote(),
            final(self).fabric_spec() == old(self).fabric_spec(),
    {
        self.local.evict_for(needed_bytes)
    }

    fn touch(&mut self, block_id: u32)
        ensures
            PhaseAwareBlockManager::touch_effect(old(self).local_pool(), final(self).local_pool(), block_id),
            final(self).remote() == old(self).remote(),
            final(self).fabric_spec() == old(self).fabric_spec(),
    {
        self.local.touch(block_id);
    }

    fn free_block_by_id(&mut self, block_id: u32) -> (present: bool)
        ensures
            PhaseAwareBlockManager::release_effect(old(self).local_pool(), final(self).local_pool(), block_id, present),
            final(self).remote() == old(self).remote(),
            final(self).fabric_spec() == old(self).fabric_spec(),
    {
        self.local.free_block_by_id(block_id)
    }

    fn blocks_for_request(&self, req_id: u64) -> (ids: Vec<u32>)
        ensures
            ascending(ids@),
            ids@.to_set() == self.local_pool().request_ids(req_id),
    {
        self.local.blocks_for_request(req_id)
    }

    fn used_bytes(&self) -> (used: u64) {
        self.local.used_bytes()
    }

    fn capacity_bytes(&self) -> (capacity: u64) {
        self.local.capacity_bytes()
    }

    /// Frame a block-sized zero body (the host staging copy), push it through
    /// the fabric, record the handle and reclaim the local slot. Returns the
    /// body. A fabric error is returned unchanged and nothing else changes.
    fn offload_block(&mut self, block_id: u32) -> (r: Result<Vec<u8>>)
        ensures
            old(self).fabric_spec().accepts_push() ==> r is Ok,
            r matches Ok(body) ==> {
                &&& body@ == Seq::new(old(self).local_pool().block_size(), |i: int| 0u8)
                &&& final(self).remote().contains_key(block_id)
                &&& final(self).remote() == old(self).remote().insert(block_id, final(self).remote()[block_id])
                &&& final(self).fabric_spec().stored() == old(self).fabric_spec().stored().insert(
                    final(self).remote()[block_id], frame(BlockTier::ThinkComplete, body@))
                &&& PhaseAwareBlockManager::release_effect(
                    old(self).local_pool(),
                    final(self).local_pool(),
                    block_id,
                    old(self).local_pool().blocks().dom().contains(block_id),
                )
            },
            r is Err ==> {
                &&& final(self).remote() == old(self).remote()
                &&& final(self).local_pool() == old(self).local_pool()
            },
    {
        let n = self.local.block_size_bytes() as usize;
        let mut body: Vec<u8> = Vec::new();
        let mut k: usize = 0;
        while k < n
            invariant
                k <= n,
                body@ == Seq::new(k as nat, |i: int| 0u8),
            decreases n - k,
        {
            body.push(0u8);
            k = k + 1;
            proof {
                assert(body@ =~= Seq::new(k as nat, |i: int| 0u8));
            }
        }
        let payload = encode(BlockTier::ThinkComplete, body.as_slice());
        let handle = match self.fabric.push(payload) {
            Ok(h) => h,
            Err(e) => {
                return Err(e);
            },
        };
        self.remote_ids.insert(block_id, handle);
        let _ = self.local.free_block_by_id(block_id);
        Ok(body)
    }

    /// Validate the payload's framing and checksum, then allocate one block in
    /// `tier` for the synthetic owner `u64::MAX`; the caller reassigns it.
    fn ingest_block(&mut self, payload: Vec<u8>, tier: BlockTier) -> (r: Result<u32>)
        ensures
            !framing_ok(payload@) ==> (r matches Err(Error::Disagg(m)) && m@ == framing_error(payload@)),
            framing_ok(payload@) && body_checksum(framed_body(payload@)) != claimed_checksum(payload@)
                ==> (r matches Err(Error::DisaggChecksum { expected, actual })
                    && expected == claimed_checksum(payload@)
                    && actual == body_checksum(framed_body(payload@))),
            !(framing_ok(payload@) && body_checksum(framed_body(payload@)) == claimed_checksum(payload@)) ==> {
                &&& final(self).local_pool() == old(self).local_pool()
                &&& final(self).remote() == old(self).remote()
            },
            framing_ok(payload@) && body_checksum(framed_body(payload@)) == claimed_checksum(payload@) ==> {
                &&& r matches Err(e) ==> {
                    &&& PhaseAwareBlockManager::allocate_effect(
                        old(self).local_pool(),
                        final(self).local_pool(),
                        u64::MAX,
                        tier,
                        1,
                        Err::<Vec<u32>, Error>(e),
                    )
                    &&& final(self).remote() == old(self).remote()
                }
                &&& r matches Ok(id) ==> {
                    &&& exists|ids: Vec<u32>| ids@ == seq![id] && #[trigger] PhaseAwareBlockManager::allocate_effect(
                        old(self).local_pool(),
                        final(self).local_pool(),
                        u64::MAX,
                        tier,
                        1,
                        Ok::<Vec<u32>, Error>(ids),
                    )
                    &&& final(self).remote() == old(self).remote().remove(id)
                }
            },
            r matches Ok(id) ==> {
                &&& final(self).local_pool().blocks().contains_key(id)
                &&& final(self).local_pool().blocks()[id].req_id == u64::MAX
                &&& final(self).local_pool().blocks()[id].tier == tier
                &&& !final(self).remote().contains_key(id)
            },
            final(self).fabric_spec() == old(self).fabric_spec(),
    {
        match decode(payload.as_slice()) {
            Ok(_) => {},
            Err(e) => {
                return Err(e);
            },
        }
        let ids = match self.local.allocate(u64::MAX, tier, 1) {
            Ok(ids) => ids,
            Err(e) => {
                return Err(e);
            },
        };
        self.forget_remote(&ids);
        proof {
            assert(ids@.to_set().contains(ids@[0]));
            assert(ids@ == seq![ids@[0]]);
            assert(ids@.to_set() =~= set![ids@[0]]);
            assert(self.remote() =~= old(self).remote().remove(ids@[0]));
        }
        Ok(ids[0])
    }

    /// `Remote` for an offloaded block whose slot has not been reused since,
    /// `Local` otherwise.
    fn block_location(&self, block_id: u32) -> (loc: BlockLocation)
        ensures
            self.remote().contains_key(block_id) ==> (loc matches BlockLocation::Remote { fabric }
                && fabric@ == self.fabric_spec().spec_label()),
            !self.remote().contains_key(block_id) ==> loc == BlockLocation::Local,
    {
        if self.remote_ids.contains_key(&block_id) {
            BlockLocation::Remote { fabric: self.fabric.label() }
        } else {
            BlockLocation::Local
        }
    }
}

} // verus!
