//! Content hashing with length-prefixed framing.
//!
//! A [`ContentHasher`] accumulates `(tag, data)` frames, each field preceded by
//! its byte length as a little-endian `u64`, and finalizes to the lowercase
//! hexadecimal SHA-256 digest of the framed stream. The framing makes the
//! stream a one-to-one encoding of its frames, so fields that contain
//! delimiter bytes cannot run into each other.

use vstd::prelude::*;
use sha2::Digest;
use crate::text::{hex_seq, hex_string};

verus! {

/// The SHA-256 digest of a byte sequence, as computed by the `sha2` crate.
pub uninterp spec fn sha256_digest(data: Seq<u8>) -> Seq<u8>;

/// SHA-256 of `data` (wraps `sha2::Sha256::digest`); the digest is 32 bytes.
#[verifier::external_body]
fn sha256(data: &Vec<u8>) -> (r: Vec<u8>)
    ensures
        r@ == sha256_digest(data@),
        r@.len() == 32,
{
    sha2::Sha256::digest(data.as_slice()).to_vec()
}

/// `256^k`.
pub open spec fn pow256(k: nat) -> nat
    decreases k,
{
    if k == 0 { 1 } else { 256 * pow256((k - 1) as nat) }
}

/// The `k` least significant bytes of `n`, least significant first.
pub open spec fn le_bytes(n: nat, k: nat) -> Seq<u8>
    decreases k,
{
    if k == 0 {
        Seq::empty()
    } else {
        seq![(n % 256) as u8] + le_bytes(n / 256, (k - 1) as nat)
    }
}

/// The value of little-endian bytes.
pub open spec fn le_value(b: Seq<u8>) -> nat
    decreases b.len(),
{
    if b.len() == 0 {
        0
    } else {
        b[0] as nat + 256 * le_value(b.drop_first())
    }
}

/// Reading back `k` little-endian bytes gives the value when it fits.
pub proof fn lemma_le_roundtrip(n: nat, k: nat)
    requires
        n < pow256(k),
    ensures
        le_bytes(n, k).len() == k,
        le_value(le_bytes(n, k)) == n,
    decreases k,
{
    if k > 0 {
        let p = pow256((k - 1) as nat);
        assert(n / 256 < p) by (nonlinear_arith)
            requires
                n < 256 * p,
        ;
        lemma_le_roundtrip(n / 256, (k - 1) as nat);
        let b = le_bytes(n, k);
        assert(b.drop_first() == le_bytes(n / 256, (k - 1) as nat));
    } else {
        assert(n == 0);
    }
}

/// `2^64 == 256^8`.
pub proof fn lemma_pow256_8()
    ensures
        pow256(8) == 0x1_0000_0000_0000_0000,
{
    reveal_with_fuel(pow256, 9);
}

/// One frame: the tag and the data, each preceded by its length as 8
/// little-endian bytes.
pub open spec fn frame(tag: Seq<u8>, data: Seq<u8>) -> Seq<u8> {
    le_bytes(tag.len(), 8) + tag + le_bytes(data.len(), 8) + data
}

/// The stream of a list of frames, in order.
pub open spec fn frames(list: Seq<(Seq<u8>, Seq<u8>)>) -> Seq<u8>
    decreases list.len(),
{
    if list.len() == 0 {
        Seq::empty()
    } else {
        frame(list[0].0, list[0].1) + frames(list.drop_first())
    }
}

/// Frames whose fields are shorter than `2^64` bytes.
pub open spec fn frames_fit(list: Seq<(Seq<u8>, Seq<u8>)>) -> bool {
    forall|i: int|
        0 <= i < list.len() ==> (#[trigger] list[i]).0.len() < 0x1_0000_0000_0000_0000
            && list[i].1.len() < 0x1_0000_0000_0000_0000
}

/// A frame at the front of a stream determines its fields and the rest.
proof fn lemma_frame_prefix(t1: Seq<u8>, d1: Seq<u8>, r1: Seq<u8>, t2: Seq<u8>, d2: Seq<u8>, r2: Seq<u8>)
    requires
        t1.len() < 0x1_0000_0000_0000_0000,
        d1.len() < 0x1_0000_0000_0000_0000,
        t2.len() < 0x1_0000_0000_0000_0000,
        d2.len() < 0x1_0000_0000_0000_0000,
        frame(t1, d1) + r1 == frame(t2, d2) + r2,
    ensures
        t1 == t2 && d1 == d2 && r1 == r2,
{
    lemma_pow256_8();
    lemma_le_roundtrip(t1.len(), 8);
    lemma_le_roundtrip(t2.len(), 8);
    lemma_le_roundtrip(d1.len(), 8);
    lemma_le_roundtrip(d2.len(), 8);
    let s = frame(t1, d1) + r1;
    assert(s.take(8) == le_bytes(t1.len(), 8));
    assert(s.take(8) == le_bytes(t2.len(), 8));
    assert(t1.len() == t2.len());
    let a: int = 8 + t1.len() as int;
    assert(s.subrange(8, a) == t1);
    assert(s.subrange(8, a) == t2);
    assert(s.subrange(a, a + 8) == le_bytes(d1.len(), 8));
    assert(s.subrange(a, a + 8) == le_bytes(d2.len(), 8));
    assert(d1.len() == d2.len());
    let b: int = a + 8 + d1.len() as int;
    assert(s.subrange(a + 8, b) == d1);
    assert(s.subrange(a + 8, b) == d2);
    assert(s.skip(b) == r1);
    assert(s.skip(b) == r2);
}

/// Framing is one-to-one: two frame lists with the same stream are the same list.
pub proof fn frames_are_injective(a: Seq<(Seq<u8>, Seq<u8>)>, b: Seq<(Seq<u8>, Seq<u8>)>)
    requires
        frames_fit(a),
        frames_fit(b),
        frames(a) == frames(b),
    ensures
        a == b,
    decreases a.len() + b.len(),
{
    lemma_pow256_8();
    if a.len() == 0 && b.len() == 0 {
        assert(a =~= b);
    } else if a.len() == 0 {
        lemma_le_roundtrip(b[0].0.len(), 8);
        assert(frames(b).len() >= 8);
    } else if b.len() == 0 {
        lemma_le_roundtrip(a[0].0.len(), 8);
        assert(frames(a).len() >= 8);
    } else {
        assert(a[0].0.len() < 0x1_0000_0000_0000_0000 && a[0].1.len() < 0x1_0000_0000_0000_0000);
        assert(b[0].0.len() < 0x1_0000_0000_0000_0000 && b[0].1.len() < 0x1_0000_0000_0000_0000);
        lemma_frame_prefix(a[0].0, a[0].1, frames(a.drop_first()), b[0].0, b[0].1, frames(b.drop_first()));
        assert(frames_fit(a.drop_first()));
        assert(frames_fit(b.drop_first()));
        frames_are_injective(a.drop_first(), b.drop_first());
        assert(a == seq![a[0]] + a.drop_first());
        assert(b == seq![b[0]] + b.drop_first());
    }
}

/// Appends the 8 little-endian bytes of `n`.
pub(crate) fn push_le64(buf: &mut Vec<u8>, n: u64)
    ensures
        final(buf)@ == old(buf)@ + le_bytes(n as nat, 8),
{
    let mut x = n;
    let mut k: usize = 0;
    while k < 8
        invariant
            k <= 8,
            buf@ + le_bytes(x as nat, (8 - k) as nat) == old(buf)@ + le_bytes(n as nat, 8),
        decreases 8 - k,
    {
        let b = (x % 256) as u8;
        proof {
            let rest = le_bytes((x / 256) as nat, (8 - k - 1) as nat);
            assert(le_bytes(x as nat, (8 - k) as nat) == seq![b] + rest);
            assert(buf@.push(b) + rest == buf@ + (seq![b] + rest));
        }
        buf.push(b);
        x = x / 256;
        k = k + 1;
    }
    assert(le_bytes(x as nat, 0) == Seq::<u8>::empty());
    assert(buf@ + Seq::<u8>::empty() == buf@);
}

/// Appends a slice's bytes.
pub(crate) fn push_bytes(buf: &mut Vec<u8>, data: &[u8])
    ensures
        final(buf)@ == old(buf)@ + data@,
{
    let mut i: usize = 0;
    while i < data.len()
        invariant
            i <= data@.len(),
            buf@ == old(buf)@ + data@.take(i as int),
        decreases data@.len() - i,
    {
        buf.push(data[i]);
        assert(data@.take(i + 1) == data@.take(i as int).push(data@[i as int]));
        i = i + 1;
    }
    assert(data@.take(data@.len() as int) == data@);
}

/// Incremental content hasher over length-prefixed `(tag, data)` frames.
pub struct ContentHasher {
    stream: Vec<u8>,
}

impl View for ContentHasher {
    type V = Seq<u8>;

    /// The framed byte stream fed so far.
    closed spec fn view(&self) -> Seq<u8> {
        self.stream@
    }
}

impl ContentHasher {
    /// A hasher that has been fed nothing.
    pub fn new() -> (h: Self)
        ensures
            h@ == Seq::<u8>::empty(),
    {
        ContentHasher { stream: Vec::new() }
    }

    /// Feeds one frame: the tag and the data, each preceded by its length.
    pub fn update_framed(&mut self, tag: &[u8], data: &[u8])
        ensures
            final(self)@ == old(self)@ + frame(tag@, data@),
    {
        push_le64(&mut self.stream, tag.len() as u64);
        push_bytes(&mut self.stream, tag);
        push_le64(&mut self.stream, data.len() as u64);
        push_bytes(&mut self.stream, data);
        assert(frame(tag@, data@) == le_bytes(tag@.len(), 8) + tag@ + le_bytes(data@.len(), 8) + data@);
    }

    /// The lowercase hexadecimal SHA-256 digest of the framed stream (64 characters).
    pub fn finalize_hex(&self) -> (r: String)
        ensures
            r@ == hex_seq(sha256_digest(self@)),
            r@.len() == 64,
    {
        let digest = sha256(&self.stream);
        hex_string(&digest)
    }
}

} // verus!
