//! Digest policy: the empty-content constant, the whole-content digest, and
//! the three-window sampled digest for large files.

use vstd::prelude::*;

use md5::Digest;

verus! {

/// Bytes in one sampling window.
pub const WINDOW_SIZE: u64 = 65536;

/// Largest size that the sampling hasher reads whole: three windows.
pub const SAMPLE_LIMIT: u64 = 196608;

/// What the MD5 function returns for a byte sequence.
pub uninterp spec fn md5_of(bytes: Seq<u8>) -> Seq<u8>;

/// Relies on `md5::Md5::digest` (crate `md-5`): the 16-byte MD5 digest of the
/// input, a function of the input bytes alone.
#[verifier::external_body]
fn md5_digest(bytes: &Vec<u8>) -> (r: Vec<u8>)
    ensures
        r@ == md5_of(bytes@),
        r@.len() == 16,
{
    md5::Md5::digest(bytes.as_slice()).to_vec()
}

/// The well-known MD5 digest of the empty byte sequence.
pub open spec fn empty_digest_spec() -> Seq<u8> {
    seq![
        0xd4u8, 0x1d, 0x8c, 0xd9, 0x8f, 0x00, 0xb2, 0x04,
        0xe9, 0x80, 0x09, 0x98, 0xec, 0xf8, 0x42, 0x7e,
    ]
}

/// The digest that the whole-content stage assigns: the empty-content
/// constant for an empty file, otherwise the MD5 of all the bytes.
pub open spec fn full_digest_spec(content: Seq<u8>) -> Seq<u8> {
    if content.len() == 0 {
        empty_digest_spec()
    } else {
        md5_of(content)
    }
}

/// Start of the window centered at the midpoint of a file of this size.
pub open spec fn mid_offset_spec(size: int) -> int {
    size / 2 - (WINDOW_SIZE as int) / 2
}

/// The three sampled windows of a large file, concatenated in fixed order:
/// the first window, the window centered at the midpoint, the last window.
pub open spec fn sample_spec(content: Seq<u8>) -> Seq<u8> {
    let size = content.len() as int;
    content.subrange(0, WINDOW_SIZE as int)
        + content.subrange(mid_offset_spec(size), mid_offset_spec(size) + WINDOW_SIZE as int)
        + content.subrange(size - WINDOW_SIZE as int, size)
}

/// The digest that the sampling stage assigns: equal to the whole-content
/// digest up to three windows of size, the MD5 of the three windows beyond.
pub open spec fn partial_digest_spec(content: Seq<u8>) -> Seq<u8> {
    if content.len() <= SAMPLE_LIMIT {
        full_digest_spec(content)
    } else {
        md5_of(sample_spec(content))
    }
}

/// The empty-content digest constant as a vector.
pub fn empty_digest() -> (r: Vec<u8>)
    ensures
        r@ == empty_digest_spec(),
        r@.len() == 16,
{
    let mut v: Vec<u8> = Vec::new();
    v.push(0xd4);
    v.push(0x1d);
    v.push(0x8c);
    v.push(0xd9);
    v.push(0x8f);
    v.push(0x00);
    v.push(0xb2);
    v.push(0x04);
    v.push(0xe9);
    v.push(0x80);
    v.push(0x09);
    v.push(0x98);
    v.push(0xec);
    v.push(0xf8);
    v.push(0x42);
    v.push(0x7e);
    proof {
        assert(v@ =~= empty_digest_spec());
    }
    v
}

/// Whole-content digest of a file whose bytes were read in full.
pub fn full_digest(content: &Vec<u8>) -> (r: Vec<u8>)
    ensures
        r@ == full_digest_spec(content@),
        r@.len() == 16,
{
    if content.len() == 0 {
        empty_digest()
    } else {
        md5_digest(content)
    }
}

/// Sampled digest of a file small enough to be read whole: by policy it
/// equals the whole-content digest.
pub fn partial_digest_small(content: &Vec<u8>) -> (r: Vec<u8>)
    requires
        content@.len() <= SAMPLE_LIMIT,
    ensures
        r@ == partial_digest_spec(content@),
        r@.len() == 16,
{
    full_digest(content)
}

/// Where the caller must read the middle and the last window of a large
/// file: returns the two byte offsets.
pub fn sample_offsets(size: u64) -> (r: (u64, u64))
    requires
        size > SAMPLE_LIMIT,
    ensures
        r.0 == mid_offset_spec(size as int),
        r.1 == size - WINDOW_SIZE,
{
    (size / 2 - WINDOW_SIZE / 2, size - WINDOW_SIZE)
}

fn append_bytes(dst: &mut Vec<u8>, src: &Vec<u8>)
    ensures
        final(dst)@ == old(dst)@ + src@,
{
    let ghost dst0 = dst@;
    let mut i: usize = 0;
    while i < src.len()
        invariant
            i <= src@.len(),
            dst@ == dst0 + src@.take(i as int),
        decreases src@.len() - i,
    {
        dst.push(src[i]);
        proof {
            assert(dst0 + src@.take(i as int) + seq![src@[i as int]] =~= dst0 + src@.take(
                i as int + 1,
            ));
        }
        i += 1;
    }
    proof {
        assert(dst0 + src@.take(src@.len() as int) =~= dst0 + src@);
    }
}

/// Sampled digest of a large file, from its three windows as read by the
/// caller: the first window, the window starting at the middle offset that
/// `sample_offsets` gives, and the last window. For every content of the
/// given size whose windows these are, the result is its sampled digest.
pub fn partial_digest_sampled(size: u64, head: &Vec<u8>, mid: &Vec<u8>, tail: &Vec<u8>) -> (r: Vec<
    u8,
>)
    requires
        size > SAMPLE_LIMIT,
        head@.len() == WINDOW_SIZE,
        mid@.len() == WINDOW_SIZE,
        tail@.len() == WINDOW_SIZE,
    ensures
        r@.len() == 16,
        forall|content: Seq<u8>|
            #![trigger partial_digest_spec(content)]
            content.len() == size && content.subrange(0, WINDOW_SIZE as int) == head@
                && content.subrange(
                mid_offset_spec(size as int),
                mid_offset_spec(size as int) + WINDOW_SIZE as int,
            ) == mid@ && content.subrange(size - WINDOW_SIZE as int, size as int) == tail@
                ==> r@ == partial_digest_spec(content),
{
    let mut buf: Vec<u8> = Vec::new();
    append_bytes(&mut buf, head);
    append_bytes(&mut buf, mid);
    append_bytes(&mut buf, tail);
    let r = md5_digest(&buf);
    proof {
        assert forall|content: Seq<u8>|
            content.len() == size && content.subrange(0, WINDOW_SIZE as int) == head@
                && content.subrange(
                mid_offset_spec(size as int),
                mid_offset_spec(size as int) + WINDOW_SIZE as int,
            ) == mid@ && content.subrange(size - WINDOW_SIZE as int, size as int) == tail@
                implies r@ == #[trigger] partial_digest_spec(content) by {
            assert(sample_spec(content) == buf@);
        }
    }
    r
}

/// For a file of size zero, the sampled digest and the whole-content digest
/// are both the fixed empty-content digest constant.
pub proof fn lemma_empty_digest(content: Seq<u8>)
    requires
        content.len() == 0,
    ensures
        partial_digest_spec(content) == empty_digest_spec(),
        full_digest_spec(content) == empty_digest_spec(),
{
}

/// For a file no larger than three windows, the sampled digest equals the
/// whole-content digest.
pub proof fn lemma_small_file_equivalence(content: Seq<u8>)
    requires
        content.len() <= SAMPLE_LIMIT,
    ensures
        partial_digest_spec(content) == full_digest_spec(content),
{
}

/// For a large file, the sampled digest depends only on the three windows:
/// two contents of equal size that agree on the first window, the window at
/// the middle offset and the last window have equal sampled digests.
pub proof fn lemma_sample_windows_determine(c1: Seq<u8>, c2: Seq<u8>)
    requires
        c1.len() == c2.len(),
        c1.len() > SAMPLE_LIMIT,
        c1.subrange(0, WINDOW_SIZE as int) == c2.subrange(0, WINDOW_SIZE as int),
        c1.subrange(
            mid_offset_spec(c1.len() as int),
            mid_offset_spec(c1.len() as int) + WINDOW_SIZE as int,
        ) == c2.subrange(
            mid_offset_spec(c2.len() as int),
            mid_offset_spec(c2.len() as int) + WINDOW_SIZE as int,
        ),
        c1.subrange(c1.len() - WINDOW_SIZE as int, c1.len() as int) == c2.subrange(
            c2.len() - WINDOW_SIZE as int,
            c2.len() as int,
        ),
    ensures
        partial_digest_spec(c1) == partial_digest_spec(c2),
{
    assert(sample_spec(c1) == sample_spec(c2));
}

} // verus!
