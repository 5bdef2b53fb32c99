//! A quick hash of a file's beginning and end, by which known files are recognised.

use vstd::prelude::*;
use vstd::slice::slice_subrange;

verus! {

/// Content up to this size is hashed as a whole.
pub const SMALL_FILE_THRESHOLD: u64 = 131072;

/// So many bytes are taken from each end of larger content.
pub const SAMPLE_LEN: u64 = 65536;

/// The BLAKE3 hash of some bytes, in hexadecimal.
pub uninterp spec fn blake3_hex_of(bytes: Seq<u8>) -> Seq<char>;

/// A `blake3::Hasher` that is fed two byte strings one after the other hashes the one followed by
/// the other; `to_hex` writes the thirty-two bytes of the hash with sixty-four digits. The hash
/// depends on the bytes alone.
#[verifier::external_body]
fn blake3_hex(head: &[u8], tail: &[u8]) -> (r: String)
    ensures
        r@ == blake3_hex_of(head@ + tail@),
        r@.len() == 64,
{
    blake3::Hasher::new().update(head).update(tail).finalize().to_hex().to_string()
}

/// The bytes of some content that are hashed: all of it where it is small, and its two ends
/// otherwise.
pub open spec fn sample_of(content: Seq<u8>) -> Seq<u8> {
    if content.len() <= SMALL_FILE_THRESHOLD {
        content
    } else {
        content.take(SAMPLE_LEN as int) + content.skip(content.len() - SAMPLE_LEN)
    }
}

/// Two parts of a file to be read, each from an offset on for a number of bytes.
#[derive(Clone, Copy, Debug, PartialEq, Eq, Structural)]
pub struct SamplePlan {
    pub head_offset: u64,
    pub head_len: u64,
    pub tail_offset: u64,
    pub tail_len: u64,
}

/// The plan reads the sample of the bytes from `offset` on for `size` bytes.
pub open spec fn plans(plan: SamplePlan, offset: u64, size: u64) -> bool {
    &&& plan.head_offset == offset
    &&& if size <= SMALL_FILE_THRESHOLD {
        plan.head_len == size && plan.tail_len == 0 && plan.tail_offset == offset + size
    } else {
        plan.head_len == SAMPLE_LEN && plan.tail_len == SAMPLE_LEN && plan.tail_offset == offset
            + size - SAMPLE_LEN
    }
}

/// Which parts of a file are read to recognise the content that stands in it from `offset` on for
/// `size` bytes.
pub fn sample_plan(offset: u64, size: u64) -> (r: SamplePlan)
    requires
        offset + size <= u64::MAX,
    ensures
        plans(r, offset, size),
{
    if size <= SMALL_FILE_THRESHOLD {
        SamplePlan { head_offset: offset, head_len: size, tail_offset: offset + size, tail_len: 0 }
    } else {
        SamplePlan {
            head_offset: offset,
            head_len: SAMPLE_LEN,
            tail_offset: offset + size - SAMPLE_LEN,
            tail_len: SAMPLE_LEN,
        }
    }
}

/// The parts that are read for content inside another file. Content of unknown size, or of none,
/// cannot be recognised.
pub fn segment_plan(offset: u64, size: Option<u64>) -> (r: Option<SamplePlan>)
    requires
        size is Some ==> offset + size->0 <= u64::MAX,
    ensures
        match r {
            Some(plan) => size is Some && size->0 > 0 && plans(plan, offset, size->0),
            None => size is None || size->0 == 0,
        },
{
    match size {
        None => None,
        Some(n) => {
            if n == 0 {
                None
            } else {
                Some(sample_plan(offset, n))
            }
        },
    }
}

/// The hash of a sample that was read in two parts.
pub fn hash_parts(head: &[u8], tail: &[u8]) -> (r: String)
    ensures
        r@ == blake3_hex_of(head@ + tail@),
        r@.len() == 64,
{
    blake3_hex(head, tail)
}

/// The hash of some content and its size. Both together stand for the content.
pub fn sample_hash(content: &[u8]) -> (r: (String, u64))
    ensures
        r.0@ == blake3_hex_of(sample_of(content@)),
        r.0@.len() == 64,
        r.1 == content@.len(),
{
    let size: usize = content.len();
    if size as u64 <= SMALL_FILE_THRESHOLD {
        let rest = slice_subrange(content, size, size);
        assert(content@ + rest@ =~= content@);
        return (hash_parts(content, rest), size as u64);
    }
    let head = slice_subrange(content, 0, SAMPLE_LEN as usize);
    let tail = slice_subrange(content, size - SAMPLE_LEN as usize, size);
    assert(head@ + tail@ =~= sample_of(content@));
    (hash_parts(head, tail), size as u64)
}

/// The hash of the content that stands in `host` from `offset` on, and its size. Nothing where
/// the size is unknown or zero, or where the host ends before the content does.
pub fn sample_hash_segment(host: &[u8], offset: usize, size: Option<usize>) -> (r: Option<
    (String, u64),
>)
    ensures
        match r {
            Some((hash, n)) => {
                &&& size is Some && size->0 > 0 && offset + size->0 <= host@.len()
                &&& n == size->0
                &&& hash@ == blake3_hex_of(
                    sample_of(host@.subrange(offset as int, offset + size->0)),
                )
            },
            None => size is None || size->0 == 0 || offset + size->0 > host@.len(),
        },
{
    match size {
        None => None,
        Some(n) => {
            if n == 0 || offset > host.len() || n > host.len() - offset {
                return None;
            }
            Some(sample_hash(slice_subrange(host, offset, offset + n)))
        },
    }
}

/// What the plan reads is the sample.
pub proof fn plan_reads_sample(file: Seq<u8>, plan: SamplePlan, offset: u64, size: u64)
    requires
        plans(plan, offset, size),
        offset + size <= file.len(),
    ensures
        file.subrange(plan.head_offset as int, plan.head_offset + plan.head_len) + file.subrange(
            plan.tail_offset as int,
            plan.tail_offset + plan.tail_len,
        ) == sample_of(file.subrange(offset as int, offset + size)),
{
    assert(file.subrange(plan.head_offset as int, plan.head_offset + plan.head_len)
        + file.subrange(plan.tail_offset as int, plan.tail_offset + plan.tail_len) =~= sample_of(
        file.subrange(offset as int, offset + size),
    ));
}

/// Small content is hashed as a whole: its sample is the content.
pub proof fn small_content_is_its_sample(content: Seq<u8>)
    requires
        content.len() <= SMALL_FILE_THRESHOLD,
    ensures
        sample_of(content) == content,
{
}

/// What lies between the two ends of large content does not count.
pub proof fn middle_does_not_count(a: Seq<u8>, b: Seq<u8>)
    requires
        a.len() == b.len(),
        a.len() > SMALL_FILE_THRESHOLD,
        forall|i: int| 0 <= i < SAMPLE_LEN ==> a[i] == b[i],
        forall|i: int| a.len() - SAMPLE_LEN <= i < a.len() ==> a[i] == b[i],
    ensures
        sample_of(a) == sample_of(b),
{
    assert(sample_of(a) =~= sample_of(b));
}

/// Both ends count: large content that differs in one of them has another sample.
pub proof fn ends_count(a: Seq<u8>, b: Seq<u8>, i: int)
    requires
        a.len() == b.len(),
        a.len() > SMALL_FILE_THRESHOLD,
        0 <= i < SAMPLE_LEN || a.len() - SAMPLE_LEN <= i < a.len(),
        a[i] != b[i],
    ensures
        sample_of(a) != sample_of(b),
{
    if i < SAMPLE_LEN {
        assert(sample_of(a)[i] == a[i]);
        assert(sample_of(b)[i] == b[i]);
    } else {
        let k = i - (a.len() - SAMPLE_LEN) + SAMPLE_LEN;
        assert(sample_of(a)[k] == a[i]);
        assert(sample_of(b)[k] == b[i]);
    }
}

} // verus!
