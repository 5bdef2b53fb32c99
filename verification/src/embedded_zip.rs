//! Where a ZIP archive inside another file ends.

use vstd::prelude::*;

verus! {

/// The end record of a ZIP archive and its comment take at most this many bytes.
pub const MAX_END_RECORD: u64 = 65557;

/// Where the search for the end record begins: no further from the end of the file than the
/// record can be, and not before the archive.
pub open spec fn tail_start(file_len: int, zip_start: int) -> int {
    let earliest = if file_len >= MAX_END_RECORD {
        file_len - MAX_END_RECORD
    } else {
        0
    };
    if earliest > zip_start {
        earliest
    } else {
        zip_start
    }
}

/// The end record's signature stands at `i`, and the record is there in full.
pub open spec fn record_at(tail: Seq<u8>, i: int) -> bool {
    &&& 0 <= i && i + 22 <= tail.len()
    &&& tail[i] == 0x50 && tail[i + 1] == 0x4b && tail[i + 2] == 0x05 && tail[i + 3] == 0x06
}

/// The position in the tail behind the record at `i` and its comment.
pub open spec fn record_end(tail: Seq<u8>, i: int) -> int {
    i + 22 + tail[i + 20] + 256 * tail[i + 21]
}

/// A record at `i` whose comment does not run past the tail.
pub open spec fn fits_at(tail: Seq<u8>, i: int) -> bool {
    record_at(tail, i) && record_end(tail, i) <= tail.len()
}

/// Where the search for the end record begins; nothing for a file that ends before the archive
/// begins.
pub fn search_start(file_len: u64, zip_start_offset: u64) -> (r: Option<u64>)
    ensures
        match r {
            None => file_len <= zip_start_offset,
            Some(at) => {
                &&& file_len > zip_start_offset
                &&& at == tail_start(file_len as int, zip_start_offset as int)
                &&& zip_start_offset <= at < file_len
            },
        },
{
    if file_len <= zip_start_offset {
        return None;
    }
    let earliest: u64 = file_len.saturating_sub(MAX_END_RECORD);
    Some(if earliest > zip_start_offset {
        earliest
    } else {
        zip_start_offset
    })
}

/// The end of the archive whose end record stands last in `tail`, the bytes of the file from
/// `search_start` on. A record whose comment runs past the end of the file does not count.
pub fn detect_zip_end(search_start: u64, tail: &[u8]) -> (r: Option<u64>)
    requires
        search_start + tail@.len() <= u64::MAX,
    ensures
        match r {
            Some(end) => exists|i: int| #[trigger]
                fits_at(tail@, i) && end == search_start + record_end(tail@, i) && (forall|j: int|
                    i < j ==> !#[trigger] fits_at(tail@, j)),
            None => forall|i: int| !#[trigger] fits_at(tail@, i),
        },
{
    if tail.len() < 22 {
        return None;
    }
    let mut i: usize = tail.len() - 21;
    while i > 0
        invariant
            22 <= tail@.len(),
            i <= tail@.len() - 21,
            search_start + tail@.len() <= u64::MAX,
            forall|j: int| i <= j ==> !#[trigger] fits_at(tail@, j),
        decreases i,
    {
        i -= 1;
        if tail[i] == 0x50 && tail[i + 1] == 0x4b && tail[i + 2] == 0x05 && tail[i + 3] == 0x06 {
            let comment_len: u64 = tail[i + 20] as u64 + 256 * (tail[i + 21] as u64);
            let rest: u64 = (tail.len() - i - 22) as u64;
            if comment_len <= rest {
                assert(fits_at(tail@, i as int));
                return Some(search_start + i as u64 + 22 + comment_len);
            }
        }
    }
    None
}

/// The end that is found lies behind the start of the search by a whole record, and within the
/// file.
pub proof fn end_is_within_file(tail: Seq<u8>, i: int)
    requires
        fits_at(tail, i),
    ensures
        22 <= record_end(tail, i) <= tail.len(),
{
}

/// Nothing is missed by looking at the tail alone: a record of the file whose comment fits, and
/// which stands in the archive, stands in the tail where the comment reaches the end of the file.
pub proof fn tail_is_enough(file: Seq<u8>, zip_start: int, i: int)
    requires
        0 <= zip_start <= i,
        record_at(file, i),
        record_end(file, i) == file.len(),
    ensures
        tail_start(file.len() as int, zip_start) <= i,
{
}

} // verus!
