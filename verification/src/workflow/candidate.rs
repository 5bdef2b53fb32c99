//! What is tried on a candidate, and what its file is worth.

use vstd::prelude::*;
use crate::path::{join, path_extension, path_starts_with};
use crate::text::{chars_of, lowered_chars, same_text, text_of};
use crate::types::{ArchiveFormat, CandidateSource, ExtractionCandidate, PasswordCandidate, PasswordSource};

verus! {

/// One of the passwords has this value.
pub open spec fn has_value(s: Seq<PasswordCandidate>, value: Seq<char>) -> bool {
    exists|i: int| 0 <= i < s.len() && (#[trigger] s[i]).value@ == value
}

/// The first password of each value, in order.
pub open spec fn first_of_each(s: Seq<PasswordCandidate>) -> Seq<PasswordCandidate>
    decreases s.len(),
{
    if s.len() == 0 {
        Seq::empty()
    } else if has_value(s.drop_last(), s.last().value@) {
        first_of_each(s.drop_last())
    } else {
        first_of_each(s.drop_last()).push(s.last())
    }
}

/// The passwords that the user gave, or the others, in order.
pub open spec fn given(s: Seq<PasswordCandidate>, by_user: bool) -> Seq<PasswordCandidate>
    decreases s.len(),
{
    if s.len() == 0 {
        Seq::empty()
    } else if (s.last().source == PasswordSource::Manual) == by_user {
        given(s.drop_last(), by_user).push(s.last())
    } else {
        given(s.drop_last(), by_user)
    }
}

/// All passwords in the order in which they are tried, some of them more than once.
pub open spec fn in_turn(
    base: Seq<PasswordCandidate>,
    known: Option<PasswordCandidate>,
    batch: Seq<PasswordCandidate>,
) -> Seq<PasswordCandidate> {
    let exact = match known {
        Some(password) => seq![password],
        None => Seq::empty(),
    };
    given(base, true) + exact + batch + given(base, false)
}

proof fn lemma_values_stay(s: Seq<PasswordCandidate>, value: Seq<char>)
    ensures
        has_value(first_of_each(s), value) == has_value(s, value),
    decreases s.len(),
{
    if s.len() > 0 {
        let rest = s.drop_last();
        lemma_values_stay(rest, value);
        let kept = first_of_each(rest);
        if has_value(kept, value) {
            let i = choose|i: int| 0 <= i < kept.len() && (#[trigger] kept[i]).value@ == value;
            assert(kept.push(s.last())[i].value@ == value);
        }
        if has_value(rest, value) {
            let i = choose|i: int| 0 <= i < rest.len() && (#[trigger] rest[i]).value@ == value;
            assert(s[i].value@ == value);
        }
        if s.last().value@ == value {
            assert(s[s.len() - 1].value@ == value);
            if !has_value(rest, value) {
                assert(kept.push(s.last())[kept.len() as int].value@ == value);
            }
        }
        if has_value(s, value) && !has_value(rest, value) {
            let i = choose|i: int| 0 <= i < s.len() && (#[trigger] s[i]).value@ == value;
            if i < rest.len() {
                assert(rest[i].value@ == value);
            }
        }
        if has_value(first_of_each(s), value) && !has_value(kept, value) {
            let all = first_of_each(s);
            let i = choose|i: int| 0 <= i < all.len() && (#[trigger] all[i]).value@ == value;
            if i < kept.len() {
                assert(kept[i].value@ == value);
            }
        }
    }
}

fn is_among(s: &Vec<PasswordCandidate>, value: &str) -> (r: bool)
    ensures
        r == has_value(s@, value@),
{
    let mut i: usize = 0;
    while i < s.len()
        invariant
            i <= s@.len(),
            forall|k: int| 0 <= k < i ==> (#[trigger] s@[k]).value@ != value@,
        decreases s.len() - i,
    {
        if same_text(s[i].value.as_str(), value) {
            assert(s@[i as int].value@ == value@);
            return true;
        }
        i += 1;
    }
    false
}

fn add_candidate(
    out: &mut Vec<PasswordCandidate>,
    password: &PasswordCandidate,
    so_far: Ghost<Seq<PasswordCandidate>>,
)
    requires
        old(out)@ == first_of_each(so_far@),
    ensures
        final(out)@ == first_of_each(so_far@.push(*password)),
{
    proof {
        lemma_values_stay(so_far@, password.value@);
        assert(so_far@.push(*password).drop_last() =~= so_far@);
    }
    if !is_among(out, password.value.as_str()) {
        out.push(password.clone());
    }
}

fn add_given(
    out: &mut Vec<PasswordCandidate>,
    base: &Vec<PasswordCandidate>,
    by_user: bool,
    so_far: Ghost<Seq<PasswordCandidate>>,
)
    requires
        old(out)@ == first_of_each(so_far@),
    ensures
        final(out)@ == first_of_each(so_far@ + given(base@, by_user)),
{
    let mut i: usize = 0;
    assert(base@.take(0) =~= Seq::empty());
    assert(so_far@ + given(base@.take(0), by_user) =~= so_far@);
    while i < base.len()
        invariant
            i <= base@.len(),
            out@ == first_of_each(so_far@ + given(base@.take(i as int), by_user)),
        decreases base.len() - i,
    {
        let ghost before = given(base@.take(i as int), by_user);
        assert(base@.take(i + 1).drop_last() =~= base@.take(i as int));
        assert(base@.take(i + 1).last() == base@[i as int]);
        if (base[i].source == PasswordSource::Manual) == by_user {
            add_candidate(out, &base[i], Ghost(so_far@ + before));
            assert((so_far@ + before).push(base@[i as int]) =~= so_far@ + before.push(
                base@[i as int],
            ));
        }
        i += 1;
    }
    assert(base@.take(i as int) =~= base@);
}

/// The passwords in the order in which they are tried: those that the user gave, the one that
/// opened this very file before, those that opened other files of the batch, and then the rest.
/// None is tried twice.
pub fn order_candidates(
    base: &Vec<PasswordCandidate>,
    known: &Option<PasswordCandidate>,
    batch: &Vec<PasswordCandidate>,
) -> (r: Vec<PasswordCandidate>)
    ensures
        r@ == first_of_each(in_turn(base@, *known, batch@)),
{
    let mut out: Vec<PasswordCandidate> = Vec::new();
    let ghost manual = given(base@, true);
    assert(Seq::<PasswordCandidate>::empty() + manual =~= manual);
    add_given(&mut out, base, true, Ghost(Seq::empty()));
    let ghost mut exact: Seq<PasswordCandidate> = Seq::empty();
    assert(manual + exact =~= manual);
    if let Some(password) = known {
        add_candidate(&mut out, password, Ghost(manual));
        proof {
            exact = seq![*password];
            assert(manual.push(*password) =~= manual + exact);
        }
    }
    let mut i: usize = 0;
    let ghost front = manual + exact;
    assert(front + batch@.take(0) =~= front);
    while i < batch.len()
        invariant
            i <= batch@.len(),
            out@ == first_of_each(front + batch@.take(i as int)),
        decreases batch.len() - i,
    {
        add_candidate(&mut out, &batch[i], Ghost(front + batch@.take(i as int)));
        assert((front + batch@.take(i as int)).push(batch@[i as int]) =~= front + batch@.take(
            i + 1,
        ));
        i += 1;
    }
    assert(batch@.take(i as int) =~= batch@);
    add_given(&mut out, base, false, Ghost(front + batch@));
    out
}

/// No password is tried twice.
pub proof fn passwords_are_tried_once(s: Seq<PasswordCandidate>)
    ensures
        forall|i: int, j: int|
            0 <= i < j < first_of_each(s).len() ==> (#[trigger] first_of_each(s)[i]).value@ != (
            #[trigger] first_of_each(s)[j]).value@,
    decreases s.len(),
{
    if s.len() > 0 {
        let rest = s.drop_last();
        passwords_are_tried_once(rest);
        lemma_values_stay(rest, s.last().value@);
    }
}

/// No password is left out.
pub proof fn passwords_are_all_tried(s: Seq<PasswordCandidate>, i: int)
    requires
        0 <= i < s.len(),
    ensures
        has_value(first_of_each(s), s[i].value@),
{
    lemma_values_stay(s, s[i].value@);
}

/// The format that an extension stands for.
pub open spec fn extension_format(extension: Seq<char>) -> Option<ArchiveFormat> {
    let e = crate::text::lowered(extension);
    if e == "zip"@ {
        Some(ArchiveFormat::Zip)
    } else if e == "7z"@ {
        Some(ArchiveFormat::SevenZip)
    } else if e == "rar"@ {
        Some(ArchiveFormat::Rar)
    } else if e == "tar"@ {
        Some(ArchiveFormat::Tar)
    } else if e == "gz"@ || e == "gzip"@ || e == "tgz"@ {
        Some(ArchiveFormat::Gzip)
    } else if e == "bz2"@ {
        Some(ArchiveFormat::Bzip2)
    } else if e == "xz"@ {
        Some(ArchiveFormat::Xz)
    } else if e == "cab"@ {
        Some(ArchiveFormat::Cab)
    } else if e == "iso"@ {
        Some(ArchiveFormat::Iso)
    } else if e == "dmg"@ {
        Some(ArchiveFormat::Dmg)
    } else if e == "zst"@ || e == "zstd"@ {
        Some(ArchiveFormat::Zstd)
    } else if e == "lz4"@ {
        Some(ArchiveFormat::Lz4)
    } else if e == "lzma"@ {
        Some(ArchiveFormat::Lzma)
    } else {
        None
    }
}

/// The format that a file has by its name.
pub fn format_from_extension(path: &str) -> (r: Option<ArchiveFormat>)
    ensures
        r == (match crate::path::extension(path@) {
            Some(extension) => extension_format(extension),
            None => None,
        }),
{
    let extension: String = match path_extension(path) {
        Some(extension) => extension,
        None => {
            return None;
        },
    };
    let lower: String = text_of(&lowered_chars(&chars_of(extension.as_str())));
    let e: &str = lower.as_str();
    if same_text(e, "zip") {
        Some(ArchiveFormat::Zip)
    } else if same_text(e, "7z") {
        Some(ArchiveFormat::SevenZip)
    } else if same_text(e, "rar") {
        Some(ArchiveFormat::Rar)
    } else if same_text(e, "tar") {
        Some(ArchiveFormat::Tar)
    } else if same_text(e, "gz") || same_text(e, "gzip") || same_text(e, "tgz") {
        Some(ArchiveFormat::Gzip)
    } else if same_text(e, "bz2") {
        Some(ArchiveFormat::Bzip2)
    } else if same_text(e, "xz") {
        Some(ArchiveFormat::Xz)
    } else if same_text(e, "cab") {
        Some(ArchiveFormat::Cab)
    } else if same_text(e, "iso") {
        Some(ArchiveFormat::Iso)
    } else if same_text(e, "dmg") {
        Some(ArchiveFormat::Dmg)
    } else if same_text(e, "zst") || same_text(e, "zstd") {
        Some(ArchiveFormat::Zstd)
    } else if same_text(e, "lz4") {
        Some(ArchiveFormat::Lz4)
    } else if same_text(e, "lzma") {
        Some(ArchiveFormat::Lzma)
    } else {
        None
    }
}

/// Whether a finding is large enough. One of unknown size is.
pub fn finding_meets_min_size(size: Option<u64>, min_finding_size_bytes: u64) -> (r: bool)
    ensures
        r == (size is None || size->0 >= min_finding_size_bytes),
{
    match size {
        Some(n) => n >= min_finding_size_bytes,
        None => true,
    }
}

/// Where the output of a candidate goes.
pub fn output_dir_for_candidate(output_dir: &str, candidate: &ExtractionCandidate) -> (r: String)
    ensures
        r@ == crate::path::joined(output_dir@, candidate.relative_path@),
{
    join(output_dir, candidate.relative_path.as_str())
}

/// Whether a candidate's file may be thrown away once it is extracted: it came out of an archive,
/// is an archive from its start on, and lies in the output of the task.
pub fn is_recyclable(candidate: &ExtractionCandidate, output_dir: &str) -> (r: bool)
    ensures
        r == (candidate.source == CandidateSource::ExtractedFile && (candidate.embedded_offset
            is None || candidate.embedded_offset == Some(0u64)) && crate::path::below(
            candidate.path@,
            output_dir@,
        )),
        r ==> candidate.source != CandidateSource::RootInput && candidate.source
            != CandidateSource::EmbeddedFinding,
        candidate.embedded_offset is Some && candidate.embedded_offset->0 > 0 ==> !r,
        !crate::path::below(candidate.path@, output_dir@) ==> !r,
{
    let from_start: bool = match candidate.embedded_offset {
        None => true,
        Some(offset) => offset == 0,
    };
    candidate.source == CandidateSource::ExtractedFile && from_start && path_starts_with(
        candidate.path.as_str(),
        output_dir,
    )
}

/// The files that an extracted root came from: the volumes of its set, or the file that the user
/// named. An archive that was found on the way has none.
pub fn source_paths(source: CandidateSource, members: &Option<Vec<String>>, original: &str) -> (r: Vec<
    String,
>)
    ensures
        crate::text::texts(r@) == (if source != CandidateSource::RootInput {
            Seq::empty()
        } else {
            match members {
                Some(paths) => crate::text::texts(paths@),
                None => seq![original@],
            }
        }),
        source != CandidateSource::RootInput ==> r@.len() == 0,
        source == CandidateSource::RootInput && *members is None ==> r@.len() == 1 && r@[0]@ == original@,
        source == CandidateSource::RootInput && *members is Some ==> r@.len() == members->0@.len(),
{
    let mut paths: Vec<String> = Vec::new();
    if source == CandidateSource::RootInput {
        match members {
            Some(all) => {
                let mut i: usize = 0;
                while i < all.len()
                    invariant
                        i <= all@.len(),
                        paths@.len() == i,
                        forall|k: int| 0 <= k < i ==> (#[trigger] paths@[k])@ == all@[k]@,
                    decreases all.len() - i,
                {
                    paths.push(all[i].clone());
                    i += 1;
                }
                assert(crate::text::texts(paths@) =~= crate::text::texts(all@));
            },
            None => {
                paths.push(original.to_owned());
                assert(crate::text::texts(paths@) =~= seq![original@]);
            },
        }
    }
    assert(paths@.len() == 0 ==> crate::text::texts(paths@) =~= Seq::<Seq<char>>::empty());
    paths
}

proof fn lemma_given(s: Seq<PasswordCandidate>, by_user: bool)
    ensures
        forall|i: int|
            0 <= i < given(s, by_user).len() ==> ((#[trigger] given(s, by_user)[i]).source
                == PasswordSource::Manual) == by_user && s.contains(given(s, by_user)[i]),
        forall|i: int|
            0 <= i < s.len() && ((#[trigger] s[i]).source == PasswordSource::Manual) == by_user
                ==> given(s, by_user).contains(s[i]),
    decreases s.len(),
{
    if s.len() > 0 {
        let rest = s.drop_last();
        let all = given(s, by_user);
        let before = given(rest, by_user);
        lemma_given(rest, by_user);
        assert forall|i: int| 0 <= i < all.len() implies ((#[trigger] all[i]).source
            == PasswordSource::Manual) == by_user && s.contains(all[i]) by {
            if i < before.len() {
                assert(all[i] == before[i]);
                let k = choose|k: int| 0 <= k < rest.len() && rest[k] == before[i];
                assert(s[k] == all[i]);
            } else {
                assert(s[s.len() - 1] == all[i]);
            }
        }
        assert forall|i: int|
            0 <= i < s.len() && ((#[trigger] s[i]).source == PasswordSource::Manual)
                == by_user implies all.contains(s[i]) by {
            if i < rest.len() {
                assert(rest[i] == s[i]);
                let k = choose|k: int| 0 <= k < before.len() && before[k] == rest[i];
                assert(all[k] == s[i]);
            } else {
                assert(all[all.len() - 1] == s[i]);
            }
        }
    }
}

/// The passwords that the user gave are tried first, then the one that is known to fit this very
/// file, then those that fitted in this batch, and then the stored ones. None of them is left out,
/// and no other is tried.
pub proof fn passwords_are_tried_in_this_order(
    base: Seq<PasswordCandidate>,
    known: Option<PasswordCandidate>,
    batch: Seq<PasswordCandidate>,
)
    ensures
        ({
            let all = in_turn(base, known, batch);
            let (n, m) = (given(base, true).len() as int, given(base, false).len() as int);
            let exact: int = if known is Some {
                1
            } else {
                0
            };
            &&& all.len() == n + exact + batch.len() + m
            &&& forall|i: int|
                0 <= i < n ==> (#[trigger] all[i]).source == PasswordSource::Manual
                    && base.contains(all[i])
            &&& known is Some ==> all[n] == known->0
            &&& forall|i: int| 0 <= i < batch.len() ==> all[n + exact + i] == #[trigger] batch[i]
            &&& forall|i: int|
                n + exact + batch.len() <= i < all.len() ==> (#[trigger] all[i]).source
                    != PasswordSource::Manual && base.contains(all[i])
            &&& forall|i: int| 0 <= i < base.len() ==> all.contains(#[trigger] base[i])
        }),
{
    lemma_given(base, true);
    lemma_given(base, false);
    let all = in_turn(base, known, batch);
    let (user, rest) = (given(base, true), given(base, false));
    let exact: int = if known is Some {
        1
    } else {
        0
    };
    let start = user.len() + exact + batch.len();
    assert forall|i: int| 0 <= i < base.len() implies all.contains(#[trigger] base[i]) by {
        if base[i].source == PasswordSource::Manual {
            let k = choose|k: int| 0 <= k < user.len() && user[k] == base[i];
            assert(all[k] == base[i]);
        } else {
            let k = choose|k: int| 0 <= k < rest.len() && rest[k] == base[i];
            assert(all[start + k] == base[i]);
        }
    }
    assert forall|i: int| start <= i < all.len() implies (#[trigger] all[i]).source
        != PasswordSource::Manual && base.contains(all[i]) by {
        assert(all[i] == rest[i - start]);
    }
    assert forall|i: int| 0 <= i < user.len() implies (#[trigger] all[i]).source
        == PasswordSource::Manual && base.contains(all[i]) by {
        assert(all[i] == user[i]);
    }
}

/// Of passwords with one value the first is the one that is tried, so what comes first in turn is
/// tried first.
pub proof fn first_in_turn_is_tried_first(s: Seq<PasswordCandidate>)
    requires
        s.len() > 0,
    ensures
        first_of_each(s).len() > 0,
        first_of_each(s)[0] == s[0],
        first_of_each(s).len() <= s.len(),
    decreases s.len(),
{
    if s.len() > 1 {
        first_in_turn_is_tried_first(s.drop_last());
    } else {
        assert(s.drop_last().len() == 0);
        assert(first_of_each(s.drop_last()).len() == 0);
    }
}

/// The name of a format is an extension of it, but for the one that is written in short only, and
/// case does not count.
pub proof fn formats_have_their_name_as_extension(format: ArchiveFormat, extension: Seq<char>)
    ensures
        format !is Unknown && format !is Bzip2 ==> extension_format(format.text()) == Some(format),
        extension_format(crate::text::lowered(extension)) == extension_format(extension),
        extension_format(extension) matches Some(found) ==> found !is Unknown,
{
    reveal_strlit("zip");
    reveal_strlit("7z");
    reveal_strlit("rar");
    reveal_strlit("tar");
    reveal_strlit("gz");
    reveal_strlit("gzip");
    reveal_strlit("tgz");
    reveal_strlit("bz2");
    reveal_strlit("xz");
    reveal_strlit("cab");
    reveal_strlit("iso");
    reveal_strlit("dmg");
    reveal_strlit("zst");
    reveal_strlit("zstd");
    reveal_strlit("lz4");
    reveal_strlit("lzma");
    crate::text::lower_case_keeps_the_rest(extension, 0);
    assert("zip"@.len() == 3 && "7z"@.len() == 2 && "rar"@.len() == 3 && "tar"@.len() == 3
        && "gz"@.len() == 2 && "gzip"@.len() == 4 && "tgz"@.len() == 3 && "bz2"@.len() == 3
        && "xz"@.len() == 2 && "cab"@.len() == 3 && "iso"@.len() == 3 && "dmg"@.len() == 3
        && "zst"@.len() == 3 && "zstd"@.len() == 4 && "lz4"@.len() == 3 && "lzma"@.len() == 4);
    assert("zip"@[0] == 'z' && "zip"@[1] == 'i' && "7z"@[0] == '7' && "rar"@[0] == 'r' && "tar"@[0]
        == 't' && "tar"@[1] == 'a' && "gz"@[0] == 'g' && "gzip"@[0] == 'g' && "tgz"@[0] == 't'
        && "tgz"@[1] == 'g' && "bz2"@[0] == 'b' && "xz"@[0] == 'x' && "cab"@[0] == 'c' && "iso"@[0]
        == 'i' && "dmg"@[0] == 'd' && "zst"@[0] == 'z' && "zst"@[1] == 's' && "zstd"@[0] == 'z'
        && "lz4"@[0] == 'l' && "lzma"@[0] == 'l');
    let text = format.text();
    if format !is Unknown && format !is Bzip2 {
        assert(crate::text::lowered(text) =~= text) by {
            assert forall|i: int| 0 <= i < text.len() implies crate::text::lower(#[trigger] text[i])
                == text[i] by {}
        }
    }
}

/// The short forms stand for the same formats as the long ones.
pub proof fn short_extensions_stand_for_long_ones()
    ensures
        extension_format("gz"@) == extension_format("gzip"@),
        extension_format("tgz"@) == extension_format("gzip"@),
        extension_format("zst"@) == extension_format("zstd"@),
        extension_format("bz2"@) == Some(ArchiveFormat::Bzip2),
{
    reveal_strlit("zip");
    reveal_strlit("7z");
    reveal_strlit("rar");
    reveal_strlit("tar");
    reveal_strlit("gz");
    reveal_strlit("gzip");
    reveal_strlit("tgz");
    reveal_strlit("bz2");
    reveal_strlit("xz");
    reveal_strlit("cab");
    reveal_strlit("iso");
    reveal_strlit("dmg");
    reveal_strlit("zst");
    reveal_strlit("zstd");
    reveal_strlit("lz4");
    reveal_strlit("lzma");
    assert(crate::text::lowered("gz"@) =~= "gz"@);
    assert(crate::text::lowered("gzip"@) =~= "gzip"@);
    assert(crate::text::lowered("tgz"@) =~= "tgz"@);
    assert(crate::text::lowered("zst"@) =~= "zst"@);
    assert(crate::text::lowered("zstd"@) =~= "zstd"@);
    assert(crate::text::lowered("bz2"@) =~= "bz2"@);
    assert("zip"@.len() == 3 && "7z"@.len() == 2 && "rar"@.len() == 3 && "tar"@.len() == 3
        && "gz"@.len() == 2 && "gzip"@.len() == 4 && "tgz"@.len() == 3 && "bz2"@.len() == 3
        && "xz"@.len() == 2 && "cab"@.len() == 3 && "iso"@.len() == 3 && "dmg"@.len() == 3
        && "zst"@.len() == 3 && "zstd"@.len() == 4 && "lz4"@.len() == 3 && "lzma"@.len() == 4);
    assert("zip"@[0] == 'z' && "zip"@[1] == 'i' && "7z"@[0] == '7' && "rar"@[0] == 'r' && "tar"@[0]
        == 't' && "tar"@[1] == 'a' && "gz"@[0] == 'g' && "gzip"@[0] == 'g' && "tgz"@[0] == 't'
        && "tgz"@[1] == 'g' && "bz2"@[0] == 'b' && "xz"@[0] == 'x' && "cab"@[0] == 'c' && "iso"@[0]
        == 'i' && "dmg"@[0] == 'd' && "zst"@[0] == 'z' && "zst"@[1] == 's' && "zstd"@[0] == 'z'
        && "lz4"@[0] == 'l' && "lzma"@[0] == 'l');
}

} // verus!
