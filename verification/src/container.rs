//! ZIP files that are documents or programs rather than archives.

use vstd::prelude::*;
use crate::path::path_extension;
use crate::text::{chars_of, ends_with, lowered_chars, same_text, text_of};

verus! {

/// A kind of file that happens to be a ZIP archive.
#[derive(Clone, Copy, Debug, PartialEq, Eq, Structural)]
pub enum BusinessContainerKind {
    OfficeDocx,
    OfficeXlsx,
    OfficePptx,
    Epub,
    Apk,
    Jar,
    Cbz,
}

/// The entry is called `name`, at the top or in some directory.
pub open spec fn is_called(entry: Seq<char>, name: Seq<char>) -> bool {
    entry == name || crate::text::has_tail(entry, seq!['/'] + name)
}

/// Some entry is called `name`.
pub open spec fn has_entry(entries: Seq<Seq<char>>, name: Seq<char>) -> bool {
    exists|i: int| 0 <= i < entries.len() && is_called(#[trigger] entries[i], name)
}

/// Some entry ends in `tail`.
pub open spec fn has_entry_ending(entries: Seq<Seq<char>>, tail: Seq<char>) -> bool {
    exists|i: int| 0 <= i < entries.len() && crate::text::has_tail(#[trigger] entries[i], tail)
}

/// The entry is an image by its extension.
pub open spec fn is_image(entry: Seq<char>) -> bool {
    let name = crate::text::lowered(entry);
    ||| crate::text::has_tail(name, ".jpg"@)
    ||| crate::text::has_tail(name, ".jpeg"@)
    ||| crate::text::has_tail(name, ".png"@)
    ||| crate::text::has_tail(name, ".gif"@)
    ||| crate::text::has_tail(name, ".bmp"@)
    ||| crate::text::has_tail(name, ".webp"@)
}

/// How many entries are images.
pub open spec fn image_count(entries: Seq<Seq<char>>) -> nat
    decreases entries.len(),
{
    if entries.len() == 0 {
        0
    } else {
        image_count(entries.drop_last()) + if is_image(entries.last()) {
            1nat
        } else {
            0nat
        }
    }
}

/// The kind that the entries of a ZIP file speak for.
pub open spec fn kind_of(entries: Seq<Seq<char>>, has_archives: bool) -> Option<
    BusinessContainerKind,
> {
    let office = has_entry(entries, "[Content_Types].xml"@);
    if office && has_entry(entries, "word/document.xml"@) {
        Some(BusinessContainerKind::OfficeDocx)
    } else if office && has_entry(entries, "xl/workbook.xml"@) {
        Some(BusinessContainerKind::OfficeXlsx)
    } else if office && has_entry(entries, "ppt/presentation.xml"@) {
        Some(BusinessContainerKind::OfficePptx)
    } else if has_entry(entries, "mimetype"@) && has_entry(entries, "META-INF/container.xml"@) {
        Some(BusinessContainerKind::Epub)
    } else if has_entry(entries, "AndroidManifest.xml"@) && (has_entry(entries, "classes.dex"@)
        || has_entry(entries, "resources.arsc"@)) {
        Some(BusinessContainerKind::Apk)
    } else if has_entry(entries, "META-INF/MANIFEST.MF"@) && has_archives && has_entry_ending(
        entries,
        ".class"@,
    ) {
        Some(BusinessContainerKind::Jar)
    } else if entries.len() > 0 && !has_archives && image_count(entries) * 3 >= entries.len() * 2 {
        Some(BusinessContainerKind::Cbz)
    } else {
        None
    }
}

fn has(entries: &Vec<String>, name: &str) -> (r: bool)
    ensures
        r == has_entry(crate::text::texts(entries@), name@),
{
    let ghost all = crate::text::texts(entries@);
    let mut slashed: Vec<char> = vec!['/'];
    let mut rest = chars_of(name);
    slashed.append(&mut rest);
    let tail = text_of(&slashed);
    assert(tail@ =~= seq!['/'] + name@);
    let mut i: usize = 0;
    while i < entries.len()
        invariant
            i <= entries@.len(),
            all == crate::text::texts(entries@),
            tail@ == seq!['/'] + name@,
            forall|k: int| 0 <= k < i ==> !is_called(#[trigger] all[k], name@),
        decreases entries.len() - i,
    {
        assert(all[i as int] == entries@[i as int]@);
        if same_text(entries[i].as_str(), name) || ends_with(
            &chars_of(entries[i].as_str()),
            tail.as_str(),
        ) {
            assert(is_called(all[i as int], name@));
            return true;
        }
        i += 1;
    }
    false
}

fn has_ending(entries: &Vec<String>, tail: &str) -> (r: bool)
    ensures
        r == has_entry_ending(crate::text::texts(entries@), tail@),
{
    let ghost all = crate::text::texts(entries@);
    let mut i: usize = 0;
    while i < entries.len()
        invariant
            i <= entries@.len(),
            all == crate::text::texts(entries@),
            forall|k: int| 0 <= k < i ==> !crate::text::has_tail(#[trigger] all[k], tail@),
        decreases entries.len() - i,
    {
        assert(all[i as int] == entries@[i as int]@);
        if ends_with(&chars_of(entries[i].as_str()), tail) {
            assert(crate::text::has_tail(all[i as int], tail@));
            return true;
        }
        i += 1;
    }
    false
}

fn image_name(entry: &str) -> (r: bool)
    ensures
        r == is_image(entry@),
{
    let name = lowered_chars(&chars_of(entry));
    ends_with(&name, ".jpg") || ends_with(&name, ".jpeg") || ends_with(&name, ".png") || ends_with(
        &name,
        ".gif",
    ) || ends_with(&name, ".bmp") || ends_with(&name, ".webp")
}

fn count_images(entries: &Vec<String>) -> (r: usize)
    ensures
        r == image_count(crate::text::texts(entries@)),
        r <= entries@.len(),
{
    let ghost all = crate::text::texts(entries@);
    let mut count: usize = 0;
    let mut i: usize = 0;
    assert(all.take(0).len() == 0);
    while i < entries.len()
        invariant
            i <= entries@.len(),
            count <= i,
            all == crate::text::texts(entries@),
            count == image_count(all.take(i as int)),
        decreases entries.len() - i,
    {
        if image_name(entries[i].as_str()) {
            count += 1;
        }
        i += 1;
        assert(all.take(i as int).drop_last() =~= all.take(i - 1));
        assert(all.take(i as int).last() == entries@[i - 1]@);
    }
    assert(all.take(i as int) =~= all);
    count
}

/// The kind that the entries of a ZIP file speak for. Only their paths are looked at.
pub fn classify_zip_listing(entry_paths: &Vec<String>, has_archive_entries: bool) -> (r: Option<
    BusinessContainerKind,
>)
    ensures
        r == kind_of(crate::text::texts(entry_paths@), has_archive_entries),
{
    if has(entry_paths, "[Content_Types].xml") {
        if has(entry_paths, "word/document.xml") {
            return Some(BusinessContainerKind::OfficeDocx);
        }
        if has(entry_paths, "xl/workbook.xml") {
            return Some(BusinessContainerKind::OfficeXlsx);
        }
        if has(entry_paths, "ppt/presentation.xml") {
            return Some(BusinessContainerKind::OfficePptx);
        }
    }
    if has(entry_paths, "mimetype") && has(entry_paths, "META-INF/container.xml") {
        return Some(BusinessContainerKind::Epub);
    }
    if has(entry_paths, "AndroidManifest.xml") && (has(entry_paths, "classes.dex") || has(
        entry_paths,
        "resources.arsc",
    )) {
        return Some(BusinessContainerKind::Apk);
    }
    if has(entry_paths, "META-INF/MANIFEST.MF") && has_archive_entries && has_ending(
        entry_paths,
        ".class",
    ) {
        return Some(BusinessContainerKind::Jar);
    }
    if entry_paths.len() > 0 && !has_archive_entries {
        let images: usize = count_images(entry_paths);
        if (images as u128) * 3 >= (entry_paths.len() as u128) * 2 {
            return Some(BusinessContainerKind::Cbz);
        }
    }
    None
}

/// The extensions by which an entry of a ZIP file counts as an archive.
pub open spec fn is_archive_entry(entry: Seq<char>) -> bool {
    match crate::path::extension(crate::text::lowered(entry)) {
        None => false,
        Some(ext) => ext == "zip"@ || ext == "7z"@ || ext == "rar"@ || ext == "tar"@ || ext == "gz"@
            || ext == "bz2"@ || ext == "xz"@,
    }
}

fn archive_entry(entry: &str) -> (r: bool)
    ensures
        r == is_archive_entry(entry@),
{
    let lower = text_of(&lowered_chars(&chars_of(entry)));
    match path_extension(lower.as_str()) {
        None => false,
        Some(ext) => same_text(ext.as_str(), "zip") || same_text(ext.as_str(), "7z") || same_text(
            ext.as_str(),
            "rar",
        ) || same_text(ext.as_str(), "tar") || same_text(ext.as_str(), "gz") || same_text(
            ext.as_str(),
            "bz2",
        ) || same_text(ext.as_str(), "xz"),
    }
}

/// Some entry is an archive by its extension.
pub open spec fn lists_archives(entries: Seq<Seq<char>>) -> bool {
    exists|i: int| 0 <= i < entries.len() && is_archive_entry(#[trigger] entries[i])
}

/// The kind that the names in a ZIP file's directory speak for.
pub fn classify_zip_entries(entry_paths: &Vec<String>) -> (r: Option<BusinessContainerKind>)
    ensures
        r == kind_of(
            crate::text::texts(entry_paths@),
            lists_archives(crate::text::texts(entry_paths@)),
        ),
{
    let ghost all = crate::text::texts(entry_paths@);
    let mut has_archives: bool = false;
    let mut i: usize = 0;
    while i < entry_paths.len()
        invariant
            i <= entry_paths@.len(),
            all == crate::text::texts(entry_paths@),
            has_archives == exists|k: int| 0 <= k < i && is_archive_entry(#[trigger] all[k]),
        decreases entry_paths.len() - i,
    {
        assert(all[i as int] == entry_paths@[i as int]@);
        if archive_entry(entry_paths[i].as_str()) {
            has_archives = true;
        }
        i += 1;
    }
    classify_zip_listing(entry_paths, has_archives)
}

/// A file is taken for a document, a book or a program only by what such a file holds, and for a
/// comic only where no archive is in it and two thirds of it are images.
pub proof fn containers_are_told_by_their_entries(entries: Seq<Seq<char>>, has_archives: bool)
    ensures
        ({
            let kind = kind_of(entries, has_archives);
            let office = has_entry(entries, "[Content_Types].xml"@);
            &&& kind == Some(BusinessContainerKind::OfficeDocx) <==> office && has_entry(
                entries,
                "word/document.xml"@,
            )
            &&& kind == Some(BusinessContainerKind::OfficeXlsx) ==> office && has_entry(
                entries,
                "xl/workbook.xml"@,
            )
            &&& kind == Some(BusinessContainerKind::OfficePptx) ==> office && has_entry(
                entries,
                "ppt/presentation.xml"@,
            )
            &&& office && (has_entry(entries, "word/document.xml"@) || has_entry(
                entries,
                "xl/workbook.xml"@,
            ) || has_entry(entries, "ppt/presentation.xml"@)) ==> kind is Some && (kind->0
                == BusinessContainerKind::OfficeDocx || kind->0 == BusinessContainerKind::OfficeXlsx
                || kind->0 == BusinessContainerKind::OfficePptx)
            &&& kind == Some(BusinessContainerKind::Epub) ==> has_entry(entries, "mimetype"@)
                && has_entry(entries, "META-INF/container.xml"@)
            &&& kind == Some(BusinessContainerKind::Apk) ==> has_entry(
                entries,
                "AndroidManifest.xml"@,
            )
            &&& kind == Some(BusinessContainerKind::Jar) ==> has_archives && has_entry(
                entries,
                "META-INF/MANIFEST.MF"@,
            ) && has_entry_ending(entries, ".class"@)
            &&& kind == Some(BusinessContainerKind::Cbz) ==> !has_archives && entries.len() > 0
                && image_count(entries) * 3 >= entries.len() * 2
            &&& kind is None && !has_archives && entries.len() > 0 ==> image_count(entries) * 3
                < entries.len() * 2
            &&& entries.len() == 0 ==> kind is None
        }),
{
}

/// Of the entries of a file at most all are images, and where all are, there are as many.
pub proof fn images_are_counted(entries: Seq<Seq<char>>)
    ensures
        image_count(entries) <= entries.len(),
        (forall|i: int| 0 <= i < entries.len() ==> is_image(#[trigger] entries[i]))
            ==> image_count(entries) == entries.len(),
        (forall|i: int| 0 <= i < entries.len() ==> !is_image(#[trigger] entries[i]))
            ==> image_count(entries) == 0,
    decreases entries.len(),
{
    if entries.len() > 0 {
        let rest = entries.drop_last();
        images_are_counted(rest);
        if forall|i: int| 0 <= i < entries.len() ==> is_image(#[trigger] entries[i]) {
            assert forall|i: int| 0 <= i < rest.len() implies is_image(#[trigger] rest[i]) by {
                assert(is_image(entries[i]));
            }
            assert(is_image(entries[entries.len() - 1]));
        }
        if forall|i: int| 0 <= i < entries.len() ==> !is_image(#[trigger] entries[i]) {
            assert forall|i: int| 0 <= i < rest.len() implies !is_image(#[trigger] rest[i]) by {
                assert(!is_image(entries[i]));
            }
            assert(!is_image(entries[entries.len() - 1]));
        }
    }
}

/// An entry is called by its name at the top and in every directory, and not where the name is but
/// the end of a longer one.
pub proof fn entries_are_called_by_their_name(dir: Seq<char>, name: Seq<char>, entry: Seq<char>)
    ensures
        is_called(name, name),
        is_called(dir + seq!['/'] + name, name),
        is_called(entry, name) && entry != name ==> entry.len() > name.len() && entry[entry.len()
            - name.len() - 1] == '/' && entry.skip(entry.len() - name.len()) == name,
{
    let tail = seq!['/'] + name;
    let long = dir + seq!['/'] + name;
    assert(long =~= dir + tail);
    crate::text::tails_end_texts(dir, tail);
    if crate::text::has_tail(entry, tail) {
        assert(entry.skip(entry.len() - tail.len())[0] == tail[0]);
        assert(entry.skip(entry.len() - name.len()) =~= entry.skip(
            entry.len() - tail.len(),
        ).skip(1));
        assert(tail.skip(1) =~= name);
    }
}

/// A ZIP file lists archives where one of its entries is one, and an entry is one whatever the
/// case of its letters.
pub proof fn one_archive_is_enough(entries: Seq<Seq<char>>, i: int)
    ensures
        0 <= i < entries.len() && is_archive_entry(entries[i]) ==> lists_archives(entries),
        entries.len() == 0 ==> !lists_archives(entries),
        is_archive_entry(crate::text::lowered(entries[i])) <==> is_archive_entry(entries[i]),
        is_archive_entry(entries[i]) ==> crate::path::extension(crate::text::lowered(entries[i]))
            is Some,
{
    crate::text::lower_case_keeps_the_rest(entries[i], 0);
}

} // verus!
