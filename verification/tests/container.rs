//! Which ZIP files are documents.

use smartzip::container::{classify_zip_entries, classify_zip_listing, BusinessContainerKind};

#[test]
fn detects_docx() {
    let entries: Vec<String> = vec![
        "[Content_Types].xml".into(),
        "word/document.xml".into(),
        "word/styles.xml".into(),
    ];
    assert_eq!(
        classify_zip_listing(&entries, false),
        Some(BusinessContainerKind::OfficeDocx)
    );
}

#[test]
fn detects_xlsx() {
    let entries: Vec<String> = vec![
        "[Content_Types].xml".into(),
        "xl/workbook.xml".into(),
        "xl/sharedStrings.xml".into(),
    ];
    assert_eq!(
        classify_zip_listing(&entries, false),
        Some(BusinessContainerKind::OfficeXlsx)
    );
}

#[test]
fn detects_epub() {
    let entries: Vec<String> = vec![
        "mimetype".into(),
        "META-INF/container.xml".into(),
        "OEBPS/content.opf".into(),
    ];
    assert_eq!(
        classify_zip_listing(&entries, false),
        Some(BusinessContainerKind::Epub)
    );
}

#[test]
fn detects_apk() {
    let entries: Vec<String> = vec![
        "AndroidManifest.xml".into(),
        "classes.dex".into(),
        "resources.arsc".into(),
    ];
    assert_eq!(
        classify_zip_listing(&entries, false),
        Some(BusinessContainerKind::Apk)
    );
}

#[test]
fn detects_cbz() {
    let entries: Vec<String> = vec![
        "001.jpg".into(),
        "002.jpg".into(),
        "003.jpg".into(),
        "004.png".into(),
    ];
    assert_eq!(
        classify_zip_listing(&entries, false),
        Some(BusinessContainerKind::Cbz)
    );
}

#[test]
fn fake_docx_real_zip_not_detected() {
    let entries: Vec<String> = vec!["file1.txt".into(), "file2.txt".into()];
    assert_eq!(classify_zip_listing(&entries, false), None);
}

#[test]
fn plain_zip_not_detected() {
    let entries: Vec<String> = vec!["data.bin".into(), "readme.txt".into()];
    assert_eq!(classify_zip_listing(&entries, false), None);
}

#[test]
fn detects_pptx() {
    let entries: Vec<String> =
        vec!["[Content_Types].xml".into(), "ppt/presentation.xml".into()];
    assert_eq!(classify_zip_listing(&entries, false), Some(BusinessContainerKind::OfficePptx));
}

#[test]
fn jar_needs_classes_and_archives() {
    let entries: Vec<String> =
        vec!["META-INF/MANIFEST.MF".into(), "a/B.class".into(), "lib/x.ZIP".into()];
    assert_eq!(classify_zip_entries(&entries), Some(BusinessContainerKind::Jar));
    assert_eq!(classify_zip_listing(&entries, false), None);
}

#[test]
fn two_thirds_of_images_make_a_comic() {
    let two: Vec<String> = vec!["a.JPG".into(), "b.webp".into(), "c.txt".into()];
    assert_eq!(classify_zip_entries(&two), Some(BusinessContainerKind::Cbz));
    let one: Vec<String> = vec!["a.jpg".into(), "b.txt".into(), "c.txt".into()];
    assert_eq!(classify_zip_entries(&one), None);
    let with_archive: Vec<String> = vec!["a.jpg".into(), "b.jpg".into(), "c.rar".into()];
    assert_eq!(classify_zip_entries(&with_archive), None);
    assert_eq!(classify_zip_entries(&vec![]), None);
}
