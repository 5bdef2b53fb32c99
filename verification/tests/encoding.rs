//! How the names in an archive may be encoded.

use smartzip::encoding::{
    classify_text, decode_name, decode_preview_name, is_cjk_or_kana, is_utf8, rank_readings, sample,
    ArchiveEncodingDetector, Detection, EncodingDetectionResult, Profile, Reading, CJK_CANDIDATES,
};
use smartzip::encoding_flow::{
    asks_about_encoding, build_zip_encoding_assessment, encoding_mode_label, looks_like_mojibake,
    resolve_encoding_mode, survey_names, suspicious_encoding_reasons, ConfidenceFacts,
};
use smartzip::interactive::EncodingConfirmationChoice;
use smartzip::types::EncodingMode;

fn ratios(profile: &Profile) -> (f32, f32) {
    let total = profile.total as f32;
    (profile.cjk as f32 / total, profile.replacement as f32 / total)
}

fn hundredths(value: f32) -> f32 {
    (value * 100.0).round() / 100.0
}

fn detect(bytes: &[u8]) -> EncodingDetectionResult {
    let detection = ArchiveEncodingDetector::new().detect(bytes);
    let (primary, alternatives) = match &detection {
        Detection::Empty => (1.0, vec![]),
        Detection::Utf8(reading) => {
            (if ratios(&reading.profile).0 > 0.5 { 0.95 } else { 0.85 }, vec![])
        }
        Detection::Guessed { primary, alternatives } => {
            let (cjk, replacement) = ratios(&primary.profile);
            let worth = 0.7 * ((1.0 - replacement) + 0.3 * cjk).clamp(0.0, 1.0);
            let others = alternatives
                .iter()
                .map(|reading| {
                    let (cjk, replacement) = ratios(&reading.profile);
                    if replacement > 0.9 {
                        None
                    } else {
                        let worth: f32 = ((1.0 - replacement) * 0.6 + cjk * 0.4).min(1.0);
                        Some(hundredths(worth).to_bits())
                    }
                })
                .collect();
            (hundredths(worth), others)
        }
    };
    rank_readings(&detection, primary.to_bits(), &alternatives)
}

fn confidence(result: &EncodingDetectionResult) -> f32 {
    f32::from_bits(result.rank)
}

fn names(result: &EncodingDetectionResult) -> Vec<String> {
    result.candidates.iter().map(|c| c.name.clone()).collect()
}

const SHIFT_JIS: &[u8] = b"\x93\xFA\x96{\x8C\xEA\x82\xCC\x83e\x83X\x83g\x83t\x83@\x83C\x83\x8B";

#[test]
fn detects_utf8_quickly() {
    let result = detect("你好世界hello.zip".as_bytes());
    assert_eq!(result.selected, "UTF-8");
    assert!(confidence(&result) > 0.8);
}

#[test]
fn detects_shift_jis() {
    let result = detect(SHIFT_JIS);
    assert!(
        result.candidates.iter().any(|c| c.name == "Shift_JIS"),
        "Shift_JIS should appear in candidates: {:?}",
        result.candidates
    );
}

#[test]
fn detects_gbk() {
    let gbk = b"\xC4\xE3\xBA\xC3\xCA\xC0\xBD\xE7\xBB\xB6\xD3\xAD\xCA\xB9\xD3\xC3\xBD\xE2\xD1\xB9\xCB\xF5\xB9\xA4\xBE\xDF";
    let result = detect(gbk);
    assert!(
        result.candidates.iter().any(|c| c.name == "GBK" || c.name == "GB18030"),
        "GBK/GB18030 should appear in candidates: {:?}",
        result.candidates
    );
}

#[test]
fn empty_returns_utf8() {
    let result = detect(&[]);
    assert_eq!(result.selected, "UTF-8");
    assert_eq!(confidence(&result), 1.0);
    assert_eq!(names(&result), vec!["UTF-8"]);
    assert_eq!(result.decoded_sample, "");
}

struct EncodingTestCase {
    label: &'static str,
    data: &'static [u8],
    expected: &'static [&'static str],
}

fn get_encoding_test_cases() -> Vec<EncodingTestCase> {
    vec![
        EncodingTestCase {
            label: "GBK",
            data: b"\xd6\xd0\xce\xc4\xce\xc4\xbc\xfe\xc3\xfb\xb2\xe2\xca\xd4.txt/\xd1\xb9\xcb\xf5\xb0\xfc\xcb\xb5\xc3\xf7\xce\xc4\xb5\xb5.doc",
            expected: &["GB18030", "GBK"],
        },
        EncodingTestCase {
            label: "Shift_JIS",
            data: b"\x93\xfa\x96\x7b\x8c\xea\x83\x74\x83\x40\x83\x43\x83\x8b\x96\xbc\x83\x65\x83\x58\x83\x67.txt/\x8e\x91\x97\xbf/\x89\xef\x8b\x63\x83\x81\x83\x82.docx",
            expected: &["Shift_JIS"],
        },
        EncodingTestCase {
            label: "EUC-KR",
            data: b"\xc7\xd1\xb1\xdb\xc6\xc4\xc0\xcf\xc0\xcc\xb8\xa7.txt/\xba\xb8\xb0\xed\xbc\xad_2024.hwp",
            expected: &["EUC-KR"],
        },
        EncodingTestCase {
            label: "Big5",
            data: b"\xc1\x63\xc5\xe9\xa4\xa4\xa4\xe5\xc0\xc9\xae\xd7\xa6W\xba\xd9.txt/\xb7\x7c\xc4\xb3\xb0O\xbf\xfd.doc",
            expected: &["Big5"],
        },
        EncodingTestCase {
            label: "UTF-8",
            data: "中文文件名测试.txt/日本語テスト.txt/한국어테스트.txt/English_File.txt".as_bytes(),
            expected: &["UTF-8"],
        },
    ]
}

fn assert_found(label: &str, data: &[u8], expected: &[&str]) {
    let result = detect(data);
    let found = expected
        .iter()
        .any(|enc| result.selected == *enc || result.candidates.iter().any(|c| c.name == *enc));
    assert!(
        found,
        "{}: expected one of {:?}, got selected='{}', candidates={:?}",
        label,
        expected,
        result.selected,
        names(&result)
    );
}

#[test]
fn parametrized_encoding_detection() {
    for case in get_encoding_test_cases() {
        assert_found(case.label, case.data, case.expected);
    }
}

#[test]
fn detect_single_encoding() {
    assert_found("ascii", b"Hello, world! this is plain ASCII text.", &["UTF-8"]);
    assert_found("GBK bytes", b"\xC4\xE3\xBA\xC3\xCA\xC0\xBD\xE7", &["GB18030", "GBK"]);
    assert_found(
        "Shift_JIS bytes",
        b"\x93\xFA\x96{\x8C\xEA\x82\xCC\x83e\x83X\x83g",
        &["Shift_JIS"],
    );
}

#[test]
fn detector_is_reusable() {
    let detector = ArchiveEncodingDetector::default();
    assert!(matches!(detector.detect("你好世界".as_bytes()), Detection::Utf8(_)));
    match detector.detect(SHIFT_JIS) {
        Detection::Guessed { primary, alternatives } => assert!(
            primary.name == "Shift_JIS" || alternatives.iter().any(|r| r.name == "Shift_JIS")
        ),
        other => panic!("expected a guess, got {:?}", other),
    }
}

#[test]
fn shift_jis_is_read() {
    assert_eq!(decode_name(SHIFT_JIS, "Shift_JIS").as_deref(), Some("日本語のテストファイル"));
    let result = detect(SHIFT_JIS);
    assert_eq!(result.selected, "Shift_JIS");
    assert_eq!(result.decoded_sample, "日本語のテストファイル");
}

#[test]
fn candidates_fall_behind_the_guess() {
    let result = detect(SHIFT_JIS);
    let worth: Vec<u32> = result.candidates.iter().skip(1).map(|c| c.rank).collect();
    assert!(!worth.is_empty());
    assert!(worth.windows(2).all(|pair| pair[0] >= pair[1]));
    assert_eq!(CJK_CANDIDATES.len(), 7);
}

fn reading(name: &str) -> Reading {
    Reading {
        name: name.to_string(),
        decoded: String::new(),
        profile: Profile { total: 1, cjk: 0, replacement: 0 },
    }
}

#[test]
fn readings_are_put_in_order() {
    let detection = Detection::Guessed {
        primary: reading("p"),
        alternatives: vec![reading("a"), reading("b"), reading("c"), reading("d")],
    };
    let result = rank_readings(&detection, 1, &vec![Some(2), Some(5), None, Some(2)]);
    assert_eq!(names(&result), vec!["p", "b", "a", "d"]);
}

#[test]
fn names_are_decoded() {
    assert_eq!(decode_name(b"", "no-such-encoding"), None);
    assert_eq!(decode_name(b"", "UTF-8").as_deref(), Some(""));
    assert_eq!(decode_name(b"", "UTF-16LE").as_deref(), Some(""));
    assert_eq!(decode_name(b"", "replacement").as_deref(), Some(""));
    assert_eq!(decode_preview_name(b"", "no-such-encoding"), "");
    assert_eq!(decode_name(b"a", "no such encoding"), None);
    assert_eq!(decode_name(b"\xFF", "UTF-8"), None);
    assert_eq!(decode_preview_name(b"a\xFF", "UTF-8"), "a\u{FFFD}");
    assert_eq!(decode_preview_name(b"\xC4\xE3", "GBK"), "你");
}

#[test]
fn texts_are_profiled() {
    assert_eq!(classify_text("a你\u{FFFD}"), Profile { total: 3, cjk: 1, replacement: 1 });
    assert_eq!(classify_text(""), Profile { total: 1, cjk: 0, replacement: 0 });
    assert!(is_cjk_or_kana('あ') && is_cjk_or_kana('한') && !is_cjk_or_kana('a'));
    assert!(is_utf8("é".as_bytes()) && !is_utf8(b"\xE9"));
    assert_eq!(sample("a\u{1}b\n"), "a\u{FFFD}b\n");
    assert_eq!(sample(&"x".repeat(100)).len(), 80);
}

const SURE: ConfidenceFacts = ConfidenceFacts { low_percent: None, close: false };

#[test]
fn zip_encoding_assessment_skips_confirmation_for_ascii_names() {
    let survey = survey_names(vec![b"docs/readme.txt".to_vec()]).unwrap();
    assert!(survey.ascii_only);
    let low = ConfidenceFacts { low_percent: Some(85), close: false };
    let detection = ArchiveEncodingDetector::new().detect(&survey.joined);
    let assessment = build_zip_encoding_assessment(&survey, &detection, low);
    assert_eq!(assessment.selected, "UTF-8");
    assert!(!assessment.should_confirm);
    assert!(assessment.suspicious_reasons.is_empty());
    assert_eq!(assessment.preview_names, vec!["docs/readme.txt"]);
}

#[test]
fn names_are_read_in_the_encoding_that_was_detected_in_all_of_them() {
    let raw = b"\xC4\xE3\xBA\xC3\xCA\xC0\xBD\xE7\xCE\xC4\xBC\xFE".to_vec();
    let survey = survey_names(vec![raw.clone(), raw]).unwrap();
    let detection = ArchiveEncodingDetector::new().detect(&survey.joined);
    let doubt = ConfidenceFacts { low_percent: None, close: false };
    let assessment = build_zip_encoding_assessment(&survey, &detection, doubt);
    assert!(matches!(detection, Detection::Guessed { .. }));
    assert_eq!(assessment.selected, detection.selected());
    assert_eq!(assessment.selected, "GBK");
    assert_eq!(assessment.preview_names, vec!["\u{4f60}\u{597d}\u{4e16}\u{754c}\u{6587}\u{4ef6}"; 2]);
    assert_eq!(Detection::Empty.selected(), "UTF-8");
}

#[test]
fn names_are_surveyed() {
    assert!(survey_names(vec![vec![], vec![]]).is_none());
    let survey = survey_names(vec![b"a".to_vec(), vec![], b"\xFF".to_vec()]).unwrap();
    assert_eq!(survey.joined, b"a/\xFF");
    assert_eq!(survey.names.len(), 2);
    assert!(!survey.ascii_only);
    assert!(!survey.all_utf8);
}

#[test]
fn doubtful_names_are_asked_about() {
    let survey = survey_names(vec![b"\xC4\xE3\xBA\xC3".to_vec()]).unwrap();
    let doubt = ConfidenceFacts { low_percent: Some(70), close: true };
    let profile = classify_text("");
    let primary = Reading { name: "GBK".to_string(), decoded: String::new(), profile };
    let detection = Detection::Guessed { primary, alternatives: vec![] };
    let assessment = build_zip_encoding_assessment(&survey, &detection, doubt);
    assert_eq!(assessment.selected, "GBK");
    assert!(assessment.should_confirm);
    assert!(!assessment.suspicious_reasons.is_empty());
    let some = Some(assessment);
    assert!(asks_about_encoding(&EncodingMode::Auto, &some, true));
    assert!(!asks_about_encoding(&EncodingMode::Auto, &some, false));
    assert!(!asks_about_encoding(&EncodingMode::Override("GBK".to_string()), &some, true));
    assert!(!asks_about_encoding(&EncodingMode::Auto, &None, true));

    let mode = |answer| resolve_encoding_mode(EncodingMode::Auto, &some, answer);
    let label = |mode: Option<EncodingMode>| mode.map(|m| encoding_mode_label(&m));
    assert_eq!(label(mode(Some(EncodingConfirmationChoice::AcceptDetected))).as_deref(), Some("GBK"));
    assert_eq!(
        label(mode(Some(EncodingConfirmationChoice::Override("Big5".to_string())))).as_deref(),
        Some("Big5")
    );
    assert!(mode(Some(EncodingConfirmationChoice::SkipArchive)).is_none());
    assert_eq!(label(mode(None)).as_deref(), Some("GBK"));
}

#[test]
fn request_for_an_encoding_wins() {
    let asked = EncodingMode::Override("Big5".to_string());
    let mode = resolve_encoding_mode(asked, &None, None).unwrap();
    assert_eq!(encoding_mode_label(&mode), "Big5");
    let auto = resolve_encoding_mode(EncodingMode::Auto, &None, None).unwrap();
    assert_eq!(encoding_mode_label(&auto), "auto");
}

#[test]
fn garbled_names_are_noticed() {
    assert!(looks_like_mojibake("a\u{FFFD}"));
    assert!(!looks_like_mojibake("readme.txt"));
    assert!(!looks_like_mojibake("你好"));
    let garbled = vec!["\u{FFFD}".to_string()];
    assert!(!suspicious_encoding_reasons("GBK", SURE, &garbled, false, false).is_empty());
    assert!(suspicious_encoding_reasons("GBK", SURE, &vec![], true, true).is_empty());
}
