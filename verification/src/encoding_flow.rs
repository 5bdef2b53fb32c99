//! Whether a guessed encoding of member names is to be trusted.

use vstd::prelude::*;
use vstd::string::*;
use crate::encoding::{decode_preview_name, is_utf8, stray_control, Detection};
use crate::interactive::EncodingConfirmationChoice;
use crate::text::{chars_of, lowered_chars, push_decimal, same_text, text_of};
use crate::types::EncodingMode;

verus! {

/// A character that is frequent where bytes were read in the wrong encoding.
pub open spec fn is_marker(c: char) -> bool {
    c == 'Ã' || c == 'Â' || c == 'Ð' || c == 'Ñ' || c == 'æ' || c == 'ç' || c == 'ø' || c == '¢' || c
        == '¤' || c == '¥'
}

/// The text seems to have been read in the wrong encoding.
pub open spec fn garbled(s: Seq<char>) -> bool {
    ||| s.contains('\u{FFFD}')
    ||| crate::encoding::count_where(s, |c: char| is_marker(c)) >= 2
    ||| exists|i: int| 0 <= i < s.len() && crate::encoding::is_stray_control(#[trigger] s[i])
}

pub fn looks_like_mojibake(value: &str) -> (r: bool)
    ensures
        r == garbled(value@),
{
    let chars: Vec<char> = chars_of(value);
    let mut marks: usize = 0;
    let mut replaced = false;
    let mut control = false;
    let mut i: usize = 0;
    let ghost mark = |c: char| is_marker(c);
    assert(chars@.take(0).len() == 0);
    while i < chars.len()
        invariant
            i <= chars@.len(),
            marks <= i,
            mark == (|c: char| is_marker(c)),
            marks == crate::encoding::count_where(chars@.take(i as int), mark),
            replaced == exists|k: int| 0 <= k < i && #[trigger] chars@[k] == '\u{FFFD}',
            control == exists|k: int|
                0 <= k < i && crate::encoding::is_stray_control(#[trigger] chars@[k]),
        decreases chars.len() - i,
    {
        let c: char = chars[i];
        proof {
            assert(chars@.take(i + 1).drop_last() =~= chars@.take(i as int));
            assert(chars@.take(i + 1).last() == c);
            assert(chars@[i as int] == c);
        }
        if c == '\u{FFFD}' {
            replaced = true;
        }
        if stray_control(c) {
            control = true;
        }
        if c == 'Ã' || c == 'Â' || c == 'Ð' || c == 'Ñ' || c == 'æ' || c == 'ç' || c == 'ø' || c
            == '¢' || c == '¤' || c == '¥' {
            marks += 1;
        }
        i += 1;
    }
    assert(chars@.take(i as int) =~= chars@);
    assert(value@.contains('\u{FFFD}') == exists|k: int|
        0 <= k < chars@.len() && #[trigger] chars@[k] == '\u{FFFD}') by {
        if value@.contains('\u{FFFD}') {
            let k = choose|k: int| 0 <= k < value@.len() && value@[k] == '\u{FFFD}';
            assert(chars@[k] == '\u{FFFD}');
        }
    }
    replaced || marks >= 2 || control
}

/// The names that are not empty.
pub open spec fn present(names: Seq<Vec<u8>>) -> Seq<Seq<u8>>
    decreases names.len(),
{
    if names.len() == 0 {
        Seq::empty()
    } else if names.last()@.len() == 0 {
        present(names.drop_last())
    } else {
        present(names.drop_last()).push(names.last()@)
    }
}

/// The names, with a slash between each two.
pub open spec fn joined(names: Seq<Seq<u8>>) -> Seq<u8>
    decreases names.len(),
{
    if names.len() == 0 {
        Seq::empty()
    } else if names.len() == 1 {
        names[0]
    } else {
        joined(names.drop_last()).push(47u8) + names.last()
    }
}

/// The bytes are all ASCII.
pub open spec fn ascii(raw: Seq<u8>) -> bool {
    forall|i: int| 0 <= i < raw.len() ==> #[trigger] raw[i] < 128
}

/// The names of an archive's members, as bytes.
#[derive(Debug)]
pub struct NameSurvey {
    pub names: Vec<Vec<u8>>,
    pub ascii_only: bool,
    pub all_utf8: bool,
    pub joined: Vec<u8>,
}

/// The views of the names.
pub open spec fn raw_names(names: Seq<Vec<u8>>) -> Seq<Seq<u8>> {
    names.map_values(|n: Vec<u8>| n@)
}

fn is_ascii(raw: &Vec<u8>) -> (r: bool)
    ensures
        r == ascii(raw@),
{
    let mut i: usize = 0;
    while i < raw.len()
        invariant
            i <= raw@.len(),
            forall|k: int| 0 <= k < i ==> #[trigger] raw@[k] < 128,
        decreases raw.len() - i,
    {
        if raw[i] >= 128 {
            return false;
        }
        i += 1;
    }
    true
}

fn push_all(out: &mut Vec<u8>, more: &Vec<u8>)
    ensures
        final(out)@ == old(out)@ + more@,
{
    let ghost start = out@;
    let mut i: usize = 0;
    assert(start + more@.take(0) =~= start);
    while i < more.len()
        invariant
            i <= more@.len(),
            out@ == start + more@.take(i as int),
        decreases more.len() - i,
    {
        out.push(more[i]);
        i += 1;
        assert(more@.take(i as int) =~= more@.take(i - 1).push(more@[i - 1]));
    }
    assert(more@.take(i as int) =~= more@);
}

/// Looks at the names that are not empty. There may be none.
pub fn survey_names(entries: Vec<Vec<u8>>) -> (r: Option<NameSurvey>)
    ensures
        match r {
            None => present(entries@).len() == 0,
            Some(s) => {
                &&& present(entries@).len() > 0
                &&& raw_names(s.names@) == present(entries@)
                &&& s.joined@ == joined(present(entries@))
                &&& s.ascii_only == forall|i: int|
                    0 <= i < present(entries@).len() ==> ascii(#[trigger] present(entries@)[i])
                &&& s.all_utf8 == forall|i: int|
                    0 <= i < present(entries@).len() ==> vstd::utf8::valid_utf8(
                        #[trigger] present(entries@)[i],
                    )
            },
        },
{
    let ghost all = entries@;
    let mut rest = entries;
    let mut names: Vec<Vec<u8>> = Vec::new();
    let mut text: Vec<u8> = Vec::new();
    let mut ascii_only = true;
    let mut all_utf8 = true;
    let ghost mut done: int = 0;
    assert(all.skip(0) =~= all);
    assert(all.take(0) =~= Seq::<Vec<u8>>::empty());
    assert(raw_names(names@) =~= Seq::<Seq<u8>>::empty());
    while rest.len() > 0
        invariant
            0 <= done <= all.len(),
            rest@ == all.skip(done),
            raw_names(names@) == present(all.take(done)),
            text@ == joined(present(all.take(done))),
            ascii_only == forall|i: int|
                0 <= i < names@.len() ==> ascii(#[trigger] names@[i]@),
            all_utf8 == forall|i: int|
                0 <= i < names@.len() ==> vstd::utf8::valid_utf8(#[trigger] names@[i]@),
        decreases rest@.len(),
    {
        let name: Vec<u8> = rest.remove(0);
        let ghost before = names@;
        let ghost seen = present(all.take(done));
        proof {
            assert(name == all[done]);
            assert(rest@ =~= all.skip(done + 1));
            assert(all.take(done + 1).drop_last() =~= all.take(done));
            assert(all.take(done + 1).last() == name);
            done = done + 1;
        }
        if name.len() > 0 {
            if names.len() > 0 {
                text.push(47u8);
            }
            push_all(&mut text, &name);
            if !is_ascii(&name) {
                ascii_only = false;
            }
            if !is_utf8(name.as_slice()) {
                all_utf8 = false;
            }
            names.push(name);
            proof {
                assert(raw_names(names@) =~= raw_names(before).push(name@));
                assert(raw_names(before).len() == before.len());
                let now = seen.push(name@);
                assert(now.drop_last() =~= seen);
                if seen.len() == 0 {
                    assert(text@ =~= name@);
                }
                assert(forall|i: int| 0 <= i < before.len() ==> names@[i] == before[i]);
                if forall|i: int| 0 <= i < names@.len() ==> ascii(#[trigger] names@[i]@) {
                    assert forall|i: int| 0 <= i < before.len() implies ascii(
                        #[trigger] before[i]@,
                    ) by {
                        assert(ascii(names@[i]@));
                    }
                    assert(ascii(names@[before.len() as int]@));
                }
                if forall|i: int|
                    0 <= i < names@.len() ==> vstd::utf8::valid_utf8(#[trigger] names@[i]@) {
                    assert forall|i: int| 0 <= i < before.len() implies vstd::utf8::valid_utf8(
                        #[trigger] before[i]@,
                    ) by {
                        assert(vstd::utf8::valid_utf8(names@[i]@));
                    }
                    assert(vstd::utf8::valid_utf8(names@[before.len() as int]@));
                }
            }
        }
    }
    assert(all.take(done) =~= all);
    if names.len() == 0 {
        assert(raw_names(names@).len() == 0);
        return None;
    }
    proof {
        let p = present(all);
        assert(raw_names(names@) == p);
        assert forall|i: int| 0 <= i < p.len() implies #[trigger] p[i] == names@[i]@ by {
            assert(raw_names(names@)[i] == names@[i]@);
        }
        if forall|i: int| 0 <= i < p.len() ==> ascii(#[trigger] p[i]) {
            assert forall|i: int| 0 <= i < names@.len() implies ascii(#[trigger] names@[i]@) by {
                assert(ascii(p[i]));
            }
        }
        if forall|i: int| 0 <= i < p.len() ==> vstd::utf8::valid_utf8(#[trigger] p[i]) {
            assert forall|i: int| 0 <= i < names@.len() implies vstd::utf8::valid_utf8(
                #[trigger] names@[i]@,
            ) by {
                assert(vstd::utf8::valid_utf8(p[i]));
            }
        }
    }
    Some(NameSurvey { names, ascii_only, all_utf8, joined: text })
}

/// What the user is asked to look at, and why.
#[derive(Debug)]
pub struct ZipEncodingAssessment {
    pub selected: String,
    pub preview_names: Vec<String>,
    pub suspicious_reasons: Vec<String>,
    pub should_confirm: bool,
}

/// What the caller has measured of the guess: its worth in hundredths where it is low, and
/// whether the next one is worth about the same.
#[derive(Clone, Copy, Debug, PartialEq, Eq, Structural)]
pub struct ConfidenceFacts {
    pub low_percent: Option<u64>,
    pub close: bool,
}

/// What makes the guess doubtful.
pub open spec fn doubts(
    selected: Seq<char>,
    facts: ConfidenceFacts,
    ascii_only: bool,
    all_utf8: bool,
    previews: Seq<Seq<char>>,
) -> Seq<Seq<char>> {
    if ascii_only || (all_utf8 && crate::text::lowered(selected) == "utf-8"@) {
        Seq::empty()
    } else {
        let low = match facts.low_percent {
            Some(p) => seq!["low confidence "@ + crate::text::decimal(p as nat) + "%"@],
            None => Seq::empty(),
        };
        let close = if facts.close {
            low.push("top encoding candidates are close"@)
        } else {
            low
        };
        if exists|i: int| 0 <= i < previews.len() && garbled(#[trigger] previews[i]) {
            close.push("previewed names look garbled"@)
        } else {
            close
        }
    }
}

fn any_garbled(names: &Vec<String>) -> (r: bool)
    ensures
        r == exists|i: int|
            0 <= i < names@.len() && garbled(#[trigger] crate::text::texts(names@)[i]),
{
    let ghost views = crate::text::texts(names@);
    let mut i: usize = 0;
    while i < names.len()
        invariant
            i <= names@.len(),
            views == crate::text::texts(names@),
            forall|k: int| 0 <= k < i ==> !garbled(#[trigger] views[k]),
        decreases names.len() - i,
    {
        assert(views[i as int] == names@[i as int]@);
        if looks_like_mojibake(names[i].as_str()) {
            assert(garbled(views[i as int]));
            return true;
        }
        i += 1;
    }
    false
}

pub fn suspicious_encoding_reasons(
    selected: &str,
    facts: ConfidenceFacts,
    preview_names: &Vec<String>,
    ascii_only: bool,
    all_utf8: bool,
) -> (r: Vec<String>)
    ensures
        crate::text::texts(r@) == doubts(
            selected@,
            facts,
            ascii_only,
            all_utf8,
            crate::text::texts(preview_names@),
        ),
        r@.len() > 0 <==> !ascii_only && !(all_utf8 && crate::text::lowered(selected@) == "utf-8"@)
            && (facts.low_percent is Some || facts.close || exists|i: int|
            0 <= i < preview_names@.len() && garbled(
                #[trigger] crate::text::texts(preview_names@)[i],
            )),
{
    let mut reasons: Vec<String> = Vec::new();
    assert(crate::text::texts(reasons@) =~= Seq::<Seq<char>>::empty());
    if ascii_only {
        return reasons;
    }
    let chars: Vec<char> = chars_of(selected);
    let lower: String = text_of(&lowered_chars(&chars));
    if all_utf8 && same_text(lower.as_str(), "utf-8") {
        return reasons;
    }
    if let Some(p) = facts.low_percent {
        let mut text: String = "low confidence ".to_owned();
        push_decimal(&mut text, p);
        text.append("%");
        reasons.push(text);
        assert(crate::text::texts(reasons@) =~= seq![text@]);
    }
    let ghost low = crate::text::texts(reasons@);
    if facts.close {
        let ghost before = reasons@;
        let text: String = "top encoding candidates are close".to_owned();
        reasons.push(text);
        assert(crate::text::texts(reasons@) =~= crate::text::texts(before).push(text@));
    }
    if any_garbled(preview_names) {
        let ghost before = reasons@;
        let text: String = "previewed names look garbled".to_owned();
        reasons.push(text);
        assert(crate::text::texts(reasons@) =~= crate::text::texts(before).push(text@));
    }
    reasons
}

/// How a name is shown in an encoding.
pub open spec fn shown(raw: Seq<u8>, encoding: Seq<char>) -> Seq<char> {
    match crate::encoding::clean_reading(raw, encoding) {
        Some(text) => text,
        None => crate::encoding::lossy_text(raw),
    }
}

/// The first six names, as they are shown.
pub open spec fn previewed(names: Seq<Seq<u8>>, encoding: Seq<char>) -> Seq<Seq<char>> {
    names.take(
        if names.len() > 6 {
            6
        } else {
            names.len() as int
        },
    ).map_values(|raw: Seq<u8>| shown(raw, encoding))
}

/// Judges the encoding that was detected for an archive's names. Where it was detected in the
/// joined names, the one that is selected is the one that they are taken to have.
pub fn build_zip_encoding_assessment(
    survey: &NameSurvey,
    detection: &Detection,
    facts: ConfidenceFacts,
) -> (r: ZipEncodingAssessment)
    requires
        forall|i: int|
            0 <= i < survey.names@.len() ==> crate::encoding::is_decodable(
                #[trigger] survey.names@[i]@,
            ),
    ensures
        r.selected@ == detection.name(),
        crate::encoding::reads(*detection, survey.joined@) ==> r.selected@
            == crate::encoding::selected_name(survey.joined@),
        crate::text::texts(r.preview_names@) == previewed(raw_names(survey.names@), detection.name()),
        crate::text::texts(r.suspicious_reasons@) == doubts(
            detection.name(),
            facts,
            survey.ascii_only,
            survey.all_utf8,
            previewed(raw_names(survey.names@), detection.name()),
        ),
        r.should_confirm == (r.suspicious_reasons@.len() > 0),
        r.should_confirm <==> !survey.ascii_only && !(survey.all_utf8 && crate::text::lowered(
            detection.name(),
        ) == "utf-8"@) && (facts.low_percent is Some || facts.close || exists|i: int|
            0 <= i < r.preview_names@.len() && garbled(
                #[trigger] crate::text::texts(r.preview_names@)[i],
            )),
{
    let selected: &str = detection.selected();
    let n: usize = if survey.names.len() > 6 {
        6
    } else {
        survey.names.len()
    };
    let mut previews: Vec<String> = Vec::new();
    let mut i: usize = 0;
    while i < n
        invariant
            i <= n <= survey.names@.len(),
            previews@.len() == i,
            forall|k: int|
                0 <= k < survey.names@.len() ==> crate::encoding::is_decodable(
                    #[trigger] survey.names@[k]@,
                ),
            forall|k: int|
                0 <= k < i ==> (#[trigger] previews@[k])@ == shown(survey.names@[k]@, selected@),
        decreases n - i,
    {
        previews.push(decode_preview_name(survey.names[i].as_slice(), selected));
        i += 1;
    }
    assert(crate::text::texts(previews@) =~= previewed(raw_names(survey.names@), selected@));
    let reasons = suspicious_encoding_reasons(
        selected,
        facts,
        &previews,
        survey.ascii_only,
        survey.all_utf8,
    );
    let should_confirm = reasons.len() > 0;
    ZipEncodingAssessment {
        selected: selected.to_owned(),
        preview_names: previews,
        suspicious_reasons: reasons,
        should_confirm,
    }
}

/// The name that is noted for an encoding.
pub fn encoding_mode_label(mode: &EncodingMode) -> (r: String)
    ensures
        r@ == (match mode {
            EncodingMode::Auto => "auto"@,
            EncodingMode::Override(name) => name@,
        }),
{
    match mode {
        EncodingMode::Auto => "auto".to_owned(),
        EncodingMode::Override(name) => name.clone(),
    }
}

/// Whether the user is asked about the encoding: nothing else was asked for, and the guess is
/// doubtful.
pub fn asks_about_encoding(
    requested: &EncodingMode,
    assessment: &Option<ZipEncodingAssessment>,
    has_prompter: bool,
) -> (r: bool)
    ensures
        r == (requested is Auto && (*assessment matches Some(a) && a.should_confirm)
            && has_prompter),
{
    match (requested, assessment) {
        (EncodingMode::Auto, Some(a)) => a.should_confirm && has_prompter,
        _ => false,
    }
}

/// The encoding that an archive is read with, or nothing where it is skipped: what was asked
/// for, then what the user says, then the guess.
pub open spec fn resolved(
    requested: EncodingMode,
    assessment: Option<ZipEncodingAssessment>,
    answer: Option<EncodingConfirmationChoice>,
) -> Option<Option<Seq<char>>> {
    match requested {
        EncodingMode::Override(name) => Some(Some(name@)),
        EncodingMode::Auto => match assessment {
            None => Some(None),
            Some(a) => match answer {
                Some(EncodingConfirmationChoice::Override(name)) => Some(Some(name@)),
                Some(EncodingConfirmationChoice::SkipArchive) => None,
                _ => Some(Some(a.selected@)),
            },
        },
    }
}

pub fn resolve_encoding_mode(
    requested: EncodingMode,
    assessment: &Option<ZipEncodingAssessment>,
    answer: Option<EncodingConfirmationChoice>,
) -> (r: Option<EncodingMode>)
    ensures
        match r {
            Some(mode) => resolved(requested, *assessment, answer) == Some(mode.name()),
            None => resolved(requested, *assessment, answer) is None,
        },
{
    match requested {
        EncodingMode::Override(name) => Some(EncodingMode::Override(name)),
        EncodingMode::Auto => match assessment {
            None => Some(EncodingMode::Auto),
            Some(a) => match answer {
                Some(EncodingConfirmationChoice::Override(name)) => Some(
                    EncodingMode::Override(name),
                ),
                Some(EncodingConfirmationChoice::SkipArchive) => None,
                _ => Some(EncodingMode::Override(a.selected.clone())),
            },
        },
    }
}

/// Names that are all ASCII raise no doubt, and neither do names that are all UTF-8 and were
/// taken for that.
pub proof fn plain_names_are_not_doubted(
    selected: Seq<char>,
    facts: ConfidenceFacts,
    ascii_only: bool,
    all_utf8: bool,
    previews: Seq<Seq<char>>,
)
    requires
        ascii_only || (all_utf8 && crate::text::lowered(selected) == "utf-8"@),
    ensures
        doubts(selected, facts, ascii_only, all_utf8, previews).len() == 0,
{
}

/// An encoding that was asked for is used, whatever was guessed or answered.
pub proof fn request_wins(
    name: String,
    assessment: Option<ZipEncodingAssessment>,
    answer: Option<EncodingConfirmationChoice>,
)
    ensures
        resolved(EncodingMode::Override(name), assessment, answer) == Some(Some(name@)),
{
}

/// One doubt alone is enough: the user has something to confirm exactly where the guess is worth
/// little, where another one is worth about the same, or where a name looks garbled. Each doubt
/// is told, whatever the others say, and nothing else is.
pub proof fn each_doubt_is_told(
    selected: Seq<char>,
    facts: ConfidenceFacts,
    ascii_only: bool,
    all_utf8: bool,
    previews: Seq<Seq<char>>,
)
    requires
        !ascii_only,
        !all_utf8 || crate::text::lowered(selected) != "utf-8"@,
    ensures
        ({
            let told = doubts(selected, facts, ascii_only, all_utf8, previews);
            let looks_garbled = exists|i: int|
                0 <= i < previews.len() && garbled(#[trigger] previews[i]);
            &&& told.len() > 0 <==> facts.low_percent is Some || facts.close || looks_garbled
            &&& told.len() == (if facts.low_percent is Some {
                1int
            } else {
                0
            }) + (if facts.close {
                1int
            } else {
                0
            }) + (if looks_garbled {
                1int
            } else {
                0
            })
            &&& facts.low_percent matches Some(p) ==> told[0] == "low confidence "@
                + crate::text::decimal(p as nat) + "%"@
            &&& facts.close ==> told.contains("top encoding candidates are close"@)
            &&& looks_garbled ==> told.last() == "previewed names look garbled"@
        }),
{
    let told = doubts(selected, facts, ascii_only, all_utf8, previews);
    if facts.close {
        let at: int = if facts.low_percent is Some {
            1
        } else {
            0
        };
        assert(told[at] == "top encoding candidates are close"@);
    }
}

/// Only the names that say something are looked at, and all of those are.
pub proof fn empty_names_do_not_count(names: Seq<Vec<u8>>, raw: Seq<u8>)
    ensures
        present(names).contains(raw) <==> raw.len() > 0 && raw_names(names).contains(raw),
        present(names).len() <= names.len(),
    decreases names.len(),
{
    if names.len() > 0 {
        empty_names_do_not_count(names.drop_last(), raw);
        assert(raw_names(names) =~= raw_names(names.drop_last()).push(names.last()@));
        crate::order::lemma_pushed(raw_names(names.drop_last()), names.last()@, raw);
        crate::order::lemma_pushed(present(names.drop_last()), names.last()@, raw);
    }
}

/// A preview shows the first names, six at most, each as the encoding reads it without a loss, or
/// else as far as it can be read at all.
pub proof fn preview_shows_the_first_names(names: Seq<Seq<u8>>, encoding: Seq<char>, i: int)
    ensures
        names.len() <= 6 ==> previewed(names, encoding).len() == names.len(),
        names.len() > 6 ==> previewed(names, encoding).len() == 6,
        0 <= i < previewed(names, encoding).len() && crate::encoding::clean_reading(
            names[i],
            encoding,
        ) is Some ==> Some(previewed(names, encoding)[i]) == crate::encoding::clean_reading(
            names[i],
            encoding,
        ),
        0 <= i < previewed(names, encoding).len() && crate::encoding::clean_reading(
            names[i],
            encoding,
        ) is None ==> previewed(names, encoding)[i] == crate::encoding::lossy_text(names[i]),
{
}

/// The characters that betray a wrong encoding are these few letters and signs of the upper half of
/// Latin-1.
pub proof fn markers_lie_in_the_upper_half(c: char)
    ensures
        is_marker(c) ==> 0x80 <= c as int <= 0xff,
        is_marker(c) <==> c as int == 0xa2 || 0xa4 <= c as int <= 0xa5 || 0xc2 <= c as int <= 0xc3
            || 0xd0 <= c as int <= 0xd1 || 0xe6 <= c as int <= 0xe7 || c as int == 0xf8,
{
}

} // verus!
