//! How the names in an archive may be encoded.
//!
//! A guess is made from the bytes, and the encodings of Chinese, Japanese and Korean are tried
//! beside it. How much each reading is worth is a number that the caller computes from its
//! profile; here the readings are made and ordered.

use vstd::prelude::*;
use vstd::string::*;
use crate::text::{chars_of, same_text, text_of};

verus! {

/// The encodings that are always tried.
pub const CJK_CANDIDATES: [&'static str; 7] = [
    "UTF-8",
    "GB18030",
    "GBK",
    "Big5",
    "Shift_JIS",
    "EUC-JP",
    "EUC-KR",
];

/// What the bytes say in the encoding with this label, and whether something in them had to be
/// replaced; nothing for an unknown label.
pub uninterp spec fn decoded_as(label: Seq<char>, raw: Seq<u8>) -> Option<(Seq<char>, bool)>;

/// The encoding that the bytes seem to have.
pub uninterp spec fn guessed_encoding(raw: Seq<u8>) -> Seq<char>;

/// The encoding that the bytes seem to have, and what they say in it.
pub open spec fn guessed_reading(raw: Seq<u8>) -> (Seq<char>, Seq<char>) {
    (guessed_encoding(raw), (decoded_as(guessed_encoding(raw), raw)->0).0)
}

/// The text with what is not UTF-8 replaced.
pub uninterp spec fn lossy_text(raw: Seq<u8>) -> Seq<char>;

/// The bytes are few enough for the size of a text made of them to be computed.
pub open spec fn is_decodable(raw: Seq<u8>) -> bool {
    raw.len() <= usize::MAX / 8
}

/// `encoding_rs::Encoding::for_label` and `Encoding::decode_without_bom_handling`: the encoding
/// that a label names, and the text of the bytes in it. Nothing but the label and the bytes
/// decides the result. No bytes are an empty text in every encoding, with nothing replaced.
#[verifier::external_body]
fn decode_as(label: &str, raw: &[u8]) -> (r: Option<(String, bool)>)
    requires
        is_decodable(raw@),
    ensures
        match r {
            Some(d) => {
                &&& decoded_as(label@, raw@) == Some((d.0@, d.1))
                &&& raw@.len() == 0 ==> d.0@.len() == 0 && !d.1
            },
            None => decoded_as(label@, raw@) is None,
        },
{
    let encoding = encoding_rs::Encoding::for_label(label.as_bytes())?;
    let (text, replaced) = encoding.decode_without_bom_handling(raw);
    Some((text.into_owned(), replaced))
}

/// `chardetng::EncodingDetector`: a new detector is fed all the bytes and asked for its guess,
/// with UTF-8 allowed and no domain given. Nothing but the bytes decides the result. The name of
/// each encoding that the detector knows is also a label of it, so that the bytes can be decoded
/// by that name.
#[verifier::external_body]
fn guess(raw: &[u8]) -> (r: String)
    ensures
        r@ == guessed_encoding(raw@),
        decoded_as(r@, raw@) is Some,
{
    let mut detector = chardetng::EncodingDetector::new();
    detector.feed(raw, false);
    detector.feed(&[], true);
    let (encoding, _) = detector.guess_assess(None, true);
    encoding.name().to_owned()
}

/// `std::str::from_utf8`: the text that the bytes are in UTF-8, where they are that.
#[verifier::external_body]
fn from_utf8(raw: &[u8]) -> (r: Option<String>)
    ensures
        match r {
            Some(s) => vstd::utf8::valid_utf8(raw@) && s@ == vstd::utf8::decode_utf8(raw@),
            None => !vstd::utf8::valid_utf8(raw@),
        },
{
    std::str::from_utf8(raw).ok().map(String::from)
}

/// `String::from_utf8_lossy`: the text that the bytes are in UTF-8, with what is not UTF-8
/// replaced. Nothing but the bytes decides the result.
#[verifier::external_body]
fn from_utf8_lossy(raw: &[u8]) -> (r: String)
    ensures
        r@ == lossy_text(raw@),
        vstd::utf8::valid_utf8(raw@) ==> r@ == vstd::utf8::decode_utf8(raw@),
{
    String::from_utf8_lossy(raw).into_owned()
}

/// Whether the bytes are UTF-8.
pub fn is_utf8(raw: &[u8]) -> (r: bool)
    ensures
        r == vstd::utf8::valid_utf8(raw@),
{
    from_utf8(raw).is_some()
}

/// A character of Chinese, Japanese or Korean.
pub open spec fn is_cjk(c: char) -> bool {
    ||| '\u{4E00}' <= c <= '\u{9FFF}'
    ||| '\u{3400}' <= c <= '\u{4DBF}'
    ||| '\u{20000}' <= c <= '\u{2A6DF}'
    ||| '\u{F900}' <= c <= '\u{FAFF}'
    ||| '\u{3040}' <= c <= '\u{309F}'
    ||| '\u{30A0}' <= c <= '\u{30FF}'
    ||| '\u{AC00}' <= c <= '\u{D7AF}'
    ||| '\u{1100}' <= c <= '\u{11FF}'
}

pub fn is_cjk_or_kana(c: char) -> (r: bool)
    ensures
        r == is_cjk(c),
{
    ('\u{4E00}' <= c && c <= '\u{9FFF}') || ('\u{3400}' <= c && c <= '\u{4DBF}') || ('\u{20000}'
        <= c && c <= '\u{2A6DF}') || ('\u{F900}' <= c && c <= '\u{FAFF}') || ('\u{3040}' <= c && c
        <= '\u{309F}') || ('\u{30A0}' <= c && c <= '\u{30FF}') || ('\u{AC00}' <= c && c
        <= '\u{D7AF}') || ('\u{1100}' <= c && c <= '\u{11FF}')
}

/// How many characters of a kind there are.
pub open spec fn count_where(s: Seq<char>, of: spec_fn(char) -> bool) -> nat
    decreases s.len(),
{
    if s.len() == 0 {
        0
    } else {
        count_where(s.drop_last(), of) + if of(s.last()) {
            1nat
        } else {
            0nat
        }
    }
}

/// What a text is made of.
#[derive(Clone, Copy, Debug, PartialEq, Eq, Structural)]
pub struct Profile {
    /// How many characters there are, at least one.
    pub total: usize,
    /// How many are of Chinese, Japanese or Korean.
    pub cjk: usize,
    /// How many stand for something that could not be read.
    pub replacement: usize,
}

/// The numbers are those of the text.
pub open spec fn profiles(p: Profile, s: Seq<char>) -> bool {
    &&& p.total == if s.len() > 1 {
        s.len()
    } else {
        1
    }
    &&& p.replacement == count_where(s, |c: char| c == '\u{FFFD}')
    &&& p.cjk == count_where(s, |c: char| is_cjk(c))
}

pub fn classify_text(decoded: &str) -> (r: Profile)
    ensures
        profiles(r, decoded@),
{
    let chars: Vec<char> = chars_of(decoded);
    let mut cjk: usize = 0;
    let mut replacement: usize = 0;
    let mut i: usize = 0;
    let ghost mark = |c: char| c == '\u{FFFD}';
    let ghost asian = |c: char| is_cjk(c);
    assert(chars@.take(0).len() == 0);
    while i < chars.len()
        invariant
            i <= chars@.len(),
            cjk <= i,
            replacement <= i,
            mark == (|c: char| c == '\u{FFFD}'),
            asian == (|c: char| is_cjk(c)),
            replacement == count_where(chars@.take(i as int), mark),
            cjk == count_where(chars@.take(i as int), asian),
        decreases chars.len() - i,
    {
        let c: char = chars[i];
        proof {
            assert(chars@.take(i + 1).drop_last() =~= chars@.take(i as int));
            assert(chars@.take(i + 1).last() == c);
        }
        if c == '\u{FFFD}' {
            replacement += 1;
        } else if is_cjk_or_kana(c) {
            cjk += 1;
        }
        i += 1;
    }
    assert(chars@.take(i as int) =~= chars@);
    Profile {
        total: if chars.len() > 1 {
            chars.len()
        } else {
            1
        },
        cjk,
        replacement,
    }
}

/// The bytes in one encoding.
#[derive(Debug)]
pub struct Reading {
    pub name: String,
    pub decoded: String,
    pub profile: Profile,
}

impl Reading {
    /// The reading has this name and this text.
    pub open spec fn is(self, name: Seq<char>, decoded: Seq<char>) -> bool {
        self.name@ == name && self.decoded@ == decoded && profiles(self.profile, decoded)
    }

    fn of(name: String, decoded: String) -> (r: Reading)
        ensures
            r.is(name@, decoded@),
    {
        let profile = classify_text(decoded.as_str());
        Reading { name, decoded, profile }
    }
}

/// The names and texts of the readings of the first `n` encodings that are always tried, but
/// for the one with this name.
pub open spec fn tried(raw: Seq<u8>, but: Seq<char>, n: nat) -> Seq<(Seq<char>, Seq<char>)>
    decreases n,
{
    if n == 0 {
        Seq::empty()
    } else {
        let rest = tried(raw, but, (n - 1) as nat);
        let label = CJK_CANDIDATES@[n - 1]@;
        if label == but {
            rest
        } else {
            match decoded_as(label, raw) {
                Some(d) => rest.push((label, d.0)),
                None => rest,
            }
        }
    }
}

/// The readings are these.
pub open spec fn are(readings: Seq<Reading>, of: Seq<(Seq<char>, Seq<char>)>) -> bool {
    &&& readings.len() == of.len()
    &&& forall|i: int| 0 <= i < of.len() ==> (#[trigger] readings[i]).is(of[i].0, of[i].1)
}

/// The ways to read some bytes.
#[derive(Debug)]
pub enum Detection {
    /// There is nothing to read.
    Empty,
    /// They are UTF-8.
    Utf8(Reading),
    /// There is a guess, and there are others that were tried.
    Guessed { primary: Reading, alternatives: Vec<Reading> },
}

/// These are the ways to read the bytes.
pub open spec fn reads(d: Detection, raw: Seq<u8>) -> bool {
    match d {
        Detection::Empty => raw.len() == 0,
        Detection::Utf8(reading) => raw.len() > 0 && vstd::utf8::valid_utf8(raw) && reading.is(
            "UTF-8"@,
            vstd::utf8::decode_utf8(raw),
        ),
        Detection::Guessed { primary, alternatives } => {
            &&& raw.len() > 0
            &&& !vstd::utf8::valid_utf8(raw)
            &&& primary.is(guessed_reading(raw).0, guessed_reading(raw).1)
            &&& are(alternatives@, tried(raw, guessed_reading(raw).0, 7))
        },
    }
}

/// The name of the encoding that the bytes are taken to have.
pub open spec fn selected_name(raw: Seq<u8>) -> Seq<char> {
    if raw.len() == 0 || vstd::utf8::valid_utf8(raw) {
        "UTF-8"@
    } else {
        guessed_reading(raw).0
    }
}

impl Detection {
    /// The name of the first way to read the bytes.
    pub open spec fn name(&self) -> Seq<char> {
        match self {
            Detection::Empty => "UTF-8"@,
            Detection::Utf8(reading) => reading.name@,
            Detection::Guessed { primary, .. } => primary.name@,
        }
    }

    pub fn selected(&self) -> (r: &str)
        ensures
            r@ == self.name(),
    {
        match self {
            Detection::Empty => "UTF-8",
            Detection::Utf8(reading) => reading.name.as_str(),
            Detection::Guessed { primary, .. } => primary.name.as_str(),
        }
    }
}

/// The first way to read the bytes has the name of the encoding that they are taken to have.
pub proof fn first_reading_is_selected(d: Detection, raw: Seq<u8>)
    requires
        reads(d, raw),
    ensures
        d.name() == selected_name(raw),
{
}

fn try_others(raw: &[u8], but: &str) -> (r: Vec<Reading>)
    requires
        is_decodable(raw@),
    ensures
        are(r@, tried(raw@, but@, 7)),
{
    let mut out: Vec<Reading> = Vec::new();
    let mut i: usize = 0;
    while i < 7
        invariant
            i <= 7,
            is_decodable(raw@),
            are(out@, tried(raw@, but@, i as nat)),
        decreases 7 - i,
    {
        let label: &str = CJK_CANDIDATES[i];
        let ghost before = out@;
        if !same_text(label, but) {
            if let Some((decoded, _)) = decode_as(label, raw) {
                out.push(Reading::of(label.to_owned(), decoded));
            }
        }
        i += 1;
        proof {
            let of = tried(raw@, but@, i as nat);
            assert forall|k: int| 0 <= k < of.len() implies (#[trigger] out@[k]).is(
                of[k].0,
                of[k].1,
            ) by {
                if k < before.len() {
                    assert(out@[k] == before[k]);
                }
            }
        }
    }
    out
}

/// Reads bytes, such as the names in an archive.
#[derive(Clone, Copy, Debug)]
pub struct ArchiveEncodingDetector {}

impl Default for ArchiveEncodingDetector {
    fn default() -> (r: ArchiveEncodingDetector)
        ensures
            r == (ArchiveEncodingDetector {  }),
    {
        ArchiveEncodingDetector {  }
    }
}

impl ArchiveEncodingDetector {
    pub fn new() -> (r: ArchiveEncodingDetector)
        ensures
            r == (ArchiveEncodingDetector {  }),
    {
        ArchiveEncodingDetector {  }
    }

    /// The ways to read some bytes. What was read before does not matter.
    pub fn detect(&self, raw: &[u8]) -> (r: Detection)
        requires
            is_decodable(raw@),
        ensures
            reads(r, raw@),
    {
        if raw.len() == 0 {
            return Detection::Empty;
        }
        if let Some(decoded) = from_utf8(raw) {
            return Detection::Utf8(Reading::of("UTF-8".to_owned(), decoded));
        }
        let name = guess(raw);
        let alternatives = try_others(raw, name.as_str());
        let decoded = match decode_as(name.as_str(), raw) {
            Some((text, _)) => text,
            None => String::new(),
        };
        Detection::Guessed { primary: Reading::of(name, decoded), alternatives }
    }
}

/// An encoding, with the number that orders it.
#[derive(Debug)]
pub struct EncodingCandidate {
    pub name: String,
    pub rank: u32,
}

/// What was found about the encoding of some bytes.
#[derive(Debug)]
pub struct EncodingDetectionResult {
    pub selected: String,
    pub rank: u32,
    pub candidates: Vec<EncodingCandidate>,
    pub decoded_sample: String,
}

/// The names and numbers of the candidates.
pub open spec fn listed(candidates: Seq<EncodingCandidate>) -> Seq<(Seq<char>, u32)> {
    candidates.map_values(|c: EncodingCandidate| (c.name@, c.rank))
}

/// How many at the front are worth at least so much.
pub open spec fn place(list: Seq<(Seq<char>, u32)>, rank: u32) -> nat
    decreases list.len(),
{
    if list.len() == 0 || list[0].1 < rank {
        0
    } else {
        1 + place(list.drop_first(), rank)
    }
}

/// The first `n` readings that have a number, those worth more first, and those worth the same
/// in the order in which they were tried.
pub open spec fn ordered(readings: Seq<Reading>, ranks: Seq<Option<u32>>, n: nat) -> Seq<
    (Seq<char>, u32),
>
    decreases n,
{
    if n == 0 {
        Seq::empty()
    } else {
        let rest = ordered(readings, ranks, (n - 1) as nat);
        match ranks[n - 1] {
            Some(rank) => rest.insert(
                place(rest, rank) as int,
                (readings[n - 1].name@, rank),
            ),
            None => rest,
        }
    }
}

proof fn lemma_place(list: Seq<(Seq<char>, u32)>, rank: u32)
    ensures
        place(list, rank) <= list.len(),
        forall|i: int| 0 <= i < place(list, rank) ==> (#[trigger] list[i]).1 >= rank,
        place(list, rank) < list.len() ==> list[place(list, rank) as int].1 < rank,
    decreases list.len(),
{
    if list.len() > 0 && list[0].1 >= rank {
        lemma_place(list.drop_first(), rank);
        assert forall|i: int| 0 <= i < place(list, rank) implies (#[trigger] list[i]).1 >= rank by {
            if i > 0 {
                assert(list.drop_first()[i - 1] == list[i]);
            }
        }
    }
}

proof fn lemma_place_at(list: Seq<(Seq<char>, u32)>, rank: u32, k: nat)
    requires
        k <= list.len(),
        forall|i: int| 0 <= i < k ==> (#[trigger] list[i]).1 >= rank,
        k < list.len() ==> list[k as int].1 < rank,
    ensures
        place(list, rank) == k,
    decreases list.len(),
{
    if k > 0 {
        assert(list[0].1 >= rank);
        assert forall|i: int| 0 <= i < k - 1 implies (#[trigger] list.drop_first()[i]).1
            >= rank by {
            assert(list.drop_first()[i] == list[i + 1]);
        }
        lemma_place_at(list.drop_first(), rank, (k - 1) as nat);
    }
}

fn order(readings: &Vec<Reading>, ranks: &Vec<Option<u32>>) -> (r: Vec<EncodingCandidate>)
    requires
        ranks@.len() == readings@.len(),
    ensures
        listed(r@) == ordered(readings@, ranks@, readings@.len()),
{
    let mut out: Vec<EncodingCandidate> = Vec::new();
    let mut i: usize = 0;
    assert(listed(out@) =~= Seq::<(Seq<char>, u32)>::empty());
    while i < readings.len()
        invariant
            i <= readings@.len(),
            ranks@.len() == readings@.len(),
            listed(out@) == ordered(readings@, ranks@, i as nat),
        decreases readings.len() - i,
    {
        if let Some(rank) = ranks[i] {
            let ghost before = out@;
            let mut at: usize = 0;
            while at < out.len() && out[at].rank >= rank
                invariant
                    at <= out@.len(),
                    out@ == before,
                    forall|k: int| 0 <= k < at ==> (#[trigger] out@[k]).rank >= rank,
                decreases out.len() - at,
            {
                at += 1;
            }
            proof {
                let list = listed(before);
                assert forall|k: int| 0 <= k < at implies (#[trigger] list[k]).1 >= rank by {
                    assert(before[k].rank >= rank);
                }
                lemma_place_at(list, rank, at as nat);
            }
            out.insert(at, EncodingCandidate { name: readings[i].name.clone(), rank });
            assert(listed(out@) =~= listed(before).insert(
                at as int,
                (readings@[i as int].name@, rank),
            ));
        }
        i += 1;
    }
    out
}

/// A control character that has no place in a name.
pub open spec fn is_stray_control(c: char) -> bool {
    (c <= '\u{1F}' || '\u{7F}' <= c <= '\u{9F}') && c != '\n' && c != '\t'
}

pub fn stray_control(c: char) -> (r: bool)
    ensures
        r == is_stray_control(c),
{
    (c <= '\u{1F}' || ('\u{7F}' <= c && c <= '\u{9F}')) && c != '\n' && c != '\t'
}

/// The beginning of a text, with a mark for each stray control character.
pub open spec fn sampled(s: Seq<char>) -> Seq<char> {
    s.take(
        if s.len() > 80 {
            80
        } else {
            s.len() as int
        },
    ).map_values(
        |c: char|
            if is_stray_control(c) {
                '\u{FFFD}'
            } else {
                c
            },
    )
}

pub fn sample(text: &str) -> (r: String)
    ensures
        r@ == sampled(text@),
{
    let chars: Vec<char> = chars_of(text);
    let n: usize = if chars.len() > 80 {
        80
    } else {
        chars.len()
    };
    let mut out: Vec<char> = Vec::new();
    let mut i: usize = 0;
    while i < n
        invariant
            i <= n <= chars@.len(),
            out@.len() == i,
            forall|k: int|
                0 <= k < i ==> #[trigger] out@[k] == (if is_stray_control(chars@[k]) {
                    '\u{FFFD}'
                } else {
                    chars@[k]
                }),
        decreases n - i,
    {
        let c: char = chars[i];
        if stray_control(c) {
            out.push('\u{FFFD}');
        } else {
            out.push(c);
        }
        i += 1;
    }
    assert(out@ =~= sampled(text@));
    text_of(&out)
}

/// Puts the readings in order: the guess first, then the others by the numbers that were given
/// to them. One without a number is left out.
pub fn rank_readings(
    detection: &Detection,
    primary_rank: u32,
    alternative_ranks: &Vec<Option<u32>>,
) -> (r: EncodingDetectionResult)
    requires
        detection matches Detection::Guessed { alternatives, .. } ==> alternatives@.len()
            == alternative_ranks@.len(),
    ensures
        r.rank == primary_rank,
        match detection {
            Detection::Empty => {
                &&& r.selected@ == "UTF-8"@
                &&& listed(r.candidates@) == seq![("UTF-8"@, primary_rank)]
                &&& r.decoded_sample@ == Seq::<char>::empty()
            },
            Detection::Utf8(reading) => {
                &&& r.selected@ == reading.name@
                &&& listed(r.candidates@) == seq![(reading.name@, primary_rank)]
                &&& r.decoded_sample@ == sampled(reading.decoded@)
            },
            Detection::Guessed { primary, alternatives } => {
                &&& r.selected@ == primary.name@
                &&& listed(r.candidates@) == seq![(primary.name@, primary_rank)] + ordered(
                    alternatives@,
                    alternative_ranks@,
                    alternatives@.len(),
                )
                &&& r.decoded_sample@ == sampled(primary.decoded@)
            },
        },
{
    let (name, text, others): (String, String, Vec<EncodingCandidate>) = match detection {
        Detection::Empty => ("UTF-8".to_owned(), String::new(), Vec::new()),
        Detection::Utf8(reading) => (
            reading.name.clone(),
            sample(reading.decoded.as_str()),
            Vec::new(),
        ),
        Detection::Guessed { primary, alternatives } => (
            primary.name.clone(),
            sample(primary.decoded.as_str()),
            order(alternatives, alternative_ranks),
        ),
    };
    let ghost rest = listed(others@);
    let mut candidates = others;
    candidates.insert(0, EncodingCandidate { name: name.clone(), rank: primary_rank });
    assert(listed(candidates@) =~= seq![(name@, primary_rank)] + rest);
    assert(seq![(name@, primary_rank)] + Seq::<(Seq<char>, u32)>::empty() =~= seq![
        (name@, primary_rank),
    ]);
    EncodingDetectionResult { selected: name, rank: primary_rank, candidates, decoded_sample: text }
}

/// What the bytes say in the encoding with this label, where the label is known and nothing had
/// to be replaced.
pub open spec fn clean_reading(raw: Seq<u8>, label: Seq<char>) -> Option<Seq<char>> {
    match decoded_as(label, raw) {
        Some((text, false)) => Some(text),
        _ => None,
    }
}

/// Decodes bytes by the name of an encoding: nothing where the encoding is unknown or the bytes
/// are no text in it. No bytes are an empty text in every known encoding.
pub fn decode_name(raw: &[u8], encoding: &str) -> (r: Option<String>)
    requires
        is_decodable(raw@),
    ensures
        crate::text::opt_text(r) == clean_reading(raw@, encoding@),
        raw@.len() == 0 && decoded_as(encoding@, raw@) is Some ==> crate::text::opt_text(r) == Some(
            Seq::<char>::empty(),
        ),
{
    match decode_as(encoding, raw) {
        Some((text, replaced)) => if replaced {
            None
        } else {
            Some(text)
        },
        None => None,
    }
}

/// A name for the user to look at.
pub fn decode_preview_name(raw: &[u8], encoding: &str) -> (r: String)
    requires
        is_decodable(raw@),
    ensures
        r@ == (match clean_reading(raw@, encoding@) {
            Some(text) => text,
            None => lossy_text(raw@),
        }),
        raw@.len() == 0 ==> r@.len() == 0,
{
    proof {
        if raw@.len() == 0 {
            assert(raw@ =~= Seq::<u8>::empty());
        }
    }
    match decode_name(raw, encoding) {
        Some(text) => text,
        None => from_utf8_lossy(raw),
    }
}

/// The candidates behind the guess come in falling order of their numbers.
pub proof fn candidates_fall(readings: Seq<Reading>, ranks: Seq<Option<u32>>, n: nat)
    requires
        n <= readings.len(),
        ranks.len() == readings.len(),
    ensures
        forall|i: int, j: int|
            0 <= i < j < ordered(readings, ranks, n).len() ==> (#[trigger] ordered(
                readings,
                ranks,
                n,
            )[i]).1 >= (#[trigger] ordered(readings, ranks, n)[j]).1,
    decreases n,
{
    if n > 0 {
        candidates_fall(readings, ranks, (n - 1) as nat);
        let rest = ordered(readings, ranks, (n - 1) as nat);
        let all = ordered(readings, ranks, n);
        if let Some(rank) = ranks[n - 1] {
            lemma_place(rest, rank);
            let at = place(rest, rank) as int;
            assert forall|i: int, j: int| 0 <= i < j < all.len() implies (#[trigger] all[i]).1 >= (
            #[trigger] all[j]).1 by {
                let a = if i < at { i } else { i - 1 };
                let b = if j < at { j } else { j - 1 };
                if i != at {
                    assert(all[i] == rest[a]);
                }
                if j != at {
                    assert(all[j] == rest[b]);
                }
                if i == at && b > at {
                    assert(rest[at].1 >= rest[b].1);
                }
            }
        }
    }
}

/// The first `n` readings that have a number, in the order in which they were tried.
pub open spec fn numbered(readings: Seq<Reading>, ranks: Seq<Option<u32>>, n: nat) -> Seq<
    (Seq<char>, u32),
>
    decreases n,
{
    if n == 0 {
        Seq::empty()
    } else {
        let rest = numbered(readings, ranks, (n - 1) as nat);
        match ranks[n - 1] {
            Some(rank) => rest.push((readings[n - 1].name@, rank)),
            None => rest,
        }
    }
}

/// No reading is lost or made up: the candidates behind the guess are the readings that were given
/// a number, each as often as it was.
pub proof fn candidates_are_complete(readings: Seq<Reading>, ranks: Seq<Option<u32>>, n: nat)
    requires
        n <= readings.len(),
        ranks.len() == readings.len(),
    ensures
        ordered(readings, ranks, n).to_multiset() == numbered(readings, ranks, n).to_multiset(),
    decreases n,
{
    if n > 0 {
        candidates_are_complete(readings, ranks, (n - 1) as nat);
        if let Some(rank) = ranks[n - 1] {
            let rest = ordered(readings, ranks, (n - 1) as nat);
            let tried = numbered(readings, ranks, (n - 1) as nat);
            let candidate = (readings[n - 1].name@, rank);
            lemma_place(rest, rank);
            vstd::seq_lib::to_multiset_insert(rest, place(rest, rank) as int, candidate);
            vstd::seq_lib::to_multiset_build(tried, candidate);
        }
    }
}

/// A sample is as long as its text, up to eighty characters, and says the same but for stray
/// control characters, of which it has none.
pub proof fn sample_is_a_clean_beginning(s: Seq<char>, i: int)
    ensures
        sampled(s).len() <= 80,
        s.len() <= 80 ==> sampled(s).len() == s.len(),
        s.len() > 80 ==> sampled(s).len() == 80,
        0 <= i < sampled(s).len() ==> !is_stray_control(sampled(s)[i]),
        0 <= i < sampled(s).len() && !is_stray_control(s[i]) ==> sampled(s)[i] == s[i],
        0 <= i < sampled(s).len() && is_stray_control(s[i]) ==> sampled(s)[i] == '\u{FFFD}',
        sampled(sampled(s)) == sampled(s),
{
    let t = sampled(s);
    assert forall|k: int| 0 <= k < t.len() implies !is_stray_control(#[trigger] t[k]) by {
        assert(t[k] == (if is_stray_control(s[k]) {
            '\u{FFFD}'
        } else {
            s[k]
        }));
    }
    assert(sampled(t) =~= t) by {
        assert forall|k: int| 0 <= k < t.len() implies sampled(t)[k] == t[k] by {
            assert(!is_stray_control(t[k]));
        }
    }
}

/// Line breaks and tabs, printable ASCII, and everything behind the second control block may stand
/// in a name; the other control characters may not.
pub proof fn control_characters_are_stray(c: char)
    ensures
        c == '\n' || c == '\t' ==> !is_stray_control(c),
        ' ' <= c <= '~' ==> !is_stray_control(c),
        c > '\u{9F}' ==> !is_stray_control(c),
        c < ' ' && c != '\n' && c != '\t' ==> is_stray_control(c),
        '~' < c < '\u{A0}' ==> is_stray_control(c),
{
}

/// No character below the Hangul letters is one of Chinese, Japanese or Korean, nor one between
/// the blocks or behind the last.
pub proof fn blocks_are_apart(c: char)
    ensures
        c < '\u{1100}' ==> !is_cjk(c),
        '\u{1200}' <= c < '\u{3040}' ==> !is_cjk(c),
        '\u{3100}' <= c < '\u{3400}' ==> !is_cjk(c),
        '\u{4DC0}' <= c < '\u{4E00}' ==> !is_cjk(c),
        '\u{A000}' <= c < '\u{AC00}' ==> !is_cjk(c),
        '\u{D7B0}' <= c < '\u{F900}' ==> !is_cjk(c),
        '\u{FB00}' <= c < '\u{20000}' ==> !is_cjk(c),
        '\u{2A6E0}' <= c ==> !is_cjk(c),
        is_cjk(c) || c < '\u{1100}' || '\u{1200}' <= c < '\u{3040}' || '\u{3100}' <= c
            < '\u{3400}' || '\u{4DC0}' <= c < '\u{4E00}' || '\u{A000}' <= c < '\u{AC00}'
            || '\u{D7B0}' <= c < '\u{F900}' || '\u{FB00}' <= c < '\u{20000}' || '\u{2A6E0}'
            <= c,
{
}

/// A text that holds a character more counts one more of its kinds, and no more characters of a
/// kind are counted than there are.
pub proof fn kinds_are_counted(s: Seq<char>, c: char, of: spec_fn(char) -> bool)
    ensures
        count_where(s, of) <= s.len(),
        of(c) ==> count_where(s.push(c), of) == count_where(s, of) + 1,
        !of(c) ==> count_where(s.push(c), of) == count_where(s, of),
        (forall|i: int| 0 <= i < s.len() ==> of(#[trigger] s[i])) <==> count_where(s, of) == s.len(),
    decreases s.len(),
{
    assert(s.push(c).drop_last() =~= s);
    if s.len() > 0 {
        kinds_are_counted(s.drop_last(), c, of);
        assert(s.last() == s[s.len() - 1]);
        if forall|i: int| 0 <= i < s.len() ==> of(#[trigger] s[i]) {
            assert forall|i: int| 0 <= i < s.drop_last().len() implies of(
                #[trigger] s.drop_last()[i],
            ) by {
                assert(of(s[i]));
            }
        }
        if count_where(s, of) == s.len() {
            assert forall|i: int| 0 <= i < s.len() implies of(#[trigger] s[i]) by {
                if i < s.len() - 1 {
                    assert(of(s.drop_last()[i]));
                }
            }
        }
    }
}

/// A reading is clean only where nothing had to be replaced, and says then what the bytes say.
pub proof fn clean_reading_replaces_nothing(raw: Seq<u8>, label: Seq<char>)
    ensures
        clean_reading(raw, label) is Some ==> decoded_as(label, raw) is Some && !(decoded_as(
            label,
            raw,
        )->0).1 && clean_reading(raw, label) == Some((decoded_as(label, raw)->0).0),
        decoded_as(label, raw) is Some && !(decoded_as(label, raw)->0).1 ==> clean_reading(
            raw,
            label,
        ) is Some,
{
}

} // verus!
