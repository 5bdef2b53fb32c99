//! Text: comparison, order and the few number formats that messages use.

use vstd::prelude::*;

verus! {

/// `String::push` appends one character.
pub assume_specification[ String::push ](s: &mut String, c: char)
    ensures
        final(s)@ == old(s)@.push(c),
;

/// The decimal digit that stands for `d`.
pub open spec fn digit(d: nat) -> char {
    (48 + d) as char
}

/// `n` in base ten, without leading zeros.
pub open spec fn decimal(n: nat) -> Seq<char>
    decreases n,
{
    if n < 10 {
        seq![digit(n)]
    } else {
        decimal(n / 10).push(digit(n % 10))
    }
}

/// `count` times the character `0`.
pub open spec fn zeros(count: nat) -> Seq<char> {
    Seq::new(count, |i: int| '0')
}

/// `n` in base ten, filled with zeros on the left up to `width` characters.
pub open spec fn padded(n: nat, width: nat) -> Seq<char> {
    let digits = decimal(n);
    if digits.len() < width {
        zeros((width - digits.len()) as nat) + digits
    } else {
        digits
    }
}

/// `n` in base ten with its sign, filled with zeros behind the sign up to `width` characters.
pub open spec fn padded_signed(n: int, width: nat) -> Seq<char>
    recommends
        width > 0,
{
    if n < 0 {
        seq!['-'] + padded((-n) as nat, (width - 1) as nat)
    } else {
        padded(n as nat, width)
    }
}

/// `n` in base ten, with a minus sign where it is negative.
pub open spec fn signed_decimal(n: int) -> Seq<char> {
    if n < 0 {
        seq!['-'] + decimal((-n) as nat)
    } else {
        decimal(n as nat)
    }
}

/// The hexadecimal digit that stands for `d`, in upper case or not.
pub open spec fn hex_digit(d: nat, upper: bool) -> char {
    if d < 10 {
        digit(d)
    } else if upper {
        (55 + d) as char
    } else {
        (87 + d) as char
    }
}

/// `n` in base sixteen, without leading zeros.
pub open spec fn hexadecimal(n: nat, upper: bool) -> Seq<char>
    decreases n,
{
    if n < 16 {
        seq![hex_digit(n, upper)]
    } else {
        hexadecimal(n / 16, upper).push(hex_digit(n % 16, upper))
    }
}

/// Two lower case hexadecimal digits for each byte.
pub open spec fn hex_of(bytes: Seq<u8>) -> Seq<char>
    decreases bytes.len(),
{
    if bytes.len() == 0 {
        Seq::empty()
    } else {
        let last = bytes.last() as nat;
        hex_of(bytes.drop_last()).push(hex_digit(last / 16, false)).push(
            hex_digit(last % 16, false),
        )
    }
}

/// `a` comes before `b` in the lexicographic order of their values.
pub open spec fn bytes_before(a: Seq<u8>, b: Seq<u8>) -> bool
    decreases a.len(),
{
    if b.len() == 0 {
        false
    } else if a.len() == 0 {
        true
    } else if a[0] != b[0] {
        a[0] < b[0]
    } else {
        bytes_before(a.drop_first(), b.drop_first())
    }
}

/// `a` comes before `b` in the order of their UTF-8 bytes.
pub open spec fn text_before(a: Seq<char>, b: Seq<char>) -> bool {
    bytes_before(vstd::utf8::encode_utf8(a), vstd::utf8::encode_utf8(b))
}

/// The text of an optional string.
pub open spec fn opt_text(s: Option<String>) -> Option<Seq<char>> {
    match s {
        Some(v) => Some(v@),
        None => None,
    }
}

/// The text of an optional string slice.
pub open spec fn opt_str(s: Option<&str>) -> Option<Seq<char>> {
    match s {
        Some(v) => Some(v@),
        None => None,
    }
}

/// The texts of a list of strings.
pub open spec fn texts(v: Seq<String>) -> Seq<Seq<char>> {
    v.map_values(|s: String| s@)
}

/// UTF-8 tells any two texts apart.
pub proof fn lemma_utf8_injective(a: Seq<char>, b: Seq<char>)
    requires
        vstd::utf8::encode_utf8(a) == vstd::utf8::encode_utf8(b),
    ensures
        a == b,
{
    vstd::utf8::encode_utf8_decode_utf8(a);
    vstd::utf8::encode_utf8_decode_utf8(b);
}

/// Whether two byte strings hold the same bytes.
pub fn same_bytes(a: &[u8], b: &[u8]) -> (r: bool)
    ensures
        r == (a@ == b@),
{
    if a.len() != b.len() {
        return false;
    }
    let mut i: usize = 0;
    while i < a.len()
        invariant
            i <= a.len(),
            a@.len() == b@.len(),
            forall|k: int| 0 <= k < i ==> a@[k] == b@[k],
        decreases a.len() - i,
    {
        if a[i] != b[i] {
            return false;
        }
        i += 1;
    }
    assert(a@ =~= b@);
    true
}

/// Whether two texts are equal.
pub fn same_text(a: &str, b: &str) -> (r: bool)
    ensures
        r == (a@ == b@),
{
    let r = same_bytes(a.as_bytes(), b.as_bytes());
    proof {
        if r {
            lemma_utf8_injective(a@, b@);
        }
    }
    r
}

/// Whether two optional texts are equal.
pub fn same_opt_text(a: &Option<String>, b: &Option<String>) -> (r: bool)
    ensures
        r == (opt_text(*a) == opt_text(*b)),
{
    match (a, b) {
        (Some(x), Some(y)) => same_text(x.as_str(), y.as_str()),
        (None, None) => true,
        _ => false,
    }
}

/// Equal beginnings do not decide the order.
pub proof fn lemma_before_at(a: Seq<u8>, b: Seq<u8>, i: int)
    requires
        0 <= i <= a.len(),
        i <= b.len(),
        forall|k: int| 0 <= k < i ==> a[k] == b[k],
    ensures
        bytes_before(a, b) == bytes_before(a.skip(i), b.skip(i)),
    decreases i,
{
    if i > 0 {
        assert(a[0] == b[0]);
        assert(a.skip(i) =~= a.drop_first().skip(i - 1));
        assert(b.skip(i) =~= b.drop_first().skip(i - 1));
        lemma_before_at(a.drop_first(), b.drop_first(), i - 1);
    } else {
        assert(a.skip(0) =~= a);
        assert(b.skip(0) =~= b);
    }
}

/// Whether `a` comes before `b` in the lexicographic order.
pub fn is_bytes_before(a: &[u8], b: &[u8]) -> (r: bool)
    ensures
        r == bytes_before(a@, b@),
{
    let mut i: usize = 0;
    while i < a.len() && i < b.len()
        invariant
            i <= a.len(),
            i <= b.len(),
            forall|k: int| 0 <= k < i ==> a@[k] == b@[k],
        decreases a.len() - i,
    {
        if a[i] != b[i] {
            proof {
                lemma_before_at(a@, b@, i as int);
                assert(a@.skip(i as int)[0] == a@[i as int]);
                assert(b@.skip(i as int)[0] == b@[i as int]);
            }
            return a[i] < b[i];
        }
        i += 1;
    }
    proof {
        lemma_before_at(a@, b@, i as int);
    }
    i < b.len()
}

/// Whether `a` comes before `b` in the order of their UTF-8 bytes.
pub fn is_text_before(a: &str, b: &str) -> (r: bool)
    ensures
        r == text_before(a@, b@),
{
    is_bytes_before(a.as_bytes(), b.as_bytes())
}

/// The byte order is total: of two different byte strings one comes first.
pub proof fn lemma_before_total(a: Seq<u8>, b: Seq<u8>)
    ensures
        a == b || bytes_before(a, b) || bytes_before(b, a),
        !(bytes_before(a, b) && bytes_before(b, a)),
        a == b ==> !bytes_before(a, b),
    decreases a.len(),
{
    if a.len() == 0 {
        if b.len() == 0 {
            assert(a =~= b);
        }
    } else if b.len() > 0 {
        if a[0] == b[0] {
            lemma_before_total(a.drop_first(), b.drop_first());
            assert(a =~= seq![a[0]] + a.drop_first());
            assert(b =~= seq![b[0]] + b.drop_first());
        }
    }
}

/// The byte order is transitive.
pub proof fn lemma_before_transitive(a: Seq<u8>, b: Seq<u8>, c: Seq<u8>)
    requires
        bytes_before(a, b),
        bytes_before(b, c),
    ensures
        bytes_before(a, c),
    decreases a.len(),
{
    if a.len() > 0 && a[0] == b[0] && b[0] == c[0] {
        lemma_before_transitive(a.drop_first(), b.drop_first(), c.drop_first());
    }
}

/// Texts are in one line: of two different ones exactly one comes before the other, and what
/// comes before one text comes before all behind it.
pub proof fn texts_are_in_line(a: Seq<char>, b: Seq<char>, c: Seq<char>)
    ensures
        !text_before(a, a),
        !(text_before(a, b) && text_before(b, a)),
        a == b || text_before(a, b) || text_before(b, a),
        text_before(a, b) && text_before(b, c) ==> text_before(a, c),
{
    let x = vstd::utf8::encode_utf8(a);
    let y = vstd::utf8::encode_utf8(b);
    let z = vstd::utf8::encode_utf8(c);
    lemma_before_total(x, x);
    lemma_before_total(x, y);
    if x == y {
        lemma_utf8_injective(a, b);
    }
    if bytes_before(x, y) && bytes_before(y, z) {
        lemma_before_transitive(x, y, z);
    }
}

/// A copy of an optional string slice that owns its text.
pub fn own(s: Option<&str>) -> (r: Option<String>)
    ensures
        opt_text(r) == opt_str(s),
{
    match s {
        Some(v) => Some(v.to_owned()),
        None => None,
    }
}

/// A copy of an optional string.
pub fn copy_opt(s: &Option<String>) -> (r: Option<String>)
    ensures
        r == *s,
{
    match s {
        Some(v) => Some(v.clone()),
        None => None,
    }
}

fn digit_char(d: u64) -> (c: char)
    requires
        d < 10,
    ensures
        c == digit(d as nat),
{
    match d {
        0 => '0',
        1 => '1',
        2 => '2',
        3 => '3',
        4 => '4',
        5 => '5',
        6 => '6',
        7 => '7',
        8 => '8',
        _ => '9',
    }
}

fn hex_digit_char(d: u64, upper: bool) -> (c: char)
    requires
        d < 16,
    ensures
        c == hex_digit(d as nat, upper),
{
    if d < 10 {
        digit_char(d)
    } else if upper {
        match d {
            10 => 'A',
            11 => 'B',
            12 => 'C',
            13 => 'D',
            14 => 'E',
            _ => 'F',
        }
    } else {
        match d {
            10 => 'a',
            11 => 'b',
            12 => 'c',
            13 => 'd',
            14 => 'e',
            _ => 'f',
        }
    }
}

/// Appends `n` in base ten.
pub fn push_decimal(out: &mut String, n: u64)
    ensures
        final(out)@ == old(out)@ + decimal(n as nat),
    decreases n,
{
    let ghost before = out@;
    if n >= 10 {
        push_decimal(out, n / 10);
        out.push(digit_char(n % 10));
        assert(out@ =~= before + decimal((n / 10) as nat).push(digit((n % 10) as nat)));
    } else {
        out.push(digit_char(n));
        assert(out@ =~= before + seq![digit(n as nat)]);
    }
}

/// Appends `n` in base ten, with a minus sign where it is negative.
pub fn push_signed(out: &mut String, n: i64)
    ensures
        final(out)@ == old(out)@ + signed_decimal(n as int),
{
    let ghost before = out@;
    if n < 0 {
        out.push('-');
        let magnitude: u64 = if n == i64::MIN {
            9223372036854775808
        } else {
            (-n) as u64
        };
        push_decimal(out, magnitude);
        assert(out@ =~= before + (seq!['-'] + decimal((-n) as nat)));
    } else {
        push_decimal(out, n as u64);
    }
}

/// Appends `n` in base sixteen, in upper case or not.
pub fn push_hexadecimal(out: &mut String, n: u64, upper: bool)
    ensures
        final(out)@ == old(out)@ + hexadecimal(n as nat, upper),
    decreases n,
{
    let ghost before = out@;
    if n >= 16 {
        push_hexadecimal(out, n / 16, upper);
        out.push(hex_digit_char(n % 16, upper));
        assert(out@ =~= before + hexadecimal((n / 16) as nat, upper).push(
            hex_digit((n % 16) as nat, upper),
        ));
    } else {
        out.push(hex_digit_char(n, upper));
        assert(out@ =~= before + seq![hex_digit(n as nat, upper)]);
    }
}

/// How many characters `n` takes in base ten.
pub fn decimal_width(n: u64) -> (w: usize)
    ensures
        w == decimal(n as nat).len(),
        1 <= w <= 20,
    decreases n,
{
    proof {
        lemma_decimal_width(n as nat, 20);
    }
    if n < 10 {
        1
    } else {
        decimal_width(n / 10) + 1
    }
}

spec fn ten_to(e: nat) -> nat
    decreases e,
{
    if e == 0 {
        1
    } else {
        10 * ten_to((e - 1) as nat)
    }
}

proof fn lemma_decimal_shorter(n: nat, e: nat)
    requires
        n < ten_to(e),
        e >= 1,
    ensures
        1 <= decimal(n).len() <= e,
    decreases n,
{
    if n >= 10 {
        if e == 1 {
            assert(ten_to(0) == 1);
        }
        assert(n / 10 < ten_to((e - 1) as nat));
        lemma_decimal_shorter(n / 10, (e - 1) as nat);
    }
}

proof fn lemma_decimal_width(n: nat, e: nat)
    requires
        n <= u64::MAX,
        e == 20,
    ensures
        1 <= decimal(n).len() <= 20,
{
    assert(ten_to(20) > u64::MAX) by {
        reveal_with_fuel(ten_to, 21);
    }
    lemma_decimal_shorter(n, 20);
}

/// Appends `n` in base ten, filled with zeros on the left up to `width` characters.
pub fn push_padded(out: &mut String, n: u64, width: usize)
    ensures
        final(out)@ == old(out)@ + padded(n as nat, width as nat),
{
    let ghost before = out@;
    let used: usize = decimal_width(n);
    let mut filled: usize = used;
    while filled < width
        invariant
            used <= filled,
            used == decimal(n as nat).len(),
            filled <= width || filled == used,
            out@ == before + zeros((filled - used) as nat),
        decreases width - filled,
    {
        out.push('0');
        filled += 1;
        assert(zeros((filled - used) as nat) =~= zeros((filled - 1 - used) as nat).push('0'));
    }
    push_decimal(out, n);
    assert(out@ =~= before + padded(n as nat, width as nat));
}

/// Appends `n` with its sign, filled with zeros behind the sign up to `width` characters.
pub fn push_padded_signed(out: &mut String, n: i32, width: usize)
    requires
        width > 0,
    ensures
        final(out)@ == old(out)@ + padded_signed(n as int, width as nat),
{
    let ghost before = out@;
    if n < 0 {
        out.push('-');
        push_padded(out, (-(n as i64)) as u64, width - 1);
        assert(out@ =~= before + padded_signed(n as int, width as nat));
    } else {
        push_padded(out, n as u64, width);
    }
}

/// Two lower case hexadecimal digits for each byte, in order.
pub fn hex_encode(bytes: &[u8]) -> (out: String)
    ensures
        out@ == hex_of(bytes@),
{
    let mut out = String::new();
    let mut i: usize = 0;
    assert(bytes@.take(0) =~= Seq::empty());
    while i < bytes.len()
        invariant
            i <= bytes.len(),
            out@ == hex_of(bytes@.take(i as int)),
        decreases bytes.len() - i,
    {
        let byte: u8 = bytes[i];
        out.push(hex_digit_char((byte / 16) as u64, false));
        out.push(hex_digit_char((byte % 16) as u64, false));
        i += 1;
        assert(bytes@.take(i as int).drop_last() =~= bytes@.take(i - 1));
    }
    assert(bytes@.take(bytes@.len() as int) =~= bytes@);
    out
}

/// The characters of a text.
pub fn chars_of(s: &str) -> (r: Vec<char>)
    ensures
        r@ == s@,
{
    let mut out: Vec<char> = Vec::new();
    for c in it: s.chars()
        invariant
            it.seq() == s@,
            out@ == s@.take(it.index() as int),
    {
        out.push(c);
        assert(out@ =~= s@.take(it.index() as int + 1));
    }
    assert(out@ =~= s@);
    out
}

/// The text made of the characters.
pub fn text_of(chars: &Vec<char>) -> (r: String)
    ensures
        r@ == chars@,
{
    text_of_range(chars, 0, chars.len())
}

/// The text made of the characters from one position up to another.
pub fn text_of_range(chars: &Vec<char>, from: usize, to: usize) -> (r: String)
    requires
        from <= to <= chars@.len(),
    ensures
        r@ == chars@.subrange(from as int, to as int),
{
    let mut out = String::new();
    let mut i: usize = from;
    while i < to
        invariant
            from <= i <= to <= chars@.len(),
            out@ == chars@.subrange(from as int, i as int),
        decreases to - i,
    {
        out.push(chars[i]);
        i += 1;
        assert(out@ =~= chars@.subrange(from as int, i as int));
    }
    out
}

/// `s` ends in `tail`.
pub open spec fn has_tail(s: Seq<char>, tail: Seq<char>) -> bool {
    tail.len() <= s.len() && s.skip(s.len() - tail.len()) == tail
}

/// Whether the characters end in `tail`.
pub fn ends_with(chars: &Vec<char>, tail: &str) -> (r: bool)
    ensures
        r == has_tail(chars@, tail@),
{
    let wanted = chars_of(tail);
    if wanted.len() > chars.len() {
        return false;
    }
    let count: usize = chars.len();
    let shift: usize = count - wanted.len();
    let mut i: usize = 0;
    while i < wanted.len()
        invariant
            i <= wanted@.len(),
            wanted@ == tail@,
            shift + wanted@.len() == count,
            count == chars@.len(),
            forall|k: int| 0 <= k < i ==> chars@[shift + k] == #[trigger] wanted@[k],
        decreases wanted.len() - i,
    {
        if chars[shift + i] != wanted[i] {
            proof {
                assert(chars@.skip(shift as int)[i as int] != tail@[i as int]);
            }
            return false;
        }
        i += 1;
    }
    assert(chars@.skip(shift as int) =~= tail@);
    true
}

/// An upper case ASCII letter in lower case; every other character as it is.
pub open spec fn lower(c: char) -> char {
    if 'A' <= c <= 'Z' {
        (c as int + 32) as char
    } else {
        c
    }
}

/// The text with its ASCII letters in lower case.
pub open spec fn lowered(s: Seq<char>) -> Seq<char> {
    s.map_values(|c: char| lower(c))
}

/// An upper case ASCII letter in lower case; every other character as it is.
pub fn lower_char(c: char) -> (r: char)
    ensures
        r == lower(c),
{
    if 'A' <= c && c <= 'Z' {
        ((c as u8) + 32) as char
    } else {
        c
    }
}

/// The characters with their ASCII letters in lower case.
pub fn lowered_chars(chars: &Vec<char>) -> (r: Vec<char>)
    ensures
        r@ == lowered(chars@),
{
    let mut out: Vec<char> = Vec::new();
    let mut i: usize = 0;
    while i < chars.len()
        invariant
            i <= chars@.len(),
            out@ == lowered(chars@.take(i as int)),
        decreases chars.len() - i,
    {
        out.push(lower_char(chars[i]));
        i += 1;
        assert(out@ =~= lowered(chars@.take(i as int)));
    }
    assert(chars@.take(chars@.len() as int) =~= chars@);
    out
}

/// A text in lower case is as long as before, has no upper case ASCII letter, and is changed
/// nowhere but at such letters, each of which moves by the same distance.
pub proof fn lower_case_keeps_the_rest(s: Seq<char>, i: int)
    ensures
        lowered(s).len() == s.len(),
        lowered(lowered(s)) == lowered(s),
        0 <= i < s.len() ==> !('A' <= lowered(s)[i] <= 'Z'),
        0 <= i < s.len() && !('A' <= s[i] <= 'Z') ==> lowered(s)[i] == s[i],
        0 <= i < s.len() && 'A' <= s[i] <= 'Z' ==> 'a' <= lowered(s)[i] <= 'z' && lowered(s)[i]
            as int - 'a' as int == s[i] as int - 'A' as int,
{
    assert(lowered(lowered(s)) =~= lowered(s)) by {
        assert forall|k: int| 0 <= k < s.len() implies lowered(lowered(s))[k] == lowered(s)[k] by {
            assert(lowered(s)[k] == lower(s[k]));
        }
    }
}

/// A text ends in every tail of its own, and in nothing longer than itself.
pub proof fn tails_end_texts(a: Seq<char>, b: Seq<char>)
    ensures
        has_tail(a + b, b),
        has_tail(a, b) ==> b.len() <= a.len(),
        has_tail(a, b) ==> a == a.take(a.len() - b.len()) + b,
        has_tail(a, Seq::empty()),
        a.len() == b.len() ==> (has_tail(a, b) <==> a == b),
{
    assert((a + b).skip((a + b).len() - b.len()) =~= b);
    assert(a.skip(a.len() as int) =~= Seq::empty());
    if has_tail(a, b) {
        assert(a =~= a.take(a.len() - b.len()) + a.skip(a.len() - b.len()));
    }
    if a.len() == b.len() {
        assert(a.skip(0) =~= a);
    }
}

/// Two numbers that are written alike are the same.
pub proof fn numbers_are_told_apart(a: nat, b: nat)
    requires
        decimal(a) == decimal(b),
    ensures
        a == b,
    decreases a,
{
    lemma_digits(a);
    lemma_digits(b);
    if a >= 10 && b >= 10 {
        assert(decimal(a).drop_last() =~= decimal(a / 10));
        assert(decimal(b).drop_last() =~= decimal(b / 10));
        numbers_are_told_apart(a / 10, b / 10);
        assert(decimal(a).last() == digit(a % 10));
        assert(decimal(b).last() == digit(b % 10));
        assert(digit(a % 10) as int == 48 + a % 10);
        assert(digit(b % 10) as int == 48 + b % 10);
    } else if a < 10 && b < 10 {
        assert(decimal(a)[0] == digit(a));
        assert(decimal(b)[0] == digit(b));
        assert(digit(a) as int == 48 + a);
        assert(digit(b) as int == 48 + b);
    }
}

/// A number is written with digits, with none in front that is not needed.
proof fn lemma_digits(n: nat)
    ensures
        n < 10 <==> decimal(n).len() == 1,
        decimal(n).len() > 0,
    decreases n,
{
    if n >= 10 {
        lemma_digits(n / 10);
    }
}

/// Bytes that are written alike in base sixteen are the same, and each takes two digits.
pub proof fn bytes_are_told_apart(a: Seq<u8>, b: Seq<u8>)
    ensures
        hex_of(a).len() == 2 * a.len(),
        hex_of(a) == hex_of(b) ==> a == b,
    decreases a.len(),
{
    lemma_hex_length(a);
    lemma_hex_length(b);
    if hex_of(a) == hex_of(b) {
        if a.len() == 0 {
            assert(a =~= b);
        } else {
            let (x, y) = (a.last() as nat, b.last() as nat);
            let (s, t) = (hex_of(a), hex_of(b));
            assert(s.last() == hex_digit(x % 16, false) && t.last() == hex_digit(y % 16, false));
            assert(s.drop_last().last() == hex_digit(x / 16, false));
            assert(t.drop_last().last() == hex_digit(y / 16, false));
            lemma_hex_digit(x % 16, y % 16);
            lemma_hex_digit(x / 16, y / 16);
            assert(s.drop_last().drop_last() =~= hex_of(a.drop_last()));
            assert(t.drop_last().drop_last() =~= hex_of(b.drop_last()));
            bytes_are_told_apart(a.drop_last(), b.drop_last());
            assert(x == y);
            assert(a =~= a.drop_last().push(a.last()));
            assert(b =~= b.drop_last().push(b.last()));
        }
    }
}

proof fn lemma_hex_length(a: Seq<u8>)
    ensures
        hex_of(a).len() == 2 * a.len(),
    decreases a.len(),
{
    if a.len() > 0 {
        lemma_hex_length(a.drop_last());
    }
}

proof fn lemma_hex_digit(x: nat, y: nat)
    requires
        x < 16,
        y < 16,
        hex_digit(x, false) == hex_digit(y, false),
    ensures
        x == y,
{
    assert(x < 10 ==> hex_digit(x, false) as int == 48 + x);
    assert(y < 10 ==> hex_digit(y, false) as int == 48 + y);
    assert(x >= 10 ==> hex_digit(x, false) as int == 87 + x);
    assert(y >= 10 ==> hex_digit(y, false) as int == 87 + y);
}

/// A digit of base sixteen is one of ten figures or of six letters in the case that was asked for,
/// in the order of their values.
pub proof fn hex_digits_rise(d: nat, upper: bool)
    requires
        d < 16,
    ensures
        d < 10 ==> '0' <= hex_digit(d, upper) <= '9',
        d >= 10 && upper ==> 'A' <= hex_digit(d, upper) <= 'F',
        d >= 10 && !upper ==> 'a' <= hex_digit(d, upper) <= 'f',
        d < 10 ==> hex_digit(d, upper) as int - '0' as int == d,
        d >= 10 && upper ==> hex_digit(d, upper) as int - 'A' as int == d - 10,
        d >= 10 && !upper ==> hex_digit(d, upper) as int - 'a' as int == d - 10,
{
}

/// A number that is filled up has at least the width, ends in its own digits, and has nothing but
/// zeros in front of them.
pub proof fn filling_keeps_the_number(n: nat, width: nat)
    ensures
        padded(n, width).len() >= width,
        padded(n, width).len() == width || padded(n, width) == decimal(n),
        has_tail(padded(n, width), decimal(n)),
        forall|i: int|
            0 <= i < padded(n, width).len() - decimal(n).len() ==> #[trigger] padded(n, width)[i]
                == '0',
{
    let digits = decimal(n);
    if digits.len() < width {
        tails_end_texts(zeros((width - digits.len()) as nat), digits);
    } else {
        assert(digits.skip(0) =~= digits);
    }
}

} // verus!
