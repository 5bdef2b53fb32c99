//! Paths as the names between their slashes.
//!
//! Two texts name the same path when they start alike (at the root, at an explicit `.`, or
//! neither) and have the same names. Repeated slashes, and `.` anywhere but at the start of a
//! relative path, do not count.

use vstd::prelude::*;
use vstd::string::*;
use crate::text::{chars_of, is_text_before, same_text, text_of_range};

verus! {

/// A part between slashes that counts as a name.
pub open spec fn is_name(part: Seq<char>) -> bool {
    part.len() > 0 && part != seq!['.']
}

/// What follows the last slash.
pub open spec fn tail_part(s: Seq<char>) -> Seq<char>
    decreases s.len(),
{
    if s.len() == 0 || s.last() == '/' {
        Seq::empty()
    } else {
        tail_part(s.drop_last()).push(s.last())
    }
}

/// The names that are closed by a slash.
pub open spec fn closed_names(s: Seq<char>) -> Seq<Seq<char>>
    decreases s.len(),
{
    if s.len() == 0 {
        Seq::empty()
    } else if s.last() == '/' {
        let part = tail_part(s.drop_last());
        if is_name(part) {
            closed_names(s.drop_last()).push(part)
        } else {
            closed_names(s.drop_last())
        }
    } else {
        closed_names(s.drop_last())
    }
}

/// The names of a path, in order.
pub open spec fn names(s: Seq<char>) -> Seq<Seq<char>> {
    if is_name(tail_part(s)) {
        closed_names(s).push(tail_part(s))
    } else {
        closed_names(s)
    }
}

/// The path starts at the root.
pub open spec fn rooted(s: Seq<char>) -> bool {
    s.len() > 0 && s[0] == '/'
}

/// The path starts at an explicit `.`.
pub open spec fn dotted(s: Seq<char>) -> bool {
    s.len() > 0 && s[0] == '.' && (s.len() == 1 || s[1] == '/')
}

/// Both texts name the same path.
pub open spec fn same(a: Seq<char>, b: Seq<char>) -> bool {
    rooted(a) == rooted(b) && dotted(a) == dotted(b) && names(a) == names(b)
}

/// One name comes before another: `..` before all others, and those in the order of their bytes.
pub open spec fn name_before(a: Seq<char>, b: Seq<char>) -> bool {
    b != seq!['.', '.'] && (a == seq!['.', '.'] || crate::text::text_before(a, b))
}

/// The names come before others at the first place where they differ, or end there.
pub open spec fn names_before(a: Seq<Seq<char>>, b: Seq<Seq<char>>) -> bool
    decreases a.len(),
{
    b.len() > 0 && (a.len() == 0 || name_before(a[0], b[0]) || (a[0] == b[0] && names_before(
        a.drop_first(),
        b.drop_first(),
    )))
}

/// How a path starts: the empty one comes first, then those at the root, those at an explicit
/// `.`, and those with a name.
pub open spec fn start_rank(s: Seq<char>) -> int {
    if rooted(s) {
        1
    } else if dotted(s) {
        2
    } else if names(s).len() == 0 {
        0
    } else {
        3
    }
}

/// The path `a` comes before `b`, part by part.
pub open spec fn path_before(a: Seq<char>, b: Seq<char>) -> bool {
    start_rank(a) < start_rank(b) || (start_rank(a) == start_rank(b) && names_before(
        names(a),
        names(b),
    ))
}

proof fn lemma_name_line(a: Seq<char>, b: Seq<char>, c: Seq<char>)
    ensures
        !name_before(a, a),
        !(name_before(a, b) && name_before(b, a)),
        a == b || name_before(a, b) || name_before(b, a),
        name_before(a, b) && name_before(b, c) ==> name_before(a, c),
{
    crate::text::texts_are_in_line(a, b, c);
}

proof fn lemma_names_line(a: Seq<Seq<char>>, b: Seq<Seq<char>>, c: Seq<Seq<char>>)
    ensures
        !names_before(a, a),
        !(names_before(a, b) && names_before(b, a)),
        a == b || names_before(a, b) || names_before(b, a),
        names_before(a, b) && names_before(b, c) ==> names_before(a, c),
    decreases a.len(),
{
    if a.len() == 0 {
        if b.len() == 0 {
            assert(a =~= b);
        }
    } else if b.len() == 0 {
        lemma_name_line(a[0], a[0], a[0]);
        lemma_names_line(a.drop_first(), a.drop_first(), a.drop_first());
    } else {
        lemma_name_line(a[0], b[0], if c.len() > 0 { c[0] } else { a[0] });
        lemma_names_line(a.drop_first(), b.drop_first(), c.drop_first());
        if a[0] == b[0] && a.drop_first() == b.drop_first() {
            assert(a =~= seq![a[0]] + a.drop_first());
            assert(b =~= seq![b[0]] + b.drop_first());
        }
    }
}

/// Paths are in one line: of two different ones exactly one comes before the other, and what
/// comes before one path comes before all behind it.
pub proof fn paths_are_in_line(a: Seq<char>, b: Seq<char>, c: Seq<char>)
    ensures
        same(a, b) ==> !path_before(a, b),
        !(path_before(a, b) && path_before(b, a)),
        same(a, b) || path_before(a, b) || path_before(b, a),
        path_before(a, b) && path_before(b, c) ==> path_before(a, c),
{
    lemma_names_line(names(a), names(b), names(c));
}

/// `s` is `base` or lies below it. Every path lies below the empty one.
pub open spec fn below(s: Seq<char>, base: Seq<char>) -> bool {
    ||| !rooted(base) && !dotted(base) && names(base).len() == 0
    ||| {
        &&& rooted(s) == rooted(base)
        &&& dotted(s) == dotted(base)
        &&& names(base).len() <= names(s).len()
        &&& names(s).take(names(base).len() as int) == names(base)
    }
}

/// The last name, where there is one and it is not `..`.
pub open spec fn file_name(s: Seq<char>) -> Option<Seq<char>> {
    if names(s).len() == 0 || names(s).last() == seq!['.', '.'] {
        None
    } else {
        Some(names(s).last())
    }
}

/// The position of the last dot.
pub open spec fn last_dot(s: Seq<char>) -> Option<int>
    decreases s.len(),
{
    if s.len() == 0 {
        None
    } else if s.last() == '.' {
        Some(s.len() - 1)
    } else {
        last_dot(s.drop_last())
    }
}

/// What follows the last dot of the file name, where something stands before that dot.
pub open spec fn extension(s: Seq<char>) -> Option<Seq<char>> {
    match file_name(s) {
        None => None,
        Some(name) => match last_dot(name) {
            None => None,
            Some(at) => if at == 0 {
                None
            } else {
                Some(name.skip(at + 1))
            },
        },
    }
}

/// The file name without its extension.
pub open spec fn file_stem(s: Seq<char>) -> Option<Seq<char>> {
    match file_name(s) {
        None => None,
        Some(name) => match last_dot(name) {
            None => Some(name),
            Some(at) => if at == 0 {
                Some(name)
            } else {
                Some(name.take(at))
            },
        },
    }
}

/// A path taken apart.
pub struct PathParts {
    pub rooted: bool,
    pub dotted: bool,
    pub names: Vec<String>,
}

impl PathParts {
    /// These are the parts of `s`.
    pub open spec fn of(&self, s: Seq<char>) -> bool {
        &&& self.rooted == rooted(s)
        &&& self.dotted == dotted(s)
        &&& crate::text::texts(self.names@) == names(s)
    }

    /// Takes a path apart.
    pub fn parse(path: &str) -> (r: PathParts)
        ensures
            r.of(path@),
    {
        let chars = chars_of(path);
        let mut found: Vec<String> = Vec::new();
        let mut start: usize = 0;
        let mut i: usize = 0;
        assert(crate::text::texts(found@) =~= closed_names(path@.take(0)));
        assert(path@.subrange(0, 0) =~= tail_part(path@.take(0)));
        while i < chars.len()
            invariant
                start <= i <= chars@.len(),
                chars@ == path@,
                crate::text::texts(found@) == closed_names(path@.take(i as int)),
                path@.subrange(start as int, i as int) == tail_part(path@.take(i as int)),
            decreases chars.len() - i,
        {
            let ghost before = found@;
            if chars[i] == '/' {
                push_name(&mut found, &chars, start, i);
                start = i + 1;
            }
            i += 1;
            proof {
                assert(path@.take(i as int).drop_last() =~= path@.take(i - 1));
                assert(path@.take(i as int).last() == path@[i - 1]);
                assert(path@.subrange(start as int, i as int) =~= tail_part(path@.take(i as int)));
            }
        }
        assert(path@.take(i as int) =~= path@);
        push_name(&mut found, &chars, start, i);
        let is_rooted: bool = chars.len() > 0 && chars[0] == '/';
        let is_dotted: bool = chars.len() > 0 && chars[0] == '.' && (chars.len() == 1 || chars[1]
            == '/');
        PathParts { rooted: is_rooted, dotted: is_dotted, names: found }
    }

    /// Whether these are the parts of the same path.
    pub fn same_as(&self, other: &PathParts) -> (r: bool)
        ensures
            r == (self.rooted == other.rooted && self.dotted == other.dotted && crate::text::texts(
                self.names@,
            ) == crate::text::texts(other.names@)),
    {
        proof {
            assert(crate::text::texts(self.names@).len() == self.names@.len());
            assert(crate::text::texts(other.names@).len() == other.names@.len());
            assert(other.names@.take(other.names@.len() as int) =~= other.names@);
        }
        self.rooted == other.rooted && self.dotted == other.dotted && self.names.len()
            == other.names.len() && first_names_equal(&self.names, &other.names)
    }

    fn rank(&self) -> (r: u8)
        ensures
            forall|s: Seq<char>| #[trigger] self.of(s) ==> r == start_rank(s),
    {
        let r: u8 = if self.rooted {
            1
        } else if self.dotted {
            2
        } else if self.names.len() == 0 {
            0
        } else {
            3
        };
        proof {
            assert forall|s: Seq<char>| #[trigger] self.of(s) implies r == start_rank(s) by {
                assert(names(s).len() == self.names@.len());
            }
        }
        r
    }

    /// Whether this path comes before the other.
    pub fn is_before(&self, other: &PathParts) -> (r: bool)
        ensures
            forall|s: Seq<char>, t: Seq<char>| #[trigger]
                self.of(s) && #[trigger] other.of(t) ==> r == path_before(s, t),
    {
        let mine: u8 = self.rank();
        let theirs: u8 = other.rank();
        mine < theirs || (mine == theirs && are_names_before(&self.names, &other.names))
    }

    /// Whether this path is `base` or lies below it.
    pub fn starts_with(&self, base: &PathParts) -> (r: bool)
        ensures
            forall|s: Seq<char>, b: Seq<char>| #[trigger]
                self.of(s) && #[trigger] base.of(b) ==> r == below(s, b),
    {
        let everything: bool = !base.rooted && !base.dotted && base.names.len() == 0;
        let r = everything || (self.rooted == base.rooted && self.dotted == base.dotted
            && base.names.len() <= self.names.len() && first_names_equal(&base.names, &self.names));
        proof {
            assert forall|s: Seq<char>, b: Seq<char>| #[trigger] self.of(s) && #[trigger] base.of(
                b,
            ) implies r == below(s, b) by {
                let n = base.names@.len() as int;
                assert(names(s).len() == self.names@.len());
                assert(names(b).len() == n);
                if n <= self.names@.len() {
                    assert(crate::text::texts(self.names@).take(n) =~= crate::text::texts(
                        self.names@.take(n),
                    ));
                }
            }
        }
        r
    }
}

fn is_name_before(a: &str, b: &str) -> (r: bool)
    ensures
        r == name_before(a@, b@),
{
    proof {
        reveal_strlit("..");
        assert(".."@ =~= seq!['.', '.']);
    }
    !same_text(b, "..") && (same_text(a, "..") || is_text_before(a, b))
}

fn are_names_before(a: &Vec<String>, b: &Vec<String>) -> (r: bool)
    ensures
        r == names_before(crate::text::texts(a@), crate::text::texts(b@)),
{
    let ghost x = crate::text::texts(a@);
    let ghost y = crate::text::texts(b@);
    let mut i: usize = 0;
    assert(x.skip(0) =~= x);
    assert(y.skip(0) =~= y);
    while i < a.len() && i < b.len()
        invariant
            i <= a@.len(),
            i <= b@.len(),
            x == crate::text::texts(a@),
            y == crate::text::texts(b@),
            names_before(x, y) == names_before(x.skip(i as int), y.skip(i as int)),
        decreases a.len() - i,
    {
        assert(x.skip(i as int)[0] == a@[i as int]@);
        assert(y.skip(i as int)[0] == b@[i as int]@);
        assert(x.skip(i as int).drop_first() =~= x.skip(i + 1));
        assert(y.skip(i as int).drop_first() =~= y.skip(i + 1));
        if is_name_before(a[i].as_str(), b[i].as_str()) {
            return true;
        }
        if !same_text(a[i].as_str(), b[i].as_str()) {
            return false;
        }
        proof {
            lemma_name_line(a@[i as int]@, b@[i as int]@, b@[i as int]@);
        }
        i += 1;
    }
    i < b.len()
}

fn push_name(found: &mut Vec<String>, chars: &Vec<char>, from: usize, to: usize)
    requires
        from <= to <= chars@.len(),
    ensures
        crate::text::texts(final(found)@) == (if is_name(
            chars@.subrange(from as int, to as int),
        ) {
            crate::text::texts(old(found)@).push(chars@.subrange(from as int, to as int))
        } else {
            crate::text::texts(old(found)@)
        }),
{
    let ghost part = chars@.subrange(from as int, to as int);
    if to - from == 1 && chars[from] == '.' {
        assert(part =~= seq!['.']);
    } else if to > from {
        proof {
            if part == seq!['.'] {
                assert(part.len() == 1 && part[0] == '.');
            }
        }
        let name = text_of_range(chars, from, to);
        let ghost before = found@;
        found.push(name);
        assert(crate::text::texts(found@) =~= crate::text::texts(before).push(part));
    }
}

fn first_names_equal(a: &Vec<String>, b: &Vec<String>) -> (r: bool)
    requires
        a@.len() <= b@.len(),
    ensures
        r == (crate::text::texts(a@) == crate::text::texts(b@.take(a@.len() as int))),
{
    let mut i: usize = 0;
    while i < a.len()
        invariant
            i <= a@.len() <= b@.len(),
            forall|k: int| 0 <= k < i ==> #[trigger] a@[k]@ == b@[k]@,
        decreases a.len() - i,
    {
        if !same_text(a[i].as_str(), b[i].as_str()) {
            proof {
                assert(crate::text::texts(a@)[i as int] == a@[i as int]@);
                assert(crate::text::texts(b@.take(a@.len() as int))[i as int] == b@[i as int]@);
            }
            return false;
        }
        i += 1;
    }
    assert(crate::text::texts(a@) =~= crate::text::texts(b@.take(a@.len() as int)));
    true
}

/// Whether both texts name the same path.
pub fn same_path(a: &str, b: &str) -> (r: bool)
    ensures
        r == same(a@, b@),
{
    let x = PathParts::parse(a);
    let y = PathParts::parse(b);
    x.same_as(&y)
}

/// Whether `path` is `base` or lies below it.
pub fn path_starts_with(path: &str, base: &str) -> (r: bool)
    ensures
        r == below(path@, base@),
{
    let x = PathParts::parse(path);
    let y = PathParts::parse(base);
    let r = x.starts_with(&y);
    assert(x.of(path@) && y.of(base@));
    r
}

/// The last name of a path, where there is one and it is not `..`.
pub fn path_file_name(path: &str) -> (r: Option<String>)
    ensures
        crate::text::opt_text(r) == file_name(path@),
{
    let parts = PathParts::parse(path);
    let n: usize = parts.names.len();
    assert(names(path@).len() == n);
    if n == 0 {
        return None;
    }
    let last: &String = &parts.names[n - 1];
    assert(names(path@).last() == last@);
    proof {
        reveal_strlit("..");
        assert(".."@ =~= seq!['.', '.']);
    }
    if same_text(last.as_str(), "..") {
        None
    } else {
        Some(last.clone())
    }
}

fn find_last_dot(chars: &Vec<char>) -> (r: Option<usize>)
    ensures
        match r {
            Some(at) => last_dot(chars@) == Some(at as int) && at < chars@.len(),
            None => last_dot(chars@) is None,
        },
{
    let mut i: usize = chars.len();
    assert(chars@.take(i as int) =~= chars@);
    while i > 0
        invariant
            i <= chars@.len(),
            last_dot(chars@) == last_dot(chars@.take(i as int)),
        decreases i,
    {
        assert(chars@.take(i as int).drop_last() =~= chars@.take(i - 1));
        i -= 1;
        if chars[i] == '.' {
            return Some(i);
        }
    }
    None
}

/// What follows the last dot of a path's file name, where something stands before that dot.
pub fn path_extension(path: &str) -> (r: Option<String>)
    ensures
        crate::text::opt_text(r) == extension(path@),
{
    match path_file_name(path) {
        None => None,
        Some(name) => {
            let chars = chars_of(name.as_str());
            match find_last_dot(&chars) {
                None => None,
                Some(at) => {
                    if at == 0 {
                        None
                    } else {
                        let count: usize = chars.len();
                        let rest = text_of_range(&chars, at + 1, count);
                        assert(chars@.subrange(at + 1, chars@.len() as int) =~= chars@.skip(at + 1));
                        Some(rest)
                    }
                },
            }
        },
    }
}

/// A path's file name without its extension.
pub fn path_file_stem(path: &str) -> (r: Option<String>)
    ensures
        crate::text::opt_text(r) == file_stem(path@),
{
    match path_file_name(path) {
        None => None,
        Some(name) => {
            let chars = chars_of(name.as_str());
            match find_last_dot(&chars) {
                None => Some(name),
                Some(at) => {
                    if at == 0 {
                        Some(name)
                    } else {
                        let head = text_of_range(&chars, 0, at);
                        assert(chars@.subrange(0, at as int) =~= chars@.take(at as int));
                        Some(head)
                    }
                },
            }
        },
    }
}

/// Lying below is transitive.
pub proof fn below_is_transitive(a: Seq<char>, b: Seq<char>, c: Seq<char>)
    requires
        below(a, b),
        below(b, c),
    ensures
        below(a, c),
{
    let n = names(c).len() as int;
    if n <= names(b).len() && names(b).len() <= names(a).len() {
        assert(names(a).take(names(b).len() as int).take(n) =~= names(a).take(n));
    }
}

/// Every path lies below itself, and two paths that lie below each other are the same.
pub proof fn below_is_an_order(a: Seq<char>, b: Seq<char>)
    ensures
        below(a, a),
        below(a, b) && below(b, a) ==> same(a, b),
{
    assert(names(a).take(names(a).len() as int) =~= names(a));
    assert(names(b).take(names(b).len() as int) =~= names(b));
    assert(names(a).len() == 0 && names(b).len() == 0 ==> names(a) =~= names(b));
}

/// `base` with `rest` behind it. An absolute `rest` stands alone.
pub open spec fn joined(base: Seq<char>, rest: Seq<char>) -> Seq<char> {
    if rooted(rest) {
        rest
    } else if base.len() > 0 && base.last() != '/' {
        base + seq!['/'] + rest
    } else {
        base + rest
    }
}

/// Puts `rest` behind `base`. An absolute `rest` stands alone.
pub fn join(base: &str, rest: &str) -> (r: String)
    ensures
        r@ == joined(base@, rest@),
{
    let tail = chars_of(rest);
    if tail.len() > 0 && tail[0] == '/' {
        return rest.to_owned();
    }
    let head = chars_of(base);
    let mut out: String = base.to_owned();
    if head.len() > 0 && head[head.len() - 1] != '/' {
        out.push('/');
        assert(out@ =~= base@ + seq!['/']);
    }
    out.append(rest);
    out
}

/// The names with a slash between neighbours.
pub open spec fn slashed(names: Seq<Seq<char>>) -> Seq<char>
    decreases names.len(),
{
    if names.len() == 0 {
        Seq::empty()
    } else if names.len() == 1 {
        names[0]
    } else {
        slashed(names.drop_last()) + seq!['/'] + names.last()
    }
}

/// What is left of `path` behind `base`, where `path` lies below it. A root or an explicit `.`
/// that is not part of the base stays in front.
pub open spec fn stripped(path: Seq<char>, base: Seq<char>) -> Option<Seq<char>> {
    let rest = slashed(names(path).skip(names(base).len() as int));
    if !below(path, base) {
        None
    } else if rooted(path) && !rooted(base) {
        Some(seq!['/'] + rest)
    } else if dotted(path) && !dotted(base) {
        Some(if rest.len() == 0 {
            seq!['.']
        } else {
            seq!['.', '/'] + rest
        })
    } else {
        Some(rest)
    }
}

fn slash_names(list: &Vec<String>, from: usize) -> (r: String)
    requires
        from <= list@.len(),
    ensures
        r@ == slashed(crate::text::texts(list@).skip(from as int)),
{
    let ghost all = crate::text::texts(list@).skip(from as int);
    let mut out = String::new();
    let mut i: usize = from;
    assert(all.take(0) =~= Seq::empty());
    while i < list.len()
        invariant
            from <= i <= list@.len(),
            all == crate::text::texts(list@).skip(from as int),
            out@ == slashed(all.take(i - from)),
        decreases list.len() - i,
    {
        if i > from {
            out.push('/');
        }
        out.append(list[i].as_str());
        i += 1;
        proof {
            assert(all.take(i - from).drop_last() =~= all.take(i - from - 1));
            assert(all.take(i - from).last() == list@[i - 1]@);
            assert(out@ =~= slashed(all.take(i - from)));
        }
    }
    assert(all.take(i - from) =~= all);
    out
}

/// What is left of `path` behind `base`, where `path` lies below it.
pub fn strip_prefix(path: &str, base: &str) -> (r: Option<String>)
    ensures
        crate::text::opt_text(r) == stripped(path@, base@),
{
    let x = PathParts::parse(path);
    let y = PathParts::parse(base);
    let under: bool = x.starts_with(&y);
    assert(x.of(path@) && y.of(base@));
    if !under {
        return None;
    }
    assert(names(base@).len() == y.names@.len());
    assert(names(path@).len() == x.names@.len());
    let rest = slash_names(&x.names, y.names.len());
    let mut out = String::new();
    if x.rooted && !y.rooted {
        out.push('/');
        assert(out@ =~= seq!['/']);
    } else if x.dotted && !y.dotted {
        out.push('.');
        assert(out@ =~= seq!['.']);
        if rest.as_str().is_empty() {
            return Some(out);
        }
        out.push('/');
        assert(out@ =~= seq!['.', '/']);
    }
    out.append(rest.as_str());
    assert(Seq::<char>::empty() + rest@ =~= rest@);
    Some(out)
}

/// A path stripped of itself leaves nothing.
pub proof fn strip_self(path: Seq<char>)
    ensures
        stripped(path, path) == Some(Seq::<char>::empty()),
{
    below_is_an_order(path, path);
    assert(names(path).skip(names(path).len() as int) =~= Seq::empty());
}

proof fn lemma_behind(a: Seq<char>, rest: Seq<char>)
    requires
        a.len() == 0 || a.last() == '/',
    ensures
        tail_part(a + rest) == tail_part(rest),
        closed_names(a + rest) == closed_names(a) + closed_names(rest),
    decreases rest.len(),
{
    if rest.len() == 0 {
        assert(a + rest =~= a);
        assert(closed_names(a) + closed_names(rest) =~= closed_names(a));
    } else {
        lemma_behind(a, rest.drop_last());
        assert((a + rest).drop_last() =~= a + rest.drop_last());
        assert((a + rest).last() == rest.last());
        assert(closed_names(a + rest) =~= closed_names(a) + closed_names(rest));
    }
}

/// What is put behind a path has the names of that path in front of its own, and lies below it.
/// An absolute path stands alone.
pub proof fn joined_path_lies_below(base: Seq<char>, rest: Seq<char>)
    ensures
        rooted(rest) ==> joined(base, rest) == rest,
        !rooted(rest) ==> names(joined(base, rest)) == names(base) + names(rest),
        !rooted(rest) && base.len() > 0 ==> rooted(joined(base, rest)) == rooted(base) && dotted(
            joined(base, rest),
        ) == dotted(base) && below(joined(base, rest), base),
        base.len() == 0 ==> joined(base, rest) == rest,
{
    if base.len() == 0 {
        assert(base + rest =~= rest);
    }
    if !rooted(rest) {
        let front = if base.len() > 0 && base.last() != '/' {
            base + seq!['/']
        } else {
            base
        };
        assert(joined(base, rest) =~= front + rest);
        lemma_behind(front, rest);
        if base.len() > 0 && base.last() != '/' {
            assert(front.drop_last() =~= base);
            assert(closed_names(front) == names(base));
        } else {
            assert(names(base) == closed_names(base));
        }
        assert(names(joined(base, rest)) =~= names(base) + names(rest));
        assert(names(joined(base, rest)).take(names(base).len() as int) =~= names(base));
    }
}

/// What was put behind a path is what is left once the path is taken off again, up to the way it
/// is written.
pub proof fn stripping_undoes_joining(base: Seq<char>, rest: Seq<char>)
    requires
        base.len() > 0,
        !rooted(rest),
    ensures
        stripped(joined(base, rest), base) == Some(slashed(names(rest))),
{
    joined_path_lies_below(base, rest);
    assert(names(joined(base, rest)).skip(names(base).len() as int) =~= names(rest));
}

/// A single name that is put behind a path is the file name there.
pub proof fn joined_name_is_the_file_name(base: Seq<char>, name: Seq<char>)
    requires
        is_name(name),
        name != seq!['.', '.'],
        !name.contains('/'),
    ensures
        names(name) == seq![name],
        file_name(joined(base, name)) == Some(name),
{
    lemma_one_name(name);
    assert(Seq::<Seq<char>>::empty().push(name) =~= seq![name]);
    if rooted(name) {
        assert(name[0] == '/');
    }
    joined_path_lies_below(base, name);
    assert((names(base) + names(name)).last() == name);
}

proof fn lemma_one_name(name: Seq<char>)
    requires
        !name.contains('/'),
    ensures
        tail_part(name) == name,
        closed_names(name) == Seq::<Seq<char>>::empty(),
    decreases name.len(),
{
    if name.len() > 0 {
        assert(name.last() != '/') by {
            assert(name.contains(name[name.len() - 1]));
        }
        assert forall|c: char| name.drop_last().contains(c) implies name.contains(c) by {
            let i = choose|i: int| 0 <= i < name.drop_last().len() && name.drop_last()[i] == c;
            assert(name[i] == c);
        }
        lemma_one_name(name.drop_last());
        assert(name.drop_last().push(name.last()) =~= name);
    } else {
        assert(tail_part(name) =~= name);
    }
}

proof fn lemma_last_dot(s: Seq<char>)
    ensures
        last_dot(s) is None ==> !s.contains('.'),
        last_dot(s) matches Some(at) ==> 0 <= at < s.len() && s[at] == '.' && !s.skip(
            at + 1,
        ).contains('.'),
    decreases s.len(),
{
    if s.len() > 0 {
        let front = s.drop_last();
        lemma_last_dot(front);
        if s.last() == '.' {
            assert(s.skip(s.len() as int) =~= Seq::empty());
        } else {
            assert forall|i: int| 0 <= i < s.len() && #[trigger] s[i] == '.' implies front.contains(
                '.',
            ) by {
                assert(front[i] == '.');
            }
            if last_dot(front) is Some {
                let at = last_dot(front)->0;
                assert forall|i: int| 0 <= i < s.skip(at + 1).len() implies #[trigger] s.skip(
                    at + 1,
                )[i] != '.' by {
                    if i < front.skip(at + 1).len() {
                        assert(front.skip(at + 1)[i] == s.skip(at + 1)[i]);
                        assert(front.skip(at + 1).contains(front.skip(at + 1)[i]));
                    }
                }
            }
        }
    }
}

/// A file name is its stem, a dot and its extension, where it has one, which holds no other dot
/// and has something in front of its own. Else the stem is the whole name.
pub proof fn name_is_stem_and_extension(path: Seq<char>)
    ensures
        file_stem(path) is Some <==> file_name(path) is Some,
        extension(path) is Some ==> file_name(path) == Some(
            file_stem(path)->0 + seq!['.'] + extension(path)->0,
        ),
        extension(path) is Some ==> !(extension(path)->0).contains('.'),
        extension(path) is Some ==> (file_stem(path)->0).len() > 0,
        extension(path) is None ==> file_stem(path) == file_name(path),
        extension(path) is None && file_name(path) is Some && (file_name(path)->0).contains('.')
            ==> (file_name(path)->0)[0] == '.',
{
    if file_name(path) is Some {
        let name = file_name(path)->0;
        lemma_last_dot(name);
        if last_dot(name) is Some {
            let at = last_dot(name)->0;
            assert(name =~= name.take(at) + seq!['.'] + name.skip(at + 1));
        }
    }
}

/// The empty path comes before all others, then those from the root, those from an explicit `.`,
/// and last those that start with a name.
pub proof fn paths_start_in_this_order(a: Seq<char>, b: Seq<char>)
    ensures
        rooted(a) && dotted(b) ==> path_before(a, b),
        rooted(a) && !rooted(b) && !dotted(b) && names(b).len() > 0 ==> path_before(a, b),
        dotted(a) && !rooted(b) && !dotted(b) && names(b).len() > 0 ==> path_before(a, b),
        a.len() == 0 && !same(a, b) ==> path_before(a, b),
{
    if a.len() == 0 {
        assert(names(a).len() == 0);
        if !rooted(b) && !dotted(b) && names(b).len() == 0 {
            assert(names(a) =~= names(b));
        }
    }
}

} // verus!
