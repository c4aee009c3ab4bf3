//! Character-level helpers on strings: equality, prefixes, splitting and joining.

use vstd::prelude::*;

verus! {

// ---------------------------------------------------------------------------
// Specifications
// ---------------------------------------------------------------------------

/// The pieces of `s` between the positions that `marks` flags as separators,
/// in order, empty pieces included (as `str::split` yields them).
pub open spec fn split_marked(s: Seq<char>, marks: Seq<bool>) -> Seq<Seq<char>>
    recommends
        marks.len() == s.len(),
    decreases s.len(),
{
    if s.len() == 0 {
        seq![Seq::empty()]
    } else {
        let prev = split_marked(s.drop_last(), marks.drop_last());
        if marks.last() {
            prev.push(Seq::empty())
        } else {
            prev.update(prev.len() - 1, prev.last().push(s.last()))
        }
    }
}

/// Marks the characters of `s` that equal `sep`.
pub open spec fn marks_of_char(s: Seq<char>, sep: char) -> Seq<bool> {
    s.map_values(|c: char| c == sep)
}

/// `str::split(sep)` on a single character.
pub open spec fn split_on(s: Seq<char>, sep: char) -> Seq<Seq<char>> {
    split_marked(s, marks_of_char(s, sep))
}

/// The characters of `s` after its last occurrence of `sep` (all of `s` if none).
pub open spec fn after_last(s: Seq<char>, sep: char) -> Seq<char>
    decreases s.len(),
{
    if s.len() == 0 {
        Seq::empty()
    } else if s.last() == sep {
        Seq::empty()
    } else {
        after_last(s.drop_last(), sep).push(s.last())
    }
}

/// The non-empty pieces of `parts`, in order.
pub open spec fn non_empty(parts: Seq<Seq<char>>) -> Seq<Seq<char>>
    decreases parts.len(),
{
    if parts.len() == 0 {
        Seq::empty()
    } else if parts.last().len() == 0 {
        non_empty(parts.drop_last())
    } else {
        non_empty(parts.drop_last()).push(parts.last())
    }
}

/// `parts` joined with `sep` between consecutive pieces.
pub open spec fn join(parts: Seq<Seq<char>>, sep: Seq<char>) -> Seq<char>
    decreases parts.len(),
{
    if parts.len() == 0 {
        Seq::empty()
    } else if parts.len() == 1 {
        parts[0]
    } else {
        join(parts.drop_last(), sep) + sep + parts.last()
    }
}

/// The views of a sequence of owned strings.
pub open spec fn views(v: Seq<String>) -> Seq<Seq<char>> {
    v.map_values(|s: String| s@)
}

/// The views of a sequence of borrowed strings.
pub open spec fn str_views(v: Seq<&str>) -> Seq<Seq<char>> {
    v.map_values(|s: &str| s@)
}

// ---------------------------------------------------------------------------
// Lemmas
// ---------------------------------------------------------------------------

pub proof fn lemma_split_marked_nonempty(s: Seq<char>, marks: Seq<bool>)
    requires
        marks.len() == s.len(),
    ensures
        split_marked(s, marks).len() >= 1,
    decreases s.len(),
{
    if s.len() > 0 {
        lemma_split_marked_nonempty(s.drop_last(), marks.drop_last());
    }
}

/// The last piece of a split on a character is what follows the last separator.
pub proof fn lemma_split_on_last(s: Seq<char>, sep: char)
    ensures
        split_on(s, sep).len() >= 1,
        split_on(s, sep).last() == after_last(s, sep),
    decreases s.len(),
{
    lemma_split_marked_nonempty(s, marks_of_char(s, sep));
    if s.len() > 0 {
        assert(marks_of_char(s, sep).drop_last() =~= marks_of_char(s.drop_last(), sep));
        lemma_split_on_last(s.drop_last(), sep);
    }
}

// ---------------------------------------------------------------------------
// Executable helpers
// ---------------------------------------------------------------------------

/// The characters of `s`, one per element.
pub fn chars_of(s: &str) -> (r: Vec<char>)
    ensures
        r@ == s@,
{
    broadcast use vstd::string::group_string_axioms;
    let mut out: Vec<char> = Vec::new();
    for c in it: s.chars()
        invariant
            it.seq() == s@,
            out@ == it.seq().take(it.index() as int),
    {
        out.push(c);
    }
    assert(out@ =~= s@);
    out
}

/// True iff the two strings hold the same characters.
pub fn str_eq(a: &str, b: &str) -> (r: bool)
    ensures
        r == (a@ == b@),
{
    let ca = chars_of(a);
    let cb = chars_of(b);
    if ca.len() != cb.len() {
        return false;
    }
    let n = ca.len();
    for i in 0..n
        invariant
            n == ca@.len(),
            n == cb@.len(),
            ca@ == a@,
            cb@ == b@,
            forall|j: int| 0 <= j < i ==> ca@[j] == cb@[j],
    {
        if ca[i] != cb[i] {
            assert(a@[i as int] != b@[i as int]);
            return false;
        }
    }
    assert(a@ =~= b@);
    true
}

/// `s` with the prefix `p` removed, if `s` starts with `p`.
pub fn strip_prefix<'a>(s: &'a str, p: &str) -> (r: Option<&'a str>)
    ensures
        match r {
            Some(rest) => p@.is_prefix_of(s@) && rest@ == s@.skip(p@.len() as int),
            None => !p@.is_prefix_of(s@),
        },
{
    let cs = chars_of(s);
    let cp = chars_of(p);
    if cp.len() > cs.len() {
        return None;
    }
    let n = cp.len();
    for i in 0..n
        invariant
            n == cp@.len(),
            n <= cs@.len(),
            cs@ == s@,
            cp@ == p@,
            forall|j: int| 0 <= j < i ==> cp@[j] == cs@[j],
    {
        if cs[i] != cp[i] {
            assert(s@[i as int] != p@[i as int]);
            return None;
        }
    }
    assert(p@.is_prefix_of(s@));
    Some(s.substring_char(n, cs.len()))
}

/// `s` with the suffix `p` removed, if `s` ends with `p`.
pub fn strip_suffix<'a>(s: &'a str, p: &str) -> (r: Option<&'a str>)
    ensures
        match r {
            Some(rest) => p@.is_suffix_of(s@) && rest@ == s@.take(s@.len() - p@.len()),
            None => !p@.is_suffix_of(s@),
        },
{
    let cs = chars_of(s);
    let cp = chars_of(p);
    if cp.len() > cs.len() {
        return None;
    }
    let n = cp.len();
    let off = cs.len() - n;
    for i in 0..n
        invariant
            n == cp@.len(),
            off + n == cs.len(),
            cs@ == s@,
            cp@ == p@,
            forall|j: int| 0 <= j < i ==> cp@[j] == cs@[off + j],
    {
        if cs[off + i] != cp[i] {
            assert(s@[off + i] != p@[i as int]);
            return None;
        }
    }
    assert(p@.is_suffix_of(s@));
    Some(s.substring_char(0, off))
}

/// Splits `s` at the characters that `marks` flags, keeping empty pieces.
pub fn split_at_marks<'a>(s: &'a str, marks: &Vec<bool>) -> (r: Vec<&'a str>)
    requires
        marks@.len() == s@.len(),
    ensures
        str_views(r@) == split_marked(s@, marks@),
{
    let n = marks.len();
    let mut out: Vec<&'a str> = Vec::new();
    let mut start: usize = 0;
    proof {
        assert(s@.take(0) =~= Seq::<char>::empty());
        assert(marks@.take(0) =~= Seq::<bool>::empty());
        assert(str_views(out@).push(s@.subrange(0, 0)) =~= seq![Seq::<char>::empty()]);
    }
    for i in 0..n
        invariant
            n == s@.len(),
            n == marks@.len(),
            start <= i,
            str_views(out@).push(s@.subrange(start as int, i as int))
                == split_marked(s@.take(i as int), marks@.take(i as int)),
    {
        proof {
            assert(s@.take(i + 1).drop_last() =~= s@.take(i as int));
            assert(marks@.take(i + 1).drop_last() =~= marks@.take(i as int));
            lemma_split_marked_nonempty(s@.take(i as int), marks@.take(i as int));
        }
        if marks[i] {
            let piece = s.substring_char(start, i);
            let ghost before = out@;
            out.push(piece);
            proof {
                assert(str_views(out@) =~= str_views(before).push(piece@));
                assert(s@.subrange(i + 1, i + 1) =~= Seq::<char>::empty());
            }
            start = i + 1;
        } else {
            proof {
                let pv = str_views(out@).push(s@.subrange(start as int, i as int));
                assert(s@.subrange(start as int, i + 1) =~= s@.subrange(start as int, i as int).push(s@[i as int]));
                assert(str_views(out@).push(s@.subrange(start as int, i + 1)) =~= pv.update(pv.len() - 1, pv.last().push(s@.take(i + 1).last())));
            }
        }
    }
    let last = s.substring_char(start, n);
    let ghost before = out@;
    out.push(last);
    proof {
        assert(str_views(out@) =~= str_views(before).push(last@));
        assert(s@.take(n as int) =~= s@);
        assert(marks@.take(n as int) =~= marks@);
    }
    out
}

/// The pieces of `parts` that are not empty, in order.
pub fn non_empty_pieces<'a>(parts: &Vec<&'a str>) -> (r: Vec<&'a str>)
    ensures
        str_views(r@) == non_empty(str_views(parts@)),
{
    let n = parts.len();
    let mut out: Vec<&'a str> = Vec::new();
    for i in 0..n
        invariant
            n == parts@.len(),
            str_views(out@) == non_empty(str_views(parts@).take(i as int)),
    {
        proof {
            assert(str_views(parts@).take(i + 1).drop_last() =~= str_views(parts@).take(i as int));
        }
        let p = parts[i];
        let ghost before = out@;
        if p.unicode_len() != 0 {
            out.push(p);
            assert(str_views(out@) =~= str_views(before).push(p@));
        }
    }
    assert(str_views(parts@).take(n as int) =~= str_views(parts@));
    out
}

/// `parts` joined with `sep`.
pub fn join_with(parts: &Vec<&str>, sep: &str) -> (r: String)
    ensures
        r@ == join(str_views(parts@), sep@),
{
    let mut out = String::new();
    let n = parts.len();
    for i in 0..n
        invariant
            n == parts@.len(),
            out@ == join(str_views(parts@).take(i as int), sep@),
    {
        proof {
            assert(str_views(parts@).take(i + 1).drop_last() =~= str_views(parts@).take(i as int));
        }
        if i != 0 {
            out.append(sep);
        }
        out.append(parts[i]);
    }
    assert(str_views(parts@).take(n as int) =~= str_views(parts@));
    out
}

/// `parts` joined with `sep`, for owned pieces.
pub fn join_strings(parts: &Vec<String>, sep: &str) -> (r: String)
    ensures
        r@ == join(views(parts@), sep@),
{
    let mut out = String::new();
    let n = parts.len();
    for i in 0..n
        invariant
            n == parts@.len(),
            out@ == join(views(parts@).take(i as int), sep@),
    {
        proof {
            assert(views(parts@).take(i + 1).drop_last() =~= views(parts@).take(i as int));
        }
        if i != 0 {
            out.append(sep);
        }
        out.append(parts[i].as_str());
    }
    assert(views(parts@).take(n as int) =~= views(parts@));
    out
}

/// Marks the characters of `s` equal to `sep`.
pub fn char_marks(s: &str, sep: char) -> (r: Vec<bool>)
    ensures
        r@ == marks_of_char(s@, sep),
{
    let cs = chars_of(s);
    let mut out: Vec<bool> = Vec::new();
    let n = cs.len();
    for i in 0..n
        invariant
            n == cs@.len(),
            cs@ == s@,
            out@ == marks_of_char(s@, sep).take(i as int),
    {
        out.push(cs[i] == sep);
        assert(out@ =~= marks_of_char(s@, sep).take(i + 1));
    }
    assert(out@ =~= marks_of_char(s@, sep));
    out
}

/// `str::split(sep)` for a single-character separator.
pub fn split_char<'a>(s: &'a str, sep: char) -> (r: Vec<&'a str>)
    ensures
        str_views(r@) == split_on(s@, sep),
{
    let marks = char_marks(s, sep);
    split_at_marks(s, &marks)
}

// ---------------------------------------------------------------------------
// Unicode case and classification, from the standard library
// ---------------------------------------------------------------------------

/// An ASCII uppercase letter.
pub open spec fn ascii_upper(c: char) -> bool {
    'A' <= c && c <= 'Z'
}

/// An ASCII letter or digit.
pub open spec fn ascii_alnum(c: char) -> bool {
    ('a' <= c && c <= 'z') || ascii_upper(c) || ('0' <= c && c <= '9')
}

/// A character below 128.
pub open spec fn ascii_char(c: char) -> bool {
    (c as u32) < 128
}

/// Every character is below 128.
pub open spec fn ascii_text(s: Seq<char>) -> bool {
    forall|i: int| 0 <= i < s.len() ==> ascii_char(#[trigger] s[i])
}

/// ASCII lowercasing of one character: `A`..`Z` become `a`..`z`, others are kept.
pub open spec fn ascii_lower(c: char) -> char {
    if ascii_upper(c) {
        ((c as u32) + 32) as char
    } else {
        c
    }
}

/// ASCII lowercasing of a text.
pub open spec fn ascii_lowercase(s: Seq<char>) -> Seq<char> {
    s.map_values(|c: char| ascii_lower(c))
}

/// What `str::to_lowercase` returns for a string with these characters.
pub uninterp spec fn unicode_lowercase(s: Seq<char>) -> Seq<char>;

/// What `char::is_alphanumeric` returns for a character.
pub uninterp spec fn unicode_alphanumeric(c: char) -> bool;

/// Calls `str::to_lowercase`, which maps every character to its Unicode lowercase
/// form (possibly several characters). The contract names that result, and
/// states that on an ASCII text it is the ASCII lowercasing, where Unicode
/// lowercasing maps `A`..`Z` to `a`..`z` and keeps every other ASCII character.
#[verifier::external_body]
pub(crate) fn to_lowercase(s: &str) -> (r: String)
    ensures
        r@ == unicode_lowercase(s@),
        ascii_text(s@) ==> r@ == ascii_lowercase(s@),
{
    s.to_lowercase()
}

/// Calls `char::is_alphanumeric` (Unicode `Alphabetic` or `Numeric`). The
/// contract names that result, and states that on an ASCII character it holds
/// exactly of the letters and digits.
#[verifier::external_body]
pub(crate) fn is_alphanumeric(c: char) -> (r: bool)
    ensures
        r == unicode_alphanumeric(c),
        ascii_char(c) ==> r == ascii_alnum(c),
{
    c.is_alphanumeric()
}

} // verus!
