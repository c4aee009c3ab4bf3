//! Splitting URL path templates into static and parameter segments.

use vstd::prelude::*;
use crate::text::{
    marks_of_char, split_marked, non_empty, non_empty_pieces, split_char, split_on, str_views, strip_prefix, strip_suffix, views,
};

verus! {

/// One non-empty piece of a path template: a literal name or a `{param}` placeholder.
#[derive(Debug, Clone)]
pub enum Segment {
    Static(String),
    Param(String),
}

/// The content of a [`Segment`].
pub enum SegmentView {
    Static(Seq<char>),
    Param(Seq<char>),
}

impl View for Segment {
    type V = SegmentView;

    open spec fn view(&self) -> SegmentView {
        match self {
            Segment::Static(s) => SegmentView::Static(s@),
            Segment::Param(s) => SegmentView::Param(s@),
        }
    }
}

/// The views of a sequence of segments.
pub open spec fn segment_views(s: Seq<Segment>) -> Seq<SegmentView> {
    s.map_values(|x: Segment| x@)
}

/// A piece wrapped in braces is a parameter named by what is inside them;
/// anything else is a literal.
pub open spec fn classify(piece: Seq<char>) -> SegmentView {
    if piece.len() >= 2 && piece[0] == '{' && piece.last() == '}' {
        SegmentView::Param(piece.subrange(1, piece.len() - 1))
    } else {
        SegmentView::Static(piece)
    }
}

/// The segments of a path template: its non-empty `/`-separated pieces, classified.
pub open spec fn path_segments(path: Seq<char>) -> Seq<SegmentView> {
    non_empty(split_on(path, '/')).map_values(|p: Seq<char>| classify(p))
}

/// The names of the literal segments, in order.
pub open spec fn static_names(segs: Seq<SegmentView>) -> Seq<Seq<char>>
    decreases segs.len(),
{
    if segs.len() == 0 {
        Seq::empty()
    } else {
        match segs.last() {
            SegmentView::Static(name) => static_names(segs.drop_last()).push(name),
            SegmentView::Param(_) => static_names(segs.drop_last()),
        }
    }
}

/// The names of the parameter segments, in order.
pub open spec fn param_names(segs: Seq<SegmentView>) -> Seq<Seq<char>>
    decreases segs.len(),
{
    if segs.len() == 0 {
        Seq::empty()
    } else {
        match segs.last() {
            SegmentView::Param(name) => param_names(segs.drop_last()).push(name),
            SegmentView::Static(_) => param_names(segs.drop_last()),
        }
    }
}

/// The path targets a single item: its last segment is a parameter.
pub open spec fn targets_item(segs: Seq<SegmentView>) -> bool {
    segs.len() > 0 && segs.last() is Param
}

fn classify_piece(piece: &str) -> (r: Segment)
    ensures
        r@ == classify(piece@),
{
    proof {
        reveal_strlit("{");
        reveal_strlit("}");
    }
    match strip_prefix(piece, "{") {
        Some(rest) => match strip_suffix(rest, "}") {
            Some(name) => {
                assert(seq!['{'] == "{"@);
                assert(seq!['}'] == "}"@);
                assert(piece@.subrange(0, 1) =~= seq!['{']);
                assert(piece@.subrange(0, 1)[0] == piece@[0]);
                assert(piece@[0] == '{');
                assert(rest@ =~= piece@.skip(1));
                assert(rest@.subrange(rest@.len() - 1, rest@.len() as int) =~= seq!['}']);
                assert(rest@.subrange(rest@.len() - 1, rest@.len() as int)[0] == rest@.last());
                assert(piece@.last() == '}');
                assert(piece@.subrange(1, piece@.len() - 1) =~= name@);
                Segment::Param(String::from_str(name))
            },
            None => {
                assert(rest@ =~= piece@.skip(1));
                proof {
                    if piece@.len() >= 2 && piece@.last() == '}' {
                        assert(seq!['}'].is_suffix_of(rest@));
                    }
                }
                Segment::Static(String::from_str(piece))
            },
        },
        None => {
            proof {
                if piece@.len() >= 2 && piece@[0] == '{' {
                    assert(seq!['{'].is_prefix_of(piece@));
                }
            }
            Segment::Static(String::from_str(piece))
        },
    }
}

/// Parses `/users/{userId}/files/{fileId}` into typed segments.
pub fn parse_segments(path: &str) -> (r: Vec<Segment>)
    ensures
        segment_views(r@) == path_segments(path@),
{
    let pieces = non_empty_pieces(&split_char(path, '/'));
    let ghost pv = str_views(pieces@);
    let n = pieces.len();
    let mut out: Vec<Segment> = Vec::new();
    for i in 0..n
        invariant
            n == pieces@.len(),
            pv == str_views(pieces@),
            pv == non_empty(split_on(path@, '/')),
            segment_views(out@) == pv.take(i as int).map_values(|p: Seq<char>| classify(p)),
    {
        let seg = classify_piece(pieces[i]);
        let ghost before = out@;
        out.push(seg);
        assert(pv[i as int] == pieces@[i as int]@);
        assert(segment_views(out@) =~= segment_views(before).push(seg@));
        assert(segment_views(out@) =~= pv.take(i + 1).map_values(|p: Seq<char>| classify(p)));
    }
    assert(pv.take(n as int) =~= pv);
    out
}

/// The literal names forming the nesting hierarchy.
pub fn resource_chain(segments: &[Segment]) -> (r: Vec<String>)
    ensures
        views(r@) == static_names(segment_views(segments@)),
{
    let n = segments.len();
    let mut out: Vec<String> = Vec::new();
    for i in 0..n
        invariant
            n == segments@.len(),
            views(out@) == static_names(segment_views(segments@).take(i as int)),
    {
        proof {
            assert(segment_views(segments@).take(i + 1).drop_last() =~= segment_views(segments@).take(i as int));
        }
        let ghost before = out@;
        match &segments[i] {
            Segment::Static(name) => {
                out.push(name.clone());
                assert(views(out@) =~= views(before).push(name@));
            },
            Segment::Param(_) => {},
        }
    }
    assert(segment_views(segments@).take(n as int) =~= segment_views(segments@));
    out
}

/// The parameter names in path order.
pub fn parameter_names(segments: &[Segment]) -> (r: Vec<String>)
    ensures
        views(r@) == param_names(segment_views(segments@)),
{
    let n = segments.len();
    let mut out: Vec<String> = Vec::new();
    for i in 0..n
        invariant
            n == segments@.len(),
            views(out@) == param_names(segment_views(segments@).take(i as int)),
    {
        proof {
            assert(segment_views(segments@).take(i + 1).drop_last() =~= segment_views(segments@).take(i as int));
        }
        let ghost before = out@;
        match &segments[i] {
            Segment::Param(name) => {
                out.push(name.clone());
                assert(views(out@) =~= views(before).push(name@));
            },
            Segment::Static(_) => {},
        }
    }
    assert(segment_views(segments@).take(n as int) =~= segment_views(segments@));
    out
}

/// True if the path targets a specific item (ends with `{param}`).
pub fn ends_with_param(segments: &[Segment]) -> (r: bool)
    ensures
        r == targets_item(segment_views(segments@)),
{
    let n = segments.len();
    if n == 0 {
        false
    } else {
        match &segments[n - 1] {
            Segment::Param(_) => true,
            Segment::Static(_) => false,
        }
    }
}


/// `s` has no occurrence of `c`.
pub open spec fn free_of(s: Seq<char>, c: char) -> bool {
    forall|j: int| 0 <= j < s.len() ==> s[j] != c
}

proof fn lemma_split_on_free(s: Seq<char>, sep: char)
    ensures
        forall|i: int| 0 <= i < split_on(s, sep).len() ==> free_of(#[trigger] split_on(s, sep)[i], sep),
    decreases s.len(),
{
    if s.len() > 0 {
        let prev = split_on(s.drop_last(), sep);
        assert(marks_of_char(s, sep).drop_last() =~= marks_of_char(s.drop_last(), sep));
        lemma_split_on_free(s.drop_last(), sep);
        crate::text::lemma_split_marked_nonempty(s.drop_last(), marks_of_char(s.drop_last(), sep));
        let cur = split_on(s, sep);
        assert forall|i: int| 0 <= i < cur.len() implies free_of(#[trigger] cur[i], sep) by {
            if s.last() != sep && i == prev.len() - 1 {
                assert(cur[i] == prev.last().push(s.last()));
                assert(free_of(prev[prev.len() - 1], sep));
            } else if i < prev.len() {
                assert(cur[i] == prev[i]);
            }
        }
    }
}

proof fn lemma_non_empty_members(parts: Seq<Seq<char>>, sep: char)
    requires
        forall|i: int| 0 <= i < parts.len() ==> free_of(#[trigger] parts[i], sep),
    ensures
        forall|i: int| 0 <= i < non_empty(parts).len() ==> (#[trigger] non_empty(parts)[i]).len() > 0
            && free_of(non_empty(parts)[i], sep),
    decreases parts.len(),
{
    if parts.len() > 0 {
        assert forall|i: int| 0 <= i < parts.drop_last().len() implies free_of(#[trigger] parts.drop_last()[i], sep) by {
            assert(parts.drop_last()[i] == parts[i]);
        }
        lemma_non_empty_members(parts.drop_last(), sep);
        assert(free_of(parts[parts.len() - 1], sep));
        let prev = non_empty(parts.drop_last());
        assert forall|i: int| 0 <= i < non_empty(parts).len() implies (#[trigger] non_empty(parts)[i]).len() > 0
            && free_of(non_empty(parts)[i], sep) by {
            if i < prev.len() {
                assert(non_empty(parts)[i] == prev[i]);
            } else {
                assert(non_empty(parts)[i] == parts.last());
            }
        }
    }
}

/// Every segment name is free of `/`, and every literal name is non-empty.
pub proof fn law_segment_names(path: Seq<char>)
    ensures
        forall|i: int| 0 <= i < path_segments(path).len() ==> match #[trigger] path_segments(path)[i] {
            SegmentView::Static(n) => n.len() > 0 && free_of(n, '/'),
            SegmentView::Param(n) => free_of(n, '/'),
        },
{
    let pieces = non_empty(split_on(path, '/'));
    lemma_split_on_free(path, '/');
    lemma_non_empty_members(split_on(path, '/'), '/');
    assert forall|i: int| 0 <= i < path_segments(path).len() implies match #[trigger] path_segments(path)[i] {
        SegmentView::Static(n) => n.len() > 0 && free_of(n, '/'),
        SegmentView::Param(n) => free_of(n, '/'),
    } by {
        let p = pieces[i];
        assert(path_segments(path)[i] == classify(p));
        assert(p.len() > 0 && free_of(p, '/'));
        if let SegmentView::Param(n) = classify(p) {
            assert forall|j: int| 0 <= j < n.len() implies n[j] != '/' by {
                assert(n[j] == p[j + 1]);
            }
        }
    }
}


proof fn lemma_split_on_leading(t: Seq<char>, sep: char)
    ensures
        split_on(seq![sep] + t, sep) == seq![Seq::<char>::empty()] + split_on(t, sep),
    decreases t.len(),
{
    let s = seq![sep] + t;
    let ms = marks_of_char(s, sep);
    assert(ms.drop_last() =~= marks_of_char(s.drop_last(), sep));
    let prev = split_on(s.drop_last(), sep);
    assert(split_on(s, sep) == split_marked(s, ms));
    if t.len() == 0 {
        assert(s.drop_last() =~= Seq::<char>::empty());
        assert(prev == seq![Seq::<char>::empty()]);
        assert(ms.last());
        assert(split_on(s, sep) == prev.push(Seq::<char>::empty()));
        assert(split_on(t, sep) == seq![Seq::<char>::empty()]);
        assert(split_on(s, sep) =~= seq![Seq::<char>::empty()] + split_on(t, sep));
    } else {
        let d = t.drop_last();
        let mt = marks_of_char(t, sep);
        assert(s.drop_last() =~= seq![sep] + d);
        assert(mt.drop_last() =~= marks_of_char(d, sep));
        lemma_split_on_leading(d, sep);
        crate::text::lemma_split_marked_nonempty(d, marks_of_char(d, sep));
        let x = split_on(d, sep);
        assert(prev == seq![Seq::<char>::empty()] + x);
        assert(split_on(t, sep) == split_marked(t, mt));
        assert(s.last() == t.last());
        assert(ms.last() == mt.last());
        if t.last() == sep {
            assert(split_on(s, sep) == prev.push(Seq::<char>::empty()));
            assert(split_on(t, sep) == x.push(Seq::<char>::empty()));
        } else {
            assert(split_on(s, sep) == prev.update(prev.len() - 1, prev.last().push(s.last())));
            assert(split_on(t, sep) == x.update(x.len() - 1, x.last().push(t.last())));
        }
        assert(split_on(s, sep) =~= seq![Seq::<char>::empty()] + split_on(t, sep));
    }
}

proof fn lemma_non_empty_leading(x: Seq<Seq<char>>)
    ensures
        non_empty(seq![Seq::<char>::empty()] + x) == non_empty(x),
    decreases x.len(),
{
    let y = seq![Seq::<char>::empty()] + x;
    if x.len() == 0 {
        assert(y.drop_last() =~= Seq::<Seq<char>>::empty());
        assert(y.last().len() == 0);
        assert(non_empty(y.drop_last()) == Seq::<Seq<char>>::empty());
        assert(non_empty(x) == Seq::<Seq<char>>::empty());
    } else {
        assert(y.drop_last() =~= seq![Seq::<char>::empty()] + x.drop_last());
        lemma_non_empty_leading(x.drop_last());
        assert(y.last() == x.last());
    }
}

/// Dropping a leading `/` from a template leaves its segments unchanged.
pub proof fn lemma_leading_slash_segments(t: Seq<char>)
    ensures
        path_segments(seq!['/'] + t) == path_segments(t),
{
    lemma_split_on_leading(t, '/');
    lemma_non_empty_leading(split_on(t, '/'));
}

} // verus!
