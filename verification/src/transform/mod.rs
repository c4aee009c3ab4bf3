//! The conversion from an OpenAPI description to a Discovery document.

pub mod resource_tree;
pub mod schemas;

use vstd::prelude::*;
use crate::assoc::assoc_view;
use crate::discovery::{opt_view, DiscoveryDocument, DocumentView};
use crate::openapi::OpenApiSpec;
use crate::resolver::RefResolver;
use crate::text::{
    ascii_alnum, ascii_char, ascii_lower, ascii_lowercase, ascii_text, ascii_upper,
    lemma_split_marked_nonempty, is_alphanumeric, join, join_strings, join_with, non_empty, non_empty_pieces, split_at_marks, split_marked,
    to_lowercase, unicode_alphanumeric, unicode_lowercase,
};
use self::resource_tree::{build_resources, law_tree_keys_distinct, resource_tree, tree_keys_distinct};
use crate::assoc::{keys_distinct, keys_of};
use self::schemas::{
    components_distinct, distinct_throughout, free_of_openapi_keys, law_lifted_schemas_well_formed, lift_schemas, lifted,
};

verus! {

/// The characters of `s` that separate words: those that are not alphanumeric.
pub open spec fn word_separators(s: Seq<char>) -> Seq<bool> {
    s.map_values(|c: char| !unicode_alphanumeric(c))
}

/// The words of `text` (maximal runs of non-separators) joined with `-`.
pub open spec fn slug_of_words(text: Seq<char>, separators: Seq<bool>) -> Seq<char> {
    join(non_empty(split_marked(text, separators)), "-"@)
}

/// A title lowercased, with its alphanumeric words joined by hyphens.
pub open spec fn slug(title: Seq<char>) -> Seq<char> {
    let lower = unicode_lowercase(title);
    slug_of_words(lower, word_separators(lower))
}

fn separator_marks(s: &str) -> (r: Vec<bool>)
    ensures
        r@ == word_separators(s@),
        ascii_text(s@) ==> r@ == ascii_separators(s@),
{
    broadcast use vstd::string::group_string_axioms;
    let mut out: Vec<bool> = Vec::new();
    for c in it: s.chars()
        invariant
            it.seq() == s@,
            out@ == word_separators(it.seq().take(it.index() as int)),
            ascii_text(s@) ==> out@ == ascii_separators(it.seq().take(it.index() as int)),
    {
        let ghost i = it.index() as int;
        proof {
            assert(c == s@[i]);
        }
        out.push(!is_alphanumeric(c));
        assert(out@ =~= word_separators(it.seq().take(i + 1)));
        assert(ascii_text(s@) ==> out@ =~= ascii_separators(it.seq().take(i + 1)));
    }
    assert(s@.take(s@.len() as int) =~= s@);
    out
}

/// Joins the words of `text` with `-`, a word being a maximal run of characters
/// not flagged in `separators`.
pub fn slug_words(text: &str, separators: &Vec<bool>) -> (r: String)
    requires
        separators@.len() == text@.len(),
    ensures
        r@ == slug_of_words(text@, separators@),
{
    let pieces = split_at_marks(text, separators);
    let words = non_empty_pieces(&pieces);
    join_with(&words, "-")
}

/// Lowercases a title and joins its words with hyphens: `"My Cool API"` → `"my-cool-api"`.
/// On an ASCII title the words are the maximal runs of ASCII letters and digits.
pub fn slugify(s: &str) -> (r: String)
    ensures
        r@ == slug(s@),
        ascii_text(s@) ==> r@ == ascii_slug(s@),
{
    let lower = to_lowercase(s);
    proof {
        if ascii_text(s@) {
            lemma_ascii_lowercase_ascii(s@);
        }
    }
    let marks = separator_marks(lower.as_str());
    slug_words(lower.as_str(), &marks)
}

/// The separators of a text of ASCII characters: every character but a letter or digit.
pub open spec fn ascii_separators(s: Seq<char>) -> Seq<bool> {
    s.map_values(|c: char| !ascii_alnum(c))
}

/// The slug of an ASCII title: the maximal runs of ASCII letters and digits of
/// its ASCII lowercasing, joined with `-`.
pub open spec fn ascii_slug(title: Seq<char>) -> Seq<char> {
    let lower = ascii_lowercase(title);
    slug_of_words(lower, ascii_separators(lower))
}

proof fn lemma_ascii_lower_char(c: char)
    ensures
        !ascii_upper(ascii_lower(c)),
        ascii_alnum(ascii_lower(c)) == ascii_alnum(c),
        ascii_char(c) ==> ascii_char(ascii_lower(c)),
        !ascii_upper(c) ==> ascii_lower(c) == c,
{
}

proof fn lemma_ascii_lowercase_ascii(s: Seq<char>)
    requires
        ascii_text(s),
    ensures
        ascii_text(ascii_lowercase(s)),
{
    assert forall|i: int| 0 <= i < ascii_lowercase(s).len() implies ascii_char(#[trigger] ascii_lowercase(s)[i]) by {
        lemma_ascii_lower_char(s[i]);
    }
}

/// The text of an optional string slice.
pub open spec fn opt_str_view(o: Option<&str>) -> Option<Seq<char>> {
    match o {
        Some(s) => Some(s@),
        None => None,
    }
}

/// The Discovery document of a description.
pub open spec fn transformed(
    spec: OpenApiSpec,
    name_override: Option<Seq<char>>,
    version_override: Option<Seq<char>>,
) -> DocumentView {
    let name = match name_override {
        Some(n) => n,
        None => slug(spec.info.title@),
    };
    let version = match version_override {
        Some(v) => v,
        None => spec.info.version@,
    };
    DocumentView {
        kind: "discovery#restDescription"@,
        discovery_version: "v1"@,
        id: name + ":"@ + version,
        name,
        version,
        title: spec.info.title@,
        description: opt_view(spec.info.description),
        protocol: "rest"@,
        root_url: if spec.servers@.len() > 0 {
            spec.servers@[0].url@
        } else {
            Seq::empty()
        },
        service_path: Seq::empty(),
        schemas: lifted(spec),
        resources: resource_tree(spec.paths@, spec, spec, name),
    }
}

/// Converts an OpenAPI description into a Discovery document. The service name
/// defaults to the slugified title and the version to the description's version.
pub fn transform(spec: &OpenApiSpec, name_override: Option<&str>, version_override: Option<&str>) -> (r: DiscoveryDocument)
    ensures
        r@ == transformed(*spec, opt_str_view(name_override), opt_str_view(version_override)),
{
    let resolver = RefResolver::new(spec);

    let name = match name_override {
        Some(n) => String::from_str(n),
        None => slugify(spec.info.title.as_str()),
    };
    let version = match version_override {
        Some(v) => String::from_str(v),
        None => spec.info.version.clone(),
    };
    let root_url = if spec.servers.len() > 0 {
        spec.servers[0].url.clone()
    } else {
        String::new()
    };
    let mut id = name.clone();
    id.append(":");
    id.append(version.as_str());
    let description = match &spec.info.description {
        Some(d) => Some(d.clone()),
        None => None,
    };
    let schemas = lift_schemas(spec);
    let resources = build_resources(spec, &resolver, name.as_str());
    DiscoveryDocument {
        kind: String::from_str("discovery#restDescription"),
        discovery_version: String::from_str("v1"),
        id,
        title: spec.info.title.clone(),
        description,
        protocol: String::from_str("rest"),
        root_url,
        service_path: String::new(),
        schemas,
        resources,
        name,
        version,
    }
}


/// No `-` at either end, and never two in a row.
pub open spec fn well_hyphenated(s: Seq<char>) -> bool {
    &&& s.len() > 0 ==> s[0] != '-' && s.last() != '-'
    &&& forall|i: int| 0 <= i < s.len() - 1 ==> !(#[trigger] s[i] == '-' && s[i + 1] == '-')
}

proof fn lemma_words_alphanumeric(s: Seq<char>)
    ensures
        forall|i: int, j: int|
            0 <= i < split_marked(s, word_separators(s)).len() && 0 <= j < split_marked(s, word_separators(s))[i].len()
                ==> unicode_alphanumeric(#[trigger] split_marked(s, word_separators(s))[i][j]),
    decreases s.len(),
{
    if s.len() > 0 {
        let d = s.drop_last();
        assert(word_separators(s).drop_last() =~= word_separators(d));
        lemma_words_alphanumeric(d);
        lemma_split_marked_nonempty(d, word_separators(d));
        let prev = split_marked(d, word_separators(d));
        let cur = split_marked(s, word_separators(s));
        assert forall|i: int, j: int| 0 <= i < cur.len() && 0 <= j < cur[i].len() implies unicode_alphanumeric(
            #[trigger] cur[i][j],
        ) by {
            if !word_separators(s).last() && i == prev.len() - 1 {
                assert(cur[i] == prev.last().push(s.last()));
                if j < prev.last().len() {
                    assert(cur[i][j] == prev[prev.len() - 1][j]);
                }
            } else if i < prev.len() {
                assert(cur[i] == prev[i]);
            }
        }
    }
}

proof fn lemma_non_empty_words(parts: Seq<Seq<char>>)
    requires
        forall|i: int, j: int| 0 <= i < parts.len() && 0 <= j < parts[i].len() ==> (#[trigger] parts[i][j]) != '-',
    ensures
        forall|i: int| 0 <= i < non_empty(parts).len() ==> (#[trigger] non_empty(parts)[i]).len() > 0,
        forall|i: int, j: int|
            0 <= i < non_empty(parts).len() && 0 <= j < non_empty(parts)[i].len() ==> (#[trigger] non_empty(parts)[i][j]) != '-',
    decreases parts.len(),
{
    if parts.len() > 0 {
        let d = parts.drop_last();
        assert forall|i: int, j: int| 0 <= i < d.len() && 0 <= j < d[i].len() implies (#[trigger] d[i][j]) != '-' by {
            assert(d[i] == parts[i]);
        }
        lemma_non_empty_words(d);
        let prev = non_empty(d);
        let cur = non_empty(parts);
        assert forall|i: int| 0 <= i < cur.len() implies (#[trigger] cur[i]).len() > 0 by {
            if i < prev.len() {
                assert(cur[i] == prev[i]);
            }
        }
        assert forall|i: int, j: int| 0 <= i < cur.len() && 0 <= j < cur[i].len() implies (#[trigger] cur[i][j]) != '-' by {
            if i < prev.len() {
                assert(cur[i] == prev[i]);
            } else {
                assert(cur[i] == parts[parts.len() - 1]);
            }
        }
    }
}

proof fn lemma_join_well_hyphenated(parts: Seq<Seq<char>>)
    requires
        forall|i: int| 0 <= i < parts.len() ==> (#[trigger] parts[i]).len() > 0,
        forall|i: int, j: int| 0 <= i < parts.len() && 0 <= j < parts[i].len() ==> (#[trigger] parts[i][j]) != '-',
    ensures
        well_hyphenated(join(parts, "-"@)),
        parts.len() > 0 ==> join(parts, "-"@).len() > 0,
    decreases parts.len(),
{
    reveal_strlit("-");
    if parts.len() == 1 {
        let w = parts[0];
        assert(w[0] != '-');
        assert(w[w.len() - 1] != '-');
    } else if parts.len() > 1 {
        let d = parts.drop_last();
        assert forall|i: int| 0 <= i < d.len() implies (#[trigger] d[i]).len() > 0 by {
            assert(d[i] == parts[i]);
        }
        assert forall|i: int, j: int| 0 <= i < d.len() && 0 <= j < d[i].len() implies (#[trigger] d[i][j]) != '-' by {
            assert(d[i] == parts[i]);
        }
        lemma_join_well_hyphenated(d);
        let a = join(d, "-"@);
        let b = parts.last();
        assert(b == parts[parts.len() - 1]);
        assert(b.len() > 0);
        let r = a + "-"@ + b;
        assert(r == join(parts, "-"@));
        assert(r[0] == a[0]);
        assert(r.last() == b[b.len() - 1]);
        assert forall|i: int| 0 <= i < r.len() - 1 implies !(#[trigger] r[i] == '-' && r[i + 1] == '-') by {
            if i + 1 < a.len() {
                assert(r[i] == a[i] && r[i + 1] == a[i + 1]);
            } else if i + 1 == a.len() {
                assert(r[i] == a[a.len() - 1]);
            } else if i == a.len() {
                assert(r[i + 1] == b[0]);
            } else {
                assert(r[i] == b[i - a.len() - 1]);
            }
        }
    }
}

/// A slug never starts or ends with `-` and never holds `--`, given that `-` is
/// not alphanumeric (as `char::is_alphanumeric` reports).
pub proof fn law_slug_well_hyphenated(title: Seq<char>)
    requires
        !unicode_alphanumeric('-'),
    ensures
        well_hyphenated(slug(title)),
{
    let lower = unicode_lowercase(title);
    let parts = split_marked(lower, word_separators(lower));
    lemma_words_alphanumeric(lower);
    assert forall|i: int, j: int| 0 <= i < parts.len() && 0 <= j < parts[i].len() implies (#[trigger] parts[i][j]) != '-' by {
        assert(unicode_alphanumeric(parts[i][j]));
    }
    lemma_non_empty_words(parts);
    lemma_join_well_hyphenated(non_empty(parts));
}


/// Every map of the produced document holds each key once: the schemas, and the
/// resources at every depth with their methods and the methods' parameters; no
/// schema has an OpenAPI-only key at any depth, and with distinct keys in the
/// components' JSON every schema's objects have distinct keys too.
pub proof fn law_document_keys_distinct(
    spec: OpenApiSpec,
    name_override: Option<Seq<char>>,
    version_override: Option<Seq<char>>,
)
    ensures
        ({
            let d = transformed(spec, name_override, version_override);
            &&& keys_distinct(keys_of(d.schemas))
            &&& tree_keys_distinct(d.resources)
            &&& forall|i: int| 0 <= i < d.schemas.len() ==> free_of_openapi_keys(#[trigger] d.schemas[i].1)
            &&& components_distinct(spec) ==> forall|i: int|
                0 <= i < d.schemas.len() ==> distinct_throughout(#[trigger] d.schemas[i].1)
        }),
{
    let d = transformed(spec, name_override, version_override);
    law_lifted_schemas_well_formed(spec);
    law_tree_keys_distinct(spec.paths@, spec, spec, d.name);
}


/// An ASCII lowercase letter or digit.
pub open spec fn lower_alnum(c: char) -> bool {
    ascii_alnum(c) && !ascii_upper(c)
}

/// Every character of every word satisfies `lower_alnum`.
pub open spec fn lower_alnum_words(w: Seq<Seq<char>>) -> bool {
    forall|i: int, j: int| 0 <= i < w.len() && 0 <= j < w[i].len() ==> lower_alnum(#[trigger] w[i][j])
}

proof fn lemma_ascii_pieces(s: Seq<char>)
    requires
        forall|k: int| 0 <= k < s.len() ==> !ascii_upper(#[trigger] s[k]),
    ensures
        lower_alnum_words(split_marked(s, ascii_separators(s))),
    decreases s.len(),
{
    if s.len() > 0 {
        let d = s.drop_last();
        assert(ascii_separators(s).drop_last() =~= ascii_separators(d));
        assert forall|k: int| 0 <= k < d.len() implies !ascii_upper(#[trigger] d[k]) by {
            assert(d[k] == s[k]);
        }
        lemma_ascii_pieces(d);
        lemma_split_marked_nonempty(d, ascii_separators(d));
        let prev = split_marked(d, ascii_separators(d));
        let cur = split_marked(s, ascii_separators(s));
        assert(!ascii_upper(s[s.len() - 1]));
        assert forall|i: int, j: int| 0 <= i < cur.len() && 0 <= j < cur[i].len() implies lower_alnum(#[trigger] cur[i][j]) by {
            if !ascii_separators(s).last() && i == prev.len() - 1 {
                assert(cur[i] == prev.last().push(s.last()));
                if j < prev.last().len() {
                    assert(cur[i][j] == prev[prev.len() - 1][j]);
                }
            } else if i < prev.len() {
                assert(cur[i] == prev[i]);
            }
        }
    }
}

proof fn lemma_non_empty_lower(parts: Seq<Seq<char>>)
    requires
        lower_alnum_words(parts),
    ensures
        lower_alnum_words(non_empty(parts)),
        forall|i: int| 0 <= i < non_empty(parts).len() ==> (#[trigger] non_empty(parts)[i]).len() > 0,
    decreases parts.len(),
{
    if parts.len() > 0 {
        let d = parts.drop_last();
        assert forall|i: int, j: int| 0 <= i < d.len() && 0 <= j < d[i].len() implies lower_alnum(#[trigger] d[i][j]) by {
            assert(d[i] == parts[i]);
        }
        lemma_non_empty_lower(d);
        let prev = non_empty(d);
        let cur = non_empty(parts);
        assert forall|i: int| 0 <= i < cur.len() implies (#[trigger] cur[i]).len() > 0 by {
            if i < prev.len() {
                assert(cur[i] == prev[i]);
            }
        }
        assert forall|i: int, j: int| 0 <= i < cur.len() && 0 <= j < cur[i].len() implies lower_alnum(#[trigger] cur[i][j]) by {
            if i < prev.len() {
                assert(cur[i] == prev[i]);
            } else {
                assert(cur[i] == parts[parts.len() - 1]);
            }
        }
    }
}

proof fn lemma_join_charset(w: Seq<Seq<char>>)
    requires
        lower_alnum_words(w),
    ensures
        forall|i: int| 0 <= i < join(w, "-"@).len() ==> #[trigger] join(w, "-"@)[i] == '-' || lower_alnum(join(w, "-"@)[i]),
    decreases w.len(),
{
    reveal_strlit("-");
    if w.len() == 1 {
        assert forall|i: int| 0 <= i < join(w, "-"@).len() implies #[trigger] join(w, "-"@)[i] == '-' || lower_alnum(join(w, "-"@)[i]) by {
            assert(join(w, "-"@)[i] == w[0][i]);
        }
    } else if w.len() > 1 {
        let d = w.drop_last();
        assert forall|i: int, j: int| 0 <= i < d.len() && 0 <= j < d[i].len() implies lower_alnum(#[trigger] d[i][j]) by {
            assert(d[i] == w[i]);
        }
        lemma_join_charset(d);
        let a = join(d, "-"@);
        let b = w.last();
        let r = a + "-"@ + b;
        assert(r == join(w, "-"@));
        assert forall|i: int| 0 <= i < r.len() implies #[trigger] r[i] == '-' || lower_alnum(r[i]) by {
            if i < a.len() {
                assert(r[i] == a[i]);
            } else if i > a.len() {
                assert(r[i] == w[w.len() - 1][i - a.len() - 1]);
            }
        }
    }
}

/// The ASCII slug of a title holds only lowercase letters, digits and `-`.
pub proof fn law_ascii_slug_charset(title: Seq<char>)
    ensures
        forall|i: int| 0 <= i < ascii_slug(title).len() ==> ({
            let c = #[trigger] ascii_slug(title)[i];
            ('a' <= c && c <= 'z') || ('0' <= c && c <= '9') || c == '-'
        }),
{
    let lower = ascii_lowercase(title);
    assert forall|k: int| 0 <= k < lower.len() implies !ascii_upper(#[trigger] lower[k]) by {
        lemma_ascii_lower_char(title[k]);
    }
    lemma_ascii_pieces(lower);
    let parts = split_marked(lower, ascii_separators(lower));
    lemma_non_empty_lower(parts);
    lemma_join_charset(non_empty(parts));
}


proof fn lemma_split_unmarked(x: Seq<char>)
    requires
        forall|k: int| 0 <= k < x.len() ==> ascii_alnum(#[trigger] x[k]),
    ensures
        split_marked(x, ascii_separators(x)) == seq![x],
    decreases x.len(),
{
    if x.len() == 0 {
        assert(x =~= Seq::<char>::empty());
    } else {
        let d = x.drop_last();
        assert(ascii_separators(x).drop_last() =~= ascii_separators(d));
        assert forall|k: int| 0 <= k < d.len() implies ascii_alnum(#[trigger] d[k]) by {
            assert(d[k] == x[k]);
        }
        lemma_split_unmarked(d);
        assert(ascii_alnum(x[x.len() - 1]));
        assert(d.push(x.last()) =~= x);
        assert(seq![d].update(0, d.push(x.last())) =~= seq![x]);
    }
}

proof fn lemma_split_after_dash(a: Seq<char>, b: Seq<char>)
    requires
        forall|k: int| 0 <= k < b.len() ==> ascii_alnum(#[trigger] b[k]),
    ensures
        split_marked(a + seq!['-'] + b, ascii_separators(a + seq!['-'] + b))
            == split_marked(a, ascii_separators(a)).push(b),
    decreases b.len(),
{
    let x = a + seq!['-'] + b;
    if b.len() == 0 {
        assert(x.drop_last() =~= a);
        assert(ascii_separators(x).drop_last() =~= ascii_separators(a));
        assert(!ascii_alnum('-'));
        assert(ascii_separators(x).last());
        assert(b =~= Seq::<char>::empty());
    } else {
        let d = b.drop_last();
        assert(x.drop_last() =~= a + seq!['-'] + d);
        assert(ascii_separators(x).drop_last() =~= ascii_separators(a + seq!['-'] + d));
        assert forall|k: int| 0 <= k < d.len() implies ascii_alnum(#[trigger] d[k]) by {
            assert(d[k] == b[k]);
        }
        lemma_split_after_dash(a, d);
        assert(x.last() == b.last());
        assert(ascii_alnum(b[b.len() - 1]));
        let p = split_marked(a, ascii_separators(a));
        assert(d.push(b.last()) =~= b);
        assert(p.push(d).update(p.len() as int, d.push(b.last())) =~= p.push(b));
    }
}

proof fn lemma_split_join(w: Seq<Seq<char>>)
    requires
        w.len() >= 1,
        lower_alnum_words(w),
    ensures
        split_marked(join(w, "-"@), ascii_separators(join(w, "-"@))) == w,
    decreases w.len(),
{
    reveal_strlit("-");
    if w.len() == 1 {
        assert forall|k: int| 0 <= k < w[0].len() implies ascii_alnum(#[trigger] w[0][k]) by {
            assert(lower_alnum(w[0][k]));
        }
        lemma_split_unmarked(w[0]);
        assert(seq![w[0]] =~= w);
    } else {
        let d = w.drop_last();
        assert forall|i: int, j: int| 0 <= i < d.len() && 0 <= j < d[i].len() implies lower_alnum(#[trigger] d[i][j]) by {
            assert(d[i] == w[i]);
        }
        lemma_split_join(d);
        let b = w.last();
        assert forall|k: int| 0 <= k < b.len() implies ascii_alnum(#[trigger] b[k]) by {
            assert(lower_alnum(w[w.len() - 1][k]));
        }
        assert("-"@ =~= seq!['-']);
        lemma_split_after_dash(join(d, "-"@), b);
        assert(d.push(b) =~= w);
    }
}

proof fn lemma_non_empty_all(w: Seq<Seq<char>>)
    requires
        forall|i: int| 0 <= i < w.len() ==> (#[trigger] w[i]).len() > 0,
    ensures
        non_empty(w) == w,
    decreases w.len(),
{
    if w.len() > 0 {
        assert forall|i: int| 0 <= i < w.drop_last().len() implies (#[trigger] w.drop_last()[i]).len() > 0 by {
            assert(w.drop_last()[i] == w[i]);
        }
        lemma_non_empty_all(w.drop_last());
        assert(w[w.len() - 1].len() > 0);
        assert(w.drop_last().push(w.last()) =~= w);
    }
}

/// Slugifying an ASCII slug gives it back.
pub proof fn law_ascii_slug_idempotent(title: Seq<char>)
    ensures
        ascii_slug(ascii_slug(title)) == ascii_slug(title),
{
    let lower = ascii_lowercase(title);
    assert forall|k: int| 0 <= k < lower.len() implies !ascii_upper(#[trigger] lower[k]) by {
        lemma_ascii_lower_char(title[k]);
    }
    lemma_ascii_pieces(lower);
    let parts = split_marked(lower, ascii_separators(lower));
    lemma_non_empty_lower(parts);
    let w = non_empty(parts);
    let r = ascii_slug(title);
    assert(r == join(w, "-"@));
    lemma_join_charset(w);
    assert(ascii_lowercase(r) =~= r) by {
        assert forall|i: int| 0 <= i < r.len() implies #[trigger] ascii_lowercase(r)[i] == r[i] by {
            lemma_ascii_lower_char(r[i]);
        }
    }
    if w.len() == 0 {
        assert(r =~= Seq::<char>::empty());
        assert(split_marked(r, ascii_separators(r)) == seq![Seq::<char>::empty()]);
        assert(non_empty(seq![Seq::<char>::empty()]).len() == 0) by {
            let one = seq![Seq::<char>::empty()];
            assert(one.drop_last() =~= Seq::<Seq<char>>::empty());
            assert(one.last().len() == 0);
            assert(non_empty(Seq::<Seq<char>>::empty()) == Seq::<Seq<char>>::empty());
        }
    } else {
        lemma_split_join(w);
        lemma_non_empty_all(w);
    }
}


/// The document's root URL is the URL of the first server, and empty when there
/// is none; servers after the first do not change it.
pub proof fn law_root_url_is_first_server(
    spec: OpenApiSpec,
    other: OpenApiSpec,
    name_override: Option<Seq<char>>,
    version_override: Option<Seq<char>>,
)
    ensures
        transformed(spec, name_override, version_override).root_url == if spec.servers@.len() > 0 {
            spec.servers@[0].url@
        } else {
            Seq::<char>::empty()
        },
        spec.servers@.len() > 0 && other.servers@.len() > 0 && other.servers@[0] == spec.servers@[0]
            ==> transformed(other, name_override, version_override).root_url
            == transformed(spec, name_override, version_override).root_url,
{
}


/// The fixed fields of a document, and those taken from the description: the
/// name is the override or else the slugified title, the version the override or
/// else the description's version, the id joins them with `:`, and the title and
/// description are the description's own.
pub proof fn law_document_fields(
    spec: OpenApiSpec,
    name_override: Option<Seq<char>>,
    version_override: Option<Seq<char>>,
)
    ensures
        ({
            let d = transformed(spec, name_override, version_override);
            let name = if name_override is Some { name_override->0 } else { slug(spec.info.title@) };
            let version = if version_override is Some { version_override->0 } else { spec.info.version@ };
            &&& d.kind == "discovery#restDescription"@
            &&& d.discovery_version == "v1"@
            &&& d.protocol == "rest"@
            &&& d.service_path == Seq::<char>::empty()
            &&& d.name == name
            &&& d.version == version
            &&& d.id == name + ":"@ + version
            &&& d.title == spec.info.title@
            &&& d.description == match spec.info.description {
                Some(t) => Some(t@),
                None => None,
            }
        }),
{
}

} // verus!
