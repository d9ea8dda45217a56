//! Showing what is known of packages.
use vstd::prelude::*;
use vstd::seq_lib::{lemma_seq_concat_contains_all_elements, lemma_seq_contains_after_push};

use crate::collections::pair_texts;
use crate::commands::search::{format_tags, marked_tags};
use crate::commands::update::is_pinned;
use crate::number::{decimal, to_decimal};
use crate::pattern::has_prefix;
use crate::repo::{packages_for_tag, tagged, BuildSource, PackageMeta, RepoIndex};
use crate::state::{wrapper_key, State, WrapperNames};
use crate::text::{byte_len, can_shorten, cat, cat3, is_empty_text, join_strings, join_with, joining_adds, longer_than, push_text, same, shorten, shortened, split_words, strs, words};

verus! {

// ---------------------------------------------------------------------------
// Text
// ---------------------------------------------------------------------------

/// The lines that words make, none longer than a width unless a single word is.
/// `line` is the line that is begun.
pub open spec fn filled(w: Seq<Seq<char>>, line: Seq<char>, width: int) -> Seq<Seq<char>>
    decreases w.len(),
{
    if w.len() == 0 {
        if line.len() == 0 {
            Seq::empty()
        } else {
            seq![line]
        }
    } else if line.len() == 0 {
        filled(w.drop_first(), w[0], width)
    } else if byte_len(line) + 1 + byte_len(w[0]) <= width {
        filled(w.drop_first(), line + " "@ + w[0], width)
    } else {
        seq![line] + filled(w.drop_first(), w[0], width)
    }
}

/// The lines of a text, at least one.
pub open spec fn wrapped(text: Seq<char>, width: int) -> Seq<Seq<char>> {
    let l = filled(words(text), Seq::empty(), width);
    if l.len() == 0 {
        seq![Seq::empty()]
    } else {
        l
    }
}

proof fn byte_len_of_joined(a: Seq<char>, b: Seq<char>)
    ensures
        byte_len(a + b) == byte_len(a) + byte_len(b),
    decreases a.len(),
{
    if a.len() == 0 {
        assert(a + b =~= b);
    } else {
        assert((a + b).drop_first() =~= a.drop_first() + b);
        byte_len_of_joined(a.drop_first(), b);
    }
}

/// Breaks a text into lines that are no longer than a width in bytes, unless a
/// single word is.
pub fn wrap_text(text: &str, width: usize) -> (r: Vec<String>)
    ensures
        strs(r@) == wrapped(text@, width as int),
{
    let w = split_words(text);
    let ghost all = strs(w@);
    let mut out: Vec<String> = Vec::new();
    let mut line = String::new();
    let mut i: usize = 0;
    assert(line@ =~= Seq::<char>::empty());
    assert(all.skip(0) =~= all);
    assert(strs(out@) + filled(all, line@, width as int) =~= filled(all, Seq::empty(), width as int));
    while i < w.len()
        invariant
            i <= w@.len(),
            all == strs(w@),
            filled(all, Seq::empty(), width as int) == strs(out@) + filled(
                all.skip(i as int),
                line@,
                width as int,
            ),
        decreases w@.len() - i,
    {
        let ghost left = all.skip(i as int);
        proof {
            assert(left[0] == w@[i as int]@);
            assert(left.drop_first() =~= all.skip(i + 1));
        }
        if is_empty_text(line.as_str()) {
            line = w[i].clone();
        } else {
            let longer = cat3(line.as_str(), " ", w[i].as_str());
            proof {
                reveal_strlit(" ");
                byte_len_of_joined(line@ + " "@, w@[i as int]@);
                byte_len_of_joined(line@, " "@);
                reveal_with_fuel(byte_len, 2);
                assert(byte_len(" "@) == 1);
            }
            if !longer_than(longer.as_str(), width) {
                line = longer;
            } else {
                let ghost rest = filled(all.skip(i + 1), w@[i as int]@, width as int);
                let ghost before = strs(out@);
                push_text(&mut out, line);
                assert(before + (seq![line@] + rest) =~= strs(out@) + rest);
                line = w[i].clone();
            }
        }
        i = i + 1;
    }
    assert(all.skip(i as int) =~= Seq::<Seq<char>>::empty());
    if !is_empty_text(line.as_str()) {
        push_text(&mut out, line);
    }
    assert(strs(out@) =~= filled(all, Seq::empty(), width as int));
    assert(strs(out@).len() == out@.len());
    if out.len() == 0 {
        let e = String::new();
        assert(e@ =~= Seq::<char>::empty());
        out.push(e);
        assert(strs(out@) =~= seq![Seq::<char>::empty()]);
    }
    out
}

// ---------------------------------------------------------------------------
// A package
// ---------------------------------------------------------------------------

/// How the files of a package are obtained, as text.
pub open spec fn source_text(source: BuildSource) -> Seq<char> {
    match source {
        BuildSource::Download { url, .. } => "download ("@ + shortened(url@, 50, 49, "…"@) + ")"@,
        BuildSource::Build { .. } => "build from source"@,
        BuildSource::Prebuilt => "prebuilt (contents/)"@,
    }
}

/// How the files of a package are obtained, as text.
pub fn build_type_text(source: &BuildSource) -> (r: String)
    requires
        source matches BuildSource::Download { url, .. } ==> can_shorten(url@, 50, 49),
    ensures
        r@ == source_text(*source),
        source matches BuildSource::Download { url, .. } ==> r@ == "download ("@ + shortened(url@, 50, 49, "…"@)
            + ")"@,
        source is Build ==> r@ == "build from source"@,
        source is Prebuilt ==> r@ == "prebuilt (contents/)"@,
{
    match source {
        BuildSource::Download { url, .. } => {
            let s = shorten(url.as_str(), 50, 49, "…");
            cat3("download (", s.as_str(), ")")
        },
        BuildSource::Build { .. } => "build from source".to_owned(),
        BuildSource::Prebuilt => "prebuilt (contents/)".to_owned(),
    }
}

/// The programs whose wrappers have other names, as text.
pub open spec fn renamed(names: Map<Seq<char>, Seq<char>>, package: Seq<char>, bins: Seq<Seq<char>>) -> Seq<Seq<char>>
    decreases bins.len(),
{
    if bins.len() == 0 {
        Seq::empty()
    } else {
        let rest = renamed(names, package, bins.drop_last());
        let bin = bins.last();
        let key = wrapper_key(package, bin);
        if names.dom().contains(key) && names[key] != bin {
            rest + seq![bin + " → /usr/bin/"@ + names[key]]
        } else {
            rest
        }
    }
}

/// The programs of a package whose wrappers have other names.
pub fn renamed_wrappers(names: &WrapperNames, package: &str, bins: &Vec<String>) -> (r: Vec<String>)
    requires
        names.wf(),
    ensures
        strs(r@) == renamed(names@, package@, strs(bins@)),
{
    let mut out: Vec<String> = Vec::new();
    let ghost all = strs(bins@);
    let mut i: usize = 0;
    assert(all.take(0) =~= Seq::<Seq<char>>::empty());
    assert(strs(out@) =~= Seq::<Seq<char>>::empty());
    while i < bins.len()
        invariant
            i <= bins@.len(),
            all == strs(bins@),
            names.wf(),
            strs(out@) == renamed(names@, package@, all.take(i as int)),
        decreases bins@.len() - i,
    {
        proof {
            let longer = all.take(i + 1);
            assert(longer.drop_last() =~= all.take(i as int));
            assert(longer.last() == bins@[i as int]@);
        }
        match names.get(package, bins[i].as_str()) {
            Some(n) => {
                if !same(n.as_str(), bins[i].as_str()) {
                    push_text(&mut out, cat3(bins[i].as_str(), " → /usr/bin/", n.as_str()));
                }
            },
            None => {},
        }
        i = i + 1;
    }
    assert(all.take(all.len() as int) =~= all);
    out
}

/// The first four of the packages that are not the one that is shown.
pub open spec fn others(packages: Seq<Seq<char>>, package: Seq<char>) -> Seq<Seq<char>>
    decreases packages.len(),
{
    if packages.len() == 0 {
        Seq::empty()
    } else {
        let rest = others(packages.drop_last(), package);
        if packages.last() == package || rest.len() >= 4 {
            rest
        } else {
            rest + seq![packages.last()]
        }
    }
}

/// The first four of the packages of a tag that are not the one that is shown.
pub fn related_packages(packages: &Vec<String>, package: &str) -> (r: Vec<String>)
    ensures
        strs(r@) == others(strs(packages@), package@),
{
    let mut out: Vec<String> = Vec::new();
    let ghost all = strs(packages@);
    let mut i: usize = 0;
    assert(all.take(0) =~= Seq::<Seq<char>>::empty());
    assert(strs(out@) =~= Seq::<Seq<char>>::empty());
    while i < packages.len()
        invariant
            i <= packages@.len(),
            all == strs(packages@),
            strs(out@) == others(all.take(i as int), package@),
        decreases packages@.len() - i,
    {
        proof {
            let longer = all.take(i + 1);
            assert(longer.drop_last() =~= all.take(i as int));
            assert(longer.last() == packages@[i as int]@);
            assert(strs(out@).len() == out@.len());
        }
        if !same(packages[i].as_str(), package) && out.len() < 4 {
            push_text(&mut out, packages[i].clone());
        }
        i = i + 1;
    }
    assert(all.take(all.len() as int) =~= all);
    out
}

/// Whether the version of a package that is in use is to stay.
pub fn current_is_pinned(state: &State, package: &str, current: &Option<String>) -> (r: bool)
    requires
        state.wf(),
    ensures
        r == (match current {
            Some(v) => is_pinned(state.packages@, package@, v@),
            None => false,
        }),
{
    match current {
        Some(v) => match state.packages.get(package, v.as_str()) {
            Some(info) => info.pinned,
            None => false,
        },
        None => false,
    }
}

// ---------------------------------------------------------------------------
// Everything of a package
// ---------------------------------------------------------------------------

/// What is shown of a package.
#[derive(Debug)]
pub struct InfoReport {
    /// Rows, each with a heading.
    pub rows: Vec<(String, String)>,
    /// The description, in lines.
    pub description: Vec<String>,
    /// The version that is installed.
    pub installed: String,
    /// The wrappers that have other names.
    pub wrappers: Option<String>,
    /// The versions that there are.
    pub versions: Vec<String>,
    /// The packages that carry the same tags, tag by tag.
    pub related: Vec<String>,
    /// How to install it.
    pub hint: Option<String>,
}

/// The rows that are shown of a package.
pub open spec fn info_rows(meta: PackageMeta, url: Seq<char>, source: Option<BuildSource>) -> Seq<(Seq<char>, Seq<char>)> {
    seq![
        ("Version:"@, meta.version@),
        ("Author:"@, meta.authors@),
        ("License:"@, meta.license@),
        ("Repository:"@, url),
    ] + (if meta.tags@.len() > 0 {
        seq![("Tags:"@, join_with(marked_tags(strs(meta.tags@)), "  "@))]
    } else {
        Seq::empty()
    }) + (match source {
        Some(s) => seq![("Build type:"@, source_text(s))],
        None => Seq::empty(),
    })
}

/// The version that is installed, as text.
pub open spec fn installed_text(current: Option<Seq<char>>, pinned: bool) -> Seq<char> {
    match current {
        Some(v) => if pinned {
            v + " (pinned)"@
        } else {
            v
        },
        None => "No"@,
    }
}

/// The versions that there are, the one in use marked.
pub open spec fn version_lines(versions: Seq<Seq<char>>, current: Option<Seq<char>>) -> Seq<Seq<char>> {
    versions.map_values(
        |v: Seq<char>|
            if current == Some(v) {
                "• "@ + v + " ← current"@
            } else {
                "• "@ + v
            },
    )
}

/// The packages that carry the same tags, tag by tag.
pub open spec fn related_lines(
    index: RepoIndex,
    cached: Seq<(String, PackageMeta)>,
    tags: Seq<Seq<char>>,
    package: Seq<char>,
) -> Seq<Seq<char>>
    decreases tags.len(),
{
    if tags.len() == 0 {
        Seq::empty()
    } else {
        let rest = related_lines(index, cached, tags.drop_last(), package);
        let list = others(tagged(index, cached, tags.last()), package);
        if list.len() > 0 {
            rest + seq!["@"@ + tags.last() + ": "@ + join_with(list, ", "@)]
        } else {
            rest
        }
    }
}

fn push_row(out: &mut Vec<(String, String)>, heading: &str, text: String)
    ensures
        pair_texts(final(out)@) == pair_texts(old(out)@) + seq![(heading@, text@)],
{
    let ghost before = out@;
    let row = (heading.to_owned(), text);
    out.push(row);
    assert(pair_texts(out@) =~= pair_texts(before) + seq![(heading@, text@)]);
}

fn make_rows(meta: &PackageMeta, url: &str, source: &Option<BuildSource>) -> (r: Vec<(String, String)>)
    requires
        source matches Some(BuildSource::Download { url: u, .. }) ==> can_shorten(u@, 50, 49),
    ensures
        pair_texts(r@) == info_rows(*meta, url@, *source),
{
    let mut rows: Vec<(String, String)> = Vec::new();
    push_row(&mut rows, "Version:", meta.version.clone());
    push_row(&mut rows, "Author:", meta.authors.clone());
    push_row(&mut rows, "License:", meta.license.clone());
    push_row(&mut rows, "Repository:", url.to_owned());
    if meta.tags.len() > 0 {
        push_row(&mut rows, "Tags:", format_tags(&meta.tags, "  "));
    }
    match source {
        Some(s) => {
            push_row(&mut rows, "Build type:", build_type_text(s));
        },
        None => {},
    }
    assert(pair_texts(rows@) =~= info_rows(*meta, url@, *source));
    rows
}

/// The version in use, as a mathematical value.
pub open spec fn version_in_use(current: Option<String>) -> Option<Seq<char>> {
    match current {
        Some(v) => Some(v@),
        None => None,
    }
}

fn make_version_lines(versions: &Vec<String>, current: &Option<String>) -> (r: Vec<String>)
    ensures
        strs(r@) == version_lines(strs(versions@), version_in_use(*current)),
{
    let mut out: Vec<String> = Vec::new();
    let ghost all = version_lines(strs(versions@), version_in_use(*current));
    let mut i: usize = 0;
    assert(strs(out@) =~= all.take(0));
    while i < versions.len()
        invariant
            i <= versions@.len(),
            all == version_lines(strs(versions@), version_in_use(*current)),
            strs(out@) == all.take(i as int),
        decreases versions@.len() - i,
    {
        let in_use = match current {
            Some(c) => same(c.as_str(), versions[i].as_str()),
            None => false,
        };
        let line = if in_use {
            cat3("• ", versions[i].as_str(), " ← current")
        } else {
            cat("• ", versions[i].as_str())
        };
        assert(strs(versions@)[i as int] == versions@[i as int]@);
        assert(all[i as int] == line@);
        assert(all.take(i + 1) =~= all.take(i as int) + seq![line@]);
        push_text(&mut out, line);
        i = i + 1;
    }
    assert(all.take(all.len() as int) =~= all);
    out
}

fn make_related_lines(
    index: &RepoIndex,
    cached: &Vec<(String, PackageMeta)>,
    tags: &Vec<String>,
    package: &str,
) -> (r: Vec<String>)
    requires
        index.wf(),
    ensures
        strs(r@) == related_lines(*index, cached@, strs(tags@), package@),
{
    let mut out: Vec<String> = Vec::new();
    let ghost all = strs(tags@);
    let mut i: usize = 0;
    assert(all.take(0) =~= Seq::<Seq<char>>::empty());
    assert(strs(out@) =~= Seq::<Seq<char>>::empty());
    while i < tags.len()
        invariant
            i <= tags@.len(),
            index.wf(),
            all == strs(tags@),
            strs(out@) == related_lines(*index, cached@, all.take(i as int), package@),
        decreases tags@.len() - i,
    {
        proof {
            let longer = all.take(i + 1);
            assert(longer.drop_last() =~= all.take(i as int));
            assert(longer.last() == tags@[i as int]@);
        }
        let packages = packages_for_tag(index, cached, tags[i].as_str());
        let list = related_packages(&packages, package);
        assert(strs(list@).len() == list@.len());
        if list.len() > 0 {
            let text = join_strings(&list, ", ");
            let mut line = cat3("@", tags[i].as_str(), ": ");
            line.append(text.as_str());
            push_text(&mut out, line);
        }
        i = i + 1;
    }
    assert(all.take(all.len() as int) =~= all);
    out
}

/// The wrappers of the installed version that have other names, as text.
pub open spec fn wrappers_text(
    names: Map<Seq<char>, Seq<char>>,
    package: Seq<char>,
    bins: Option<Seq<Seq<char>>>,
) -> Option<Seq<char>> {
    match bins {
        Some(b) => if renamed(names, package, b).len() > 0 {
            Some(join_with(renamed(names, package, b), ", "@))
        } else {
            None
        },
        None => None,
    }
}

/// Gathers what is shown of a package. `bins` are the programs of the version
/// in use, where its manifest can be read; `versions` are those of its tags.
pub fn info_report(
    package: &str,
    url: &str,
    meta: &PackageMeta,
    source: &Option<BuildSource>,
    versions: &Vec<String>,
    state: &State,
    current: &Option<String>,
    names: &WrapperNames,
    bins: &Option<Vec<String>>,
    index: &RepoIndex,
    cached: &Vec<(String, PackageMeta)>,
) -> (r: InfoReport)
    requires
        state.wf(),
        names.wf(),
        index.wf(),
        source matches Some(BuildSource::Download { url: u, .. }) ==> can_shorten(u@, 50, 49),
    ensures
        pair_texts(r.rows@) == info_rows(*meta, url@, *source),
        strs(r.description@) == wrapped(meta.summary@, 65),
        r.installed@ == installed_text(
            version_in_use(*current),
            match current {
                Some(v) => is_pinned(state.packages@, package@, v@),
                None => false,
            },
        ),
        ({
            let w = wrappers_text(
                names@,
                package@,
                match bins {
                    Some(b) => Some(strs(b@)),
                    None => None,
                },
            );
            match r.wrappers {
                Some(t) => current is Some && w == Some(t@),
                None => current is None || w is None,
            }
        }),
        strs(r.versions@) == version_lines(strs(versions@), version_in_use(*current)),
        strs(r.related@) == related_lines(*index, cached@, strs(meta.tags@), package@),
        match r.hint {
            Some(h) => current is None && h@ == "hpm install "@ + package@,
            None => current is Some,
        },
{
    let pinned = current_is_pinned(state, package, current);
    let installed = match current {
        Some(v) => if pinned {
            cat(v.as_str(), " (pinned)")
        } else {
            v.clone()
        },
        None => "No".to_owned(),
    };
    let mut wrappers: Option<String> = None;
    let mut hint: Option<String> = None;
    match current {
        Some(_) => match bins {
            Some(b) => {
                let list = renamed_wrappers(names, package, b);
                assert(strs(list@).len() == list@.len());
                if list.len() > 0 {
                    wrappers = Some(join_strings(&list, ", "));
                }
            },
            None => {},
        },
        None => {
            hint = Some(cat("hpm install ", package));
        },
    }
    InfoReport {
        rows: make_rows(meta, url, source),
        description: wrap_text(meta.summary.as_str(), 65),
        installed,
        wrappers,
        versions: make_version_lines(versions, current),
        related: make_related_lines(index, cached, &meta.tags, package),
        hint,
    }
}

/// The text for how many packages could not be reached; `None` where all could.
pub fn unreached_note(total: usize, reached: usize) -> (r: Option<String>)
    ensures
        match r {
            Some(t) => reached < total && t@ == decimal((total - reached) as nat)
                + " package(s) could not be reached (network error or no info.hk)"@,
            None => reached >= total,
        },
{
    if reached >= total {
        return None;
    }
    let n = to_decimal((total - reached) as u64);
    Some(cat(n.as_str(), " package(s) could not be reached (network error or no info.hk)"))
}

// ---------------------------------------------------------------------------
// Laws
// ---------------------------------------------------------------------------

proof fn filled_fits(w: Seq<Seq<char>>, line: Seq<char>, width: int, k: int)
    requires
        byte_len(line) <= width || line.len() == 0,
        forall|i: int| 0 <= i < w.len() ==> byte_len(#[trigger] w[i]) <= width,
        0 <= k < filled(w, line, width).len(),
    ensures
        byte_len(filled(w, line, width)[k]) <= width,
    decreases w.len(),
{
    if w.len() > 0 {
        let rest = w.drop_first();
        assert(byte_len(w[0]) <= width);
        assert forall|i: int| 0 <= i < rest.len() implies byte_len(#[trigger] rest[i]) <= width by {
            assert(rest[i] == w[i + 1]);
        }
        if line.len() == 0 {
            filled_fits(rest, w[0], width, k);
        } else if byte_len(line) + 1 + byte_len(w[0]) <= width {
            reveal_strlit(" ");
            byte_len_of_joined(line + " "@, w[0]);
            byte_len_of_joined(line, " "@);
            reveal_with_fuel(byte_len, 2);
            assert(byte_len(" "@) == 1);
            filled_fits(rest, line + " "@ + w[0], width, k);
        } else if k > 0 {
            filled_fits(rest, w[0], width, k - 1);
        }
    }
}

/// No line is longer than the width if no word is.
pub proof fn wrapped_lines_fit(text: Seq<char>, width: int, k: int)
    requires
        width >= 0,
        forall|i: int| 0 <= i < words(text).len() ==> byte_len(#[trigger] words(text)[i]) <= width,
        0 <= k < wrapped(text, width).len(),
    ensures
        byte_len(wrapped(text, width)[k]) <= width,
{
    if filled(words(text), Seq::empty(), width).len() > 0 {
        filled_fits(words(text), Seq::empty(), width, k);
    }
}

/// Breaking a text into lines keeps its words: put together again with spaces between
/// them, the lines are the words with spaces between them.
pub proof fn wrapping_keeps_the_words(text: Seq<char>, width: int)
    requires
        forall|i: int| 0 <= i < words(text).len() ==> (#[trigger] words(text)[i]).len() > 0,
    ensures
        join_with(wrapped(text, width), " "@) == join_with(words(text), " "@),
{
    let w = words(text);
    if w.len() == 0 {
        assert(filled(w, Seq::empty(), width).len() == 0);
        joining_adds(Seq::empty(), Seq::empty(), " "@);
        assert(w =~= Seq::<Seq<char>>::empty());
    } else {
        let rest = w.drop_first();
        assert(filled(w, Seq::empty(), width) == filled(rest, w[0], width));
        assert forall|i: int| 0 <= i < rest.len() implies (#[trigger] rest[i]).len() > 0 by {
            assert(rest[i] == w[i + 1]);
        }
        filled_keeps(rest, w[0], width);
        assert(seq![w[0]] + rest =~= w);
    }
}

proof fn filled_keeps(w: Seq<Seq<char>>, line: Seq<char>, width: int)
    requires
        line.len() > 0,
        forall|i: int| 0 <= i < w.len() ==> (#[trigger] w[i]).len() > 0,
    ensures
        filled(w, line, width).len() > 0,
        join_with(filled(w, line, width), " "@) == join_with(seq![line] + w, " "@),
    decreases w.len(),
{
    if w.len() == 0 {
        assert(seq![line] + w =~= seq![line]);
    } else {
        let rest = w.drop_first();
        assert forall|i: int| 0 <= i < rest.len() implies (#[trigger] rest[i]).len() > 0 by {
            assert(rest[i] == w[i + 1]);
        }
        assert(w =~= seq![w[0]] + rest);
        joined_first(line, w, " "@);
        if byte_len(line) + 1 + byte_len(w[0]) <= width {
            let longer = line + " "@ + w[0];
            filled_keeps(rest, longer, width);
            if rest.len() == 0 {
                assert(seq![longer] + rest =~= seq![longer]);
                assert(w =~= seq![w[0]]);
            } else {
                joined_first(longer, rest, " "@);
                joined_first(w[0], rest, " "@);
                assert(longer + " "@ + join_with(rest, " "@) =~= line + " "@ + (w[0] + " "@ + join_with(rest, " "@)));
            }
        } else {
            filled_keeps(rest, w[0], width);
            joined_first(line, filled(rest, w[0], width), " "@);
        }
    }
}

proof fn joined_first(x: Seq<char>, s: Seq<Seq<char>>, sep: Seq<char>)
    requires
        s.len() > 0,
    ensures
        join_with(seq![x] + s, sep) == x + sep + join_with(s, sep),
    decreases s.len(),
{
    let all = seq![x] + s;
    if s.len() == 1 {
        assert(all.drop_last() =~= seq![x]);
        assert(all.last() == s[0]);
        assert(join_with(seq![x], sep) == x);
        assert(join_with(s, sep) == s[0]);
        assert(join_with(all, sep) == join_with(all.drop_last(), sep) + sep + all.last());
    } else {
        joined_first(x, s.drop_last(), sep);
        assert(all.drop_last() =~= seq![x] + s.drop_last());
        assert(all.last() == s.last());
        assert(join_with(all, sep) =~= x + sep + join_with(s, sep));
    }
}

/// A line is broken only where the next word does not fit into it.
pub proof fn lines_are_filled(text: Seq<char>, width: int, k: int)
    requires
        forall|i: int| 0 <= i < words(text).len() ==> (#[trigger] words(text)[i]).len() > 0,
        0 <= k,
        k + 1 < wrapped(text, width).len(),
    ensures
        exists|j: int|
            0 <= j < words(text).len() && has_prefix(wrapped(text, width)[k + 1], #[trigger] words(text)[j])
                && byte_len(wrapped(text, width)[k]) + 1 + byte_len(words(text)[j]) > width,
{
    let w = words(text);
    if w.len() > 0 {
        let rest = w.drop_first();
        assert forall|i: int| 0 <= i < rest.len() implies (#[trigger] rest[i]).len() > 0 by {
            assert(rest[i] == w[i + 1]);
        }
        assert(filled(w, Seq::empty(), width) == filled(rest, w[0], width));
        filled_breaks(rest, w[0], width, k);
        let l = filled(rest, w[0], width);
        let j = choose|j: int|
            0 <= j < rest.len() && has_prefix(l[k + 1], #[trigger] rest[j]) && byte_len(l[k]) + 1 + byte_len(
                rest[j],
            ) > width;
        assert(w[j + 1] == rest[j]);
    }
}

proof fn filled_breaks(w: Seq<Seq<char>>, line: Seq<char>, width: int, k: int)
    requires
        line.len() > 0,
        forall|i: int| 0 <= i < w.len() ==> (#[trigger] w[i]).len() > 0,
        0 <= k,
        k + 1 < filled(w, line, width).len(),
    ensures
        exists|j: int|
            0 <= j < w.len() && has_prefix(filled(w, line, width)[k + 1], #[trigger] w[j]) && byte_len(
                filled(w, line, width)[k],
            ) + 1 + byte_len(w[j]) > width,
    decreases w.len(),
{
    if w.len() > 0 {
        let rest = w.drop_first();
        assert forall|i: int| 0 <= i < rest.len() implies (#[trigger] rest[i]).len() > 0 by {
            assert(rest[i] == w[i + 1]);
        }
        let all = filled(w, line, width);
        if byte_len(line) + 1 + byte_len(w[0]) <= width {
            filled_breaks(rest, line + " "@ + w[0], width, k);
            let j = choose|j: int|
                0 <= j < rest.len() && has_prefix(all[k + 1], #[trigger] rest[j]) && byte_len(all[k]) + 1 + byte_len(
                    rest[j],
                ) > width;
            assert(w[j + 1] == rest[j]);
        } else {
            let l = filled(rest, w[0], width);
            assert(all == seq![line] + l);
            if k == 0 {
                filled_begins(rest, w[0], width);
                assert(all[1] == l[0] && all[0] == line);
                assert(has_prefix(all[1], w[0]));
            } else {
                filled_breaks(rest, w[0], width, k - 1);
                let j = choose|j: int|
                    0 <= j < rest.len() && has_prefix(l[k - 1 + 1], #[trigger] rest[j]) && byte_len(l[k - 1]) + 1
                        + byte_len(rest[j]) > width;
                assert(all[k] == l[k - 1] && all[k + 1] == l[k]);
                assert(w[j + 1] == rest[j]);
            }
        }
    }
}

proof fn filled_begins(w: Seq<Seq<char>>, line: Seq<char>, width: int)
    requires
        line.len() > 0,
    ensures
        filled(w, line, width).len() > 0,
        has_prefix(filled(w, line, width)[0], line),
    decreases w.len(),
{
    if w.len() == 0 {
        assert(line.take(line.len() as int) =~= line);
    } else if byte_len(line) + 1 + byte_len(w[0]) <= width {
        let longer = line + " "@ + w[0];
        filled_begins(w.drop_first(), longer, width);
        let first = filled(w, line, width)[0];
        assert(first.take(longer.len() as int) == longer);
        assert(first.take(line.len() as int) =~= longer.take(line.len() as int));
        assert(longer.take(line.len() as int) =~= line);
    } else {
        assert(line.take(line.len() as int) =~= line);
    }
}

/// The wrappers that are shown with other names are those for which another name than the
/// program's own was chosen.
pub proof fn other_names_are_shown(names: Map<Seq<char>, Seq<char>>, package: Seq<char>, bins: Seq<Seq<char>>, t: Seq<char>)
    ensures
        renamed(names, package, bins).contains(t) <==> exists|i: int|
            0 <= i < bins.len() && names.dom().contains(package + ":"@ + #[trigger] bins[i]) && names[package + ":"@
                + bins[i]] != bins[i] && t == bins[i] + " → /usr/bin/"@ + names[package + ":"@ + bins[i]],
    decreases bins.len(),
{
    if bins.len() > 0 {
        let u = bins.drop_last();
        let bin = bins[bins.len() - 1];
        other_names_are_shown(names, package, u, t);
        let key = wrapper_key(package, bin);
        assert(key == package + ":"@ + bin);
        let x = bin + " → /usr/bin/"@ + names[key];
        lemma_seq_concat_contains_all_elements(renamed(names, package, u), seq![x], t);
        assert(seq![x][0] == x);
        assert(forall|i: int| 0 <= i < u.len() ==> u[i] == #[trigger] bins[i]);
        assert forall|i: int| 0 <= i < u.len() implies #[trigger] u[i] == bins[i] by {}
    }
}

/// At most four other packages are shown for a tag, never the package itself, and all of
/// the others where there are fewer.
pub proof fn few_others_are_shown(packages: Seq<Seq<char>>, package: Seq<char>, x: Seq<char>)
    ensures
        others(packages, package).len() <= 4,
        others(packages, package).contains(x) ==> packages.contains(x) && x != package,
        others(packages, package).len() < 4 && packages.contains(x) && x != package ==> others(
            packages,
            package,
        ).contains(x),
    decreases packages.len(),
{
    if packages.len() > 0 {
        let t = packages.drop_last();
        let last = packages.last();
        few_others_are_shown(t, package, x);
        assert(packages =~= t.push(last));
        lemma_seq_contains_after_push(t, last, x);
        lemma_seq_concat_contains_all_elements(others(t, package), seq![last], x);
        assert(seq![last][0] == last);
    }
}

/// For each tag for which there are other packages a line names them.
pub proof fn related_packages_are_named(
    index: RepoIndex,
    cached: Seq<(String, PackageMeta)>,
    tags: Seq<Seq<char>>,
    package: Seq<char>,
    x: Seq<char>,
)
    ensures
        related_lines(index, cached, tags, package).contains(x) <==> exists|i: int|
            0 <= i < tags.len() && others(tagged(index, cached, #[trigger] tags[i]), package).len() > 0 && x == "@"@
                + tags[i] + ": "@ + join_with(others(tagged(index, cached, tags[i]), package), ", "@),
    decreases tags.len(),
{
    if tags.len() > 0 {
        let t = tags.drop_last();
        let last = tags[tags.len() - 1];
        related_packages_are_named(index, cached, t, package, x);
        let line = "@"@ + last + ": "@ + join_with(others(tagged(index, cached, last), package), ", "@);
        lemma_seq_concat_contains_all_elements(related_lines(index, cached, t, package), seq![line], x);
        assert(seq![line][0] == line);
        assert(forall|i: int| 0 <= i < t.len() ==> t[i] == #[trigger] tags[i]);
        assert forall|i: int| 0 <= i < t.len() implies #[trigger] t[i] == tags[i] by {}
    }
}

/// Every version is shown, and the one in use is marked and no other.
pub proof fn version_in_use_is_marked(versions: Seq<Seq<char>>, current: Option<Seq<char>>, i: int)
    requires
        0 <= i < versions.len(),
    ensures
        version_lines(versions, current).len() == versions.len(),
        current == Some(versions[i]) ==> version_lines(versions, current)[i] == "• "@ + versions[i] + " ← current"@,
        current != Some(versions[i]) ==> version_lines(versions, current)[i] == "• "@ + versions[i],
{
}

/// Of a package is shown the version that is in use, whether it is pinned, or that there is
/// none; and its version, author, license and repository come first.
pub proof fn what_is_shown_first(meta: PackageMeta, url: Seq<char>, source: Option<BuildSource>, v: Seq<char>)
    ensures
        installed_text(Some(v), true) == v + " (pinned)"@,
        installed_text(Some(v), false) == v,
        installed_text(None, false) == "No"@,
        info_rows(meta, url, source).len() >= 4,
        info_rows(meta, url, source)[0].1 == meta.version@,
        info_rows(meta, url, source)[1].1 == meta.authors@,
        info_rows(meta, url, source)[2].1 == meta.license@,
        info_rows(meta, url, source)[3].1 == url,
        meta.tags@.len() > 0 ==> info_rows(meta, url, source).len() >= 5 && info_rows(meta, url, source)[4].0
            == "Tags:"@,
        source matches Some(s) ==> info_rows(meta, url, source).last() == ("Build type:"@, source_text(s)),
{
}

} // verus!
