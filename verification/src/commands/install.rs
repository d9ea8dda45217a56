//! Installing packages.
use vstd::prelude::*;

use crate::collections::NameMap;
use crate::pattern::{has_prefix, skip_chars, starts_with};
use crate::repo::{all_tags, packages_for_tag, tagged, tags_in_use, PackageMeta, RepoIndex};
use crate::state::{InfoModel, State};
use crate::text::{cat, cat3, cut, cut_at, cut_of_joined, cut_only_where_it_stands, has_string, join_strings, join_with, push_text, same, strs};
use crate::utils::{missing_from, missing_is_what_is_not_there, strings_missing_from};

verus! {

// ---------------------------------------------------------------------------
// Arguments
// ---------------------------------------------------------------------------

/// The arguments of the command.
#[derive(Debug)]
pub struct InstallArgs {
    /// What to install: names, names with versions, and tags.
    pub specs: Vec<String>,
    /// Whether to take archives of releases.
    pub use_release: bool,
    /// Whether to refuse archives without a signature.
    pub require_signed: bool,
    pub verbose: bool,
}

/// Why arguments make no sense.
#[derive(Clone, Copy, PartialEq, Eq, Structural, Debug)]
pub enum InstallArgsProblem {
    SignedWithoutRelease,
    NothingNamed,
}

/// The options of the command.
pub open spec fn install_options() -> Seq<Seq<char>> {
    seq!["--release"@, "--require-signed"@, "--verbose"@, "-v"@]
}

/// Reads the arguments of the command. Options may stand anywhere.
pub fn parse_install_args(args: &Vec<String>) -> (r: InstallArgs)
    ensures
        strs(r.specs@) == missing_from(strs(args@), install_options()),
        r.use_release == strs(args@).contains("--release"@),
        r.require_signed == strs(args@).contains("--require-signed"@),
        r.verbose == (strs(args@).contains("--verbose"@) || strs(args@).contains("-v"@)),
{
    let mut options: Vec<String> = Vec::new();
    options.push("--release".to_owned());
    options.push("--require-signed".to_owned());
    options.push("--verbose".to_owned());
    options.push("-v".to_owned());
    assert(strs(options@) =~= install_options());
    InstallArgs {
        specs: strings_missing_from(args, &options),
        use_release: has_string(args, "--release"),
        require_signed: has_string(args, "--require-signed"),
        verbose: has_string(args, "--verbose") || has_string(args, "-v"),
    }
}

impl InstallArgs {
    /// Why the arguments make no sense, if they do not.
    pub fn problem(&self) -> (r: Option<InstallArgsProblem>)
        ensures
            r == (if self.require_signed && !self.use_release {
                Some(InstallArgsProblem::SignedWithoutRelease)
            } else if self.specs@.len() == 0 {
                Some(InstallArgsProblem::NothingNamed)
            } else {
                None
            }),
    {
        if self.require_signed && !self.use_release {
            Some(InstallArgsProblem::SignedWithoutRelease)
        } else if self.specs.len() == 0 {
            Some(InstallArgsProblem::NothingNamed)
        } else {
            None
        }
    }
}

/// The text for arguments that make no sense.
pub fn install_args_message(p: InstallArgsProblem) -> (r: &'static str)
    ensures
        r@ == (match p {
            InstallArgsProblem::SignedWithoutRelease =>
                "--require-signed only makes sense together with --release"@,
            InstallArgsProblem::NothingNamed =>
                "Usage: hpm install <package>[@<version>]... | @<tag>... [--release] [--require-signed] [--verbose]"@,
        }),
{
    match p {
        InstallArgsProblem::SignedWithoutRelease => "--require-signed only makes sense together with --release",
        InstallArgsProblem::NothingNamed => "Usage: hpm install <package>[@<version>]... | @<tag>... [--release] [--require-signed] [--verbose]",
    }
}

// ---------------------------------------------------------------------------
// What is asked for
// ---------------------------------------------------------------------------

/// The name before the first `@`, and the version behind it.
pub open spec fn spec_parts(spec: Seq<char>) -> (Seq<char>, Option<Seq<char>>) {
    match cut(spec, '@') {
        Some((name, version)) => (name, Some(version)),
        None => (spec, None),
    }
}

/// The package and the version that are asked for.
pub fn split_spec(spec: &str) -> (r: (String, Option<String>))
    ensures
        r.0@ == spec_parts(spec@).0,
        match r.1 {
            Some(v) => spec_parts(spec@).1 == Some(v@),
            None => spec_parts(spec@).1 is None,
        },
{
    match cut_at(spec, '@') {
        Some((name, version)) => (name, Some(version)),
        None => (spec.to_owned(), None),
    }
}

/// What a specification stands for: the packages of a tag, or itself.
pub open spec fn meant(spec: Seq<char>, index: RepoIndex, cached: Seq<(String, PackageMeta)>) -> Seq<Seq<char>> {
    if has_prefix(spec, "@"@) {
        tagged(index, cached, spec.skip(1))
    } else {
        seq![spec]
    }
}

/// What specifications stand for; fails with the first tag that no package carries.
pub open spec fn all_meant(
    specs: Seq<Seq<char>>,
    index: RepoIndex,
    cached: Seq<(String, PackageMeta)>,
) -> Result<Seq<Seq<char>>, Seq<char>>
    decreases specs.len(),
{
    if specs.len() == 0 {
        Ok(Seq::empty())
    } else {
        match all_meant(specs.drop_last(), index, cached) {
            Err(t) => Err(t),
            Ok(s) => {
                let m = meant(specs.last(), index, cached);
                if m.len() == 0 {
                    Err(specs.last().skip(1))
                } else {
                    Ok(s + m)
                }
            },
        }
    }
}

/// The texts without those that are the same as the one before them.
pub open spec fn without_repeats(s: Seq<Seq<char>>) -> Seq<Seq<char>>
    decreases s.len(),
{
    if s.len() <= 1 {
        s
    } else {
        let rest = without_repeats(s.drop_last());
        if s.last() == s[s.len() - 2] {
            rest
        } else {
            rest + seq![s.last()]
        }
    }
}

/// A tag that no package carries, and the tags that packages do carry.
#[derive(Debug)]
pub struct UnknownTag {
    pub tag: String,
    pub available: Vec<String>,
}

/// The packages of a tag, or the specification itself.
fn expand_spec(spec: &str, index: &RepoIndex, cached: &Vec<(String, PackageMeta)>) -> (r: Vec<String>)
    requires
        index.wf(),
    ensures
        strs(r@) == meant(spec@, *index, cached@),
{
    proof {
        reveal_strlit("@");
    }
    if starts_with(spec, "@") {
        let tag = skip_chars(spec, 1);
        packages_for_tag(index, cached, tag.as_str())
    } else {
        let mut v: Vec<String> = Vec::new();
        v.push(spec.to_owned());
        assert(strs(v@) =~= seq![spec@]);
        v
    }
}

fn append_strings(out: &mut Vec<String>, more: &Vec<String>)
    ensures
        strs(final(out)@) == strs(old(out)@) + strs(more@),
{
    let mut k: usize = 0;
    let ghost first = strs(out@);
    assert(strs(more@).take(0) =~= Seq::<Seq<char>>::empty());
    assert(first + Seq::<Seq<char>>::empty() =~= first);
    while k < more.len()
        invariant
            k <= more@.len(),
            strs(out@) == first + strs(more@).take(k as int),
        decreases more@.len() - k,
    {
        assert(strs(more@).take(k + 1) =~= strs(more@).take(k as int) + seq![more@[k as int]@]);
        push_text(out, more[k].clone());
        k = k + 1;
    }
    assert(strs(more@).take(more@.len() as int) =~= strs(more@));
}

fn drop_repeats(v: &Vec<String>) -> (r: Vec<String>)
    ensures
        strs(r@) == without_repeats(strs(v@)),
{
    let mut out: Vec<String> = Vec::new();
    let mut i: usize = 0;
    let ghost s = strs(v@);
    assert(s.take(0) =~= strs(out@));
    while i < v.len()
        invariant
            i <= v@.len(),
            s == strs(v@),
            strs(out@) == without_repeats(s.take(i as int)),
        decreases v@.len() - i,
    {
        proof {
            let longer = s.take(i + 1);
            assert(longer.drop_last() =~= s.take(i as int));
            if i == 0 {
                assert(strs(out@) + seq![v@[0]@] =~= longer);
            }
        }
        if i == 0 || !same(v[i].as_str(), v[i - 1].as_str()) {
            push_text(&mut out, v[i].clone());
        }
        i = i + 1;
    }
    assert(s.take(s.len() as int) =~= s);
    out
}

/// Puts the packages of tags in the place of the tags, and drops a package that
/// follows itself.
pub fn expand_specs(specs: &Vec<String>, index: &RepoIndex, cached: &Vec<(String, PackageMeta)>) -> (r: Result<Vec<String>, UnknownTag>)
    requires
        index.wf(),
    ensures
        match r {
            Ok(v) => all_meant(strs(specs@), *index, cached@) matches Ok(s) && strs(v@)
                == without_repeats(s),
            Err(e) => all_meant(strs(specs@), *index, cached@) == Err::<Seq<Seq<char>>, Seq<char>>(e.tag@)
                && strs(e.available@) == tags_in_use(*index, cached@),
        },
{
    let mut out: Vec<String> = Vec::new();
    let mut i: usize = 0;
    let ghost all = strs(specs@);
    assert(all.take(0) =~= Seq::<Seq<char>>::empty());
    assert(strs(out@) =~= Seq::<Seq<char>>::empty());
    while i < specs.len()
        invariant
            i <= specs@.len(),
            index.wf(),
            all == strs(specs@),
            all_meant(all.take(i as int), *index, cached@) == Ok::<Seq<Seq<char>>, Seq<char>>(strs(out@)),
        decreases specs@.len() - i,
    {
        let more = expand_spec(specs[i].as_str(), index, cached);
        proof {
            let longer = all.take(i + 1);
            assert(longer.drop_last() =~= all.take(i as int));
            assert(longer.last() == specs@[i as int]@);
            reveal_strlit("@");
        }
        if more.len() == 0 {
            assert(strs(more@).len() == 0);
            assert(meant(specs@[i as int]@, *index, cached@).len() == 0);
            assert(has_prefix(specs@[i as int]@, "@"@));
            let tag = skip_chars(specs[i].as_str(), 1);
            proof {
                all_meant_fails(all, *index, cached@, i + 1);
            }
            return Err(UnknownTag { tag, available: all_tags(index, cached) });
        }
        append_strings(&mut out, &more);
        i = i + 1;
    }
    assert(all.take(all.len() as int) =~= all);
    Ok(drop_repeats(&out))
}

proof fn all_meant_fails(specs: Seq<Seq<char>>, index: RepoIndex, cached: Seq<(String, PackageMeta)>, n: int)
    requires
        0 <= n <= specs.len(),
        all_meant(specs.take(n), index, cached) is Err,
    ensures
        all_meant(specs, index, cached) == all_meant(specs.take(n), index, cached),
    decreases specs.len() - n,
{
    if n == specs.len() {
        assert(specs.take(n) =~= specs);
    } else {
        let longer = specs.take(n + 1);
        assert(longer.drop_last() =~= specs.take(n));
        all_meant_fails(specs, index, cached, n + 1);
    }
}

/// The text for a tag that no package carries.
pub fn unknown_tag_message(e: &UnknownTag) -> (r: String)
    ensures
        r@ == "No packages for tag '@"@ + e.tag@ + "'"@ + (if e.available@.len() == 0 {
            ""@
        } else {
            "\n  Available tags: @"@ + join_with(strs(e.available@), ", @"@)
        }),
{
    let mut s = cat3("No packages for tag '@", e.tag.as_str(), "'");
    if e.available.len() == 0 {
        s.append("");
    } else {
        let list = join_strings(&e.available, ", @");
        let tail = cat("\n  Available tags: @", list.as_str());
        s.append(tail.as_str());
    }
    s
}

/// The name before the first `@`.
pub open spec fn spec_name(spec: Seq<char>) -> Seq<char> {
    spec_parts(spec).0
}

/// Whether two of the specifications name the same package.
pub open spec fn named_twice(specs: Seq<Seq<char>>, i: int, j: int) -> bool {
    spec_name(specs[i]) == spec_name(specs[j])
}

/// Whether a message names the first package that is named again later on.
pub open spec fn names_first_repeat(specs: Seq<Seq<char>>, m: Seq<char>) -> bool {
    exists|i: int, j: int|
        0 <= i < j < specs.len() && #[trigger] named_twice(specs, i, j) && (forall|a: int, b: int|
            0 <= a < i && a < b < specs.len() ==> !#[trigger] named_twice(specs, a, b)) && m
            == "Duplicate package '"@ + spec_name(specs[i]) + "' in install list"@
}

/// Checks that no package is named twice.
pub fn check_inter_package_conflicts(specs: &Vec<String>) -> (r: Result<(), String>)
    ensures
        match r {
            Ok(_) => forall|i: int, j: int|
                0 <= i < j < specs@.len() ==> !#[trigger] named_twice(strs(specs@), i, j),
            Err(m) => names_first_repeat(strs(specs@), m@),
        },
{
    let ghost s = strs(specs@);
    let mut i: usize = 0;
    while i < specs.len()
        invariant
            i <= specs@.len(),
            s == strs(specs@),
            forall|a: int, b: int| 0 <= a < i && a < b < s.len() ==> !#[trigger] named_twice(s, a, b),
        decreases specs@.len() - i,
    {
        let (name, _) = split_spec(specs[i].as_str());
        let mut j: usize = i + 1;
        while j < specs.len()
            invariant
                i < j <= specs@.len(),
                s == strs(specs@),
                name@ == spec_name(s[i as int]),
                forall|a: int, b: int| 0 <= a < i && a < b < s.len() ==> !#[trigger] named_twice(s, a, b),
                forall|b: int| i < b < j ==> !#[trigger] named_twice(s, i as int, b),
            decreases specs@.len() - j,
        {
            let (other, _) = split_spec(specs[j].as_str());
            if same(name.as_str(), other.as_str()) {
                assert(named_twice(s, i as int, j as int));
                return Err(cat3("Duplicate package '", name.as_str(), "' in install list"));
            }
            j = j + 1;
        }
        i = i + 1;
    }
    Ok(())
}

// ---------------------------------------------------------------------------
// What is still to do
// ---------------------------------------------------------------------------

/// What is said of a package that need not be installed: the version that is
/// asked for is there, or none is asked for and one is in use.
pub open spec fn already_there(
    spec: Seq<char>,
    installed: Map<(Seq<char>, Seq<char>), InfoModel>,
    current: Map<Seq<char>, Seq<char>>,
) -> Option<Seq<char>> {
    let (name, version) = spec_parts(spec);
    match version {
        Some(v) => if installed.dom().contains((name, v)) {
            Some(name + "@"@ + v + " is already installed"@)
        } else {
            None
        },
        None => if current.dom().contains(name) {
            Some(name + " is already installed ("@ + current[name] + ")"@)
        } else {
            None
        },
    }
}

/// What is still to be installed, and what is said of the rest; fails with the
/// first package that is not in the index.
pub open spec fn still_to_do(
    specs: Seq<Seq<char>>,
    known: Set<Seq<char>>,
    installed: Map<(Seq<char>, Seq<char>), InfoModel>,
    current: Map<Seq<char>, Seq<char>>,
) -> Result<(Seq<Seq<char>>, Seq<Seq<char>>), Seq<char>>
    decreases specs.len(),
{
    if specs.len() == 0 {
        Ok((Seq::empty(), Seq::empty()))
    } else {
        match still_to_do(specs.drop_last(), known, installed, current) {
            Err(n) => Err(n),
            Ok((todo, notes)) => {
                let spec = specs.last();
                if !known.contains(spec_name(spec)) {
                    Err(spec_name(spec))
                } else {
                    match already_there(spec, installed, current) {
                        Some(note) => Ok((todo, notes + seq![note])),
                        None => Ok((todo + seq![spec], notes)),
                    }
                }
            },
        }
    }
}

/// What is still to be installed.
#[derive(Debug)]
pub struct Pending {
    pub to_install: Vec<String>,
    /// What is said of the packages that are there already.
    pub notes: Vec<String>,
}

/// The text for a package that is not in the index.
pub open spec fn not_found_message(name: Seq<char>) -> Seq<char> {
    "Package '"@ + name + "' not found.\n  Run hpm refresh to refresh."@
}

fn note_if_there(spec: &str, state: &State, current: &NameMap) -> (r: Option<String>)
    requires
        state.wf(),
        current.wf(),
    ensures
        match r {
            Some(n) => already_there(spec@, state.packages@, current@) == Some(n@),
            None => already_there(spec@, state.packages@, current@) is None,
        },
{
    let (name, version) = split_spec(spec);
    match version {
        Some(v) => {
            if state.packages.get(name.as_str(), v.as_str()).is_some() {
                let mut s = cat3(name.as_str(), "@", v.as_str());
                s.append(" is already installed");
                Some(s)
            } else {
                None
            }
        },
        None => match current.get(name.as_str()) {
            Some(c) => {
                let mut s = cat3(name.as_str(), " is already installed (", c.as_str());
                s.append(")");
                Some(s)
            },
            None => None,
        },
    }
}

/// Leaves out the packages that are there already. `current` gives the version
/// of each package that is in use.
pub fn pending_specs(specs: &Vec<String>, index: &RepoIndex, state: &State, current: &NameMap) -> (r: Result<Pending, String>)
    requires
        index.wf(),
        state.wf(),
        current.wf(),
    ensures
        match r {
            Ok(p) => still_to_do(strs(specs@), index.packages@.dom(), state.packages@, current@)
                == Ok::<(Seq<Seq<char>>, Seq<Seq<char>>), Seq<char>>((strs(p.to_install@), strs(p.notes@))),
            Err(m) => still_to_do(strs(specs@), index.packages@.dom(), state.packages@, current@) matches Err(n)
                && m@ == not_found_message(n),
        },
{
    let mut todo: Vec<String> = Vec::new();
    let mut notes: Vec<String> = Vec::new();
    let mut i: usize = 0;
    let ghost all = strs(specs@);
    let ghost known = index.packages@.dom();
    assert(all.take(0) =~= Seq::<Seq<char>>::empty());
    assert(strs(todo@) =~= Seq::<Seq<char>>::empty());
    assert(strs(notes@) =~= Seq::<Seq<char>>::empty());
    while i < specs.len()
        invariant
            i <= specs@.len(),
            index.wf(),
            state.wf(),
            current.wf(),
            all == strs(specs@),
            known == index.packages@.dom(),
            still_to_do(all.take(i as int), known, state.packages@, current@) == Ok::<
                (Seq<Seq<char>>, Seq<Seq<char>>),
                Seq<char>,
            >((strs(todo@), strs(notes@))),
        decreases specs@.len() - i,
    {
        let spec = specs[i].as_str();
        let (name, _) = split_spec(spec);
        proof {
            let longer = all.take(i + 1);
            assert(longer.drop_last() =~= all.take(i as int));
            assert(longer.last() == spec@);
        }
        if index.url_of(name.as_str()).is_none() {
            proof {
                still_to_do_fails(all, known, state.packages@, current@, i + 1);
            }
            return Err(cat3("Package '", name.as_str(), "' not found.\n  Run hpm refresh to refresh."));
        }
        match note_if_there(spec, state, current) {
            Some(note) => {
                push_text(&mut notes, note);
            },
            None => {
                push_text(&mut todo, specs[i].clone());
            },
        }
        i = i + 1;
    }
    assert(all.take(all.len() as int) =~= all);
    Ok(Pending { to_install: todo, notes })
}

proof fn still_to_do_fails(
    specs: Seq<Seq<char>>,
    known: Set<Seq<char>>,
    installed: Map<(Seq<char>, Seq<char>), InfoModel>,
    current: Map<Seq<char>, Seq<char>>,
    n: int,
)
    requires
        0 <= n <= specs.len(),
        still_to_do(specs.take(n), known, installed, current) is Err,
    ensures
        still_to_do(specs, known, installed, current) == still_to_do(
            specs.take(n),
            known,
            installed,
            current,
        ),
    decreases specs.len() - n,
{
    if n == specs.len() {
        assert(specs.take(n) =~= specs);
    } else {
        let longer = specs.take(n + 1);
        assert(longer.drop_last() =~= specs.take(n));
        still_to_do_fails(specs, known, installed, current, n + 1);
    }
}

/// Why nothing can be installed.
#[derive(Debug)]
pub enum PlanProblem {
    /// A tag that no package carries.
    UnknownTag(UnknownTag),
    /// A package that is named twice, as text.
    Duplicate(String),
    /// A package that is not in the index, as text.
    NotFound(String),
}

/// Whether two of the specifications name the same package.
pub open spec fn any_named_twice(specs: Seq<Seq<char>>) -> bool {
    exists|i: int, j: int| 0 <= i < j < specs.len() && #[trigger] named_twice(specs, i, j)
}

/// Finds out what is still to be installed of what is asked for: tags are
/// replaced by their packages, no package may be named twice, every package must
/// be in the index, and what is there already is left out.
pub fn plan_install(
    specs: &Vec<String>,
    index: &RepoIndex,
    cached: &Vec<(String, PackageMeta)>,
    state: &State,
    current: &NameMap,
) -> (r: Result<Pending, PlanProblem>)
    requires
        index.wf(),
        state.wf(),
        current.wf(),
    ensures
        match all_meant(strs(specs@), *index, cached@) {
            Err(tag) => r matches Err(PlanProblem::UnknownTag(e)) && e.tag@ == tag && strs(
                e.available@,
            ) == tags_in_use(*index, cached@),
            Ok(s) => {
                let all = without_repeats(s);
                if any_named_twice(all) {
                    r matches Err(PlanProblem::Duplicate(m)) && names_first_repeat(all, m@)
                } else {
                    match still_to_do(all, index.packages@.dom(), state.packages@, current@) {
                        Err(name) => r matches Err(PlanProblem::NotFound(m)) && m@
                            == not_found_message(name),
                        Ok((todo, notes)) => r matches Ok(p) && strs(p.to_install@) == todo && strs(
                            p.notes@,
                        ) == notes,
                    }
                }
            },
        },
{
    match expand_specs(specs, index, cached) {
        Err(e) => Err(PlanProblem::UnknownTag(e)),
        Ok(all) => {
            assert(strs(all@).len() == all@.len());
            match check_inter_package_conflicts(&all) {
                Err(m) => Err(PlanProblem::Duplicate(m)),
                Ok(_) => match pending_specs(&all, index, state, current) {
                    Ok(p) => Ok(p),
                    Err(m) => Err(PlanProblem::NotFound(m)),
                },
            }
        },
    }
}

/// The name of the snapshot that is taken before packages are installed.
pub fn install_snapshot_name(specs: &Vec<String>) -> (r: String)
    ensures
        r@ == "pre-install "@ + join_with(strs(specs@), ", "@),
{
    let list = join_strings(specs, ", ");
    cat("pre-install ", list.as_str())
}

// ---------------------------------------------------------------------------
// Laws
// ---------------------------------------------------------------------------

/// A name, an at sign and a text ask for that version of the package; a name alone asks
/// for none.
pub proof fn what_a_spec_asks_for(name: Seq<char>, version: Seq<char>)
    requires
        !name.contains('@'),
    ensures
        spec_parts(name + "@"@ + version) == (name, Some(version)),
        spec_parts(name) == (name, None::<Seq<char>>),
{
    reveal_strlit("@");
    assert("@"@ =~= seq!['@']);
    cut_of_joined(name, '@', version);
    cut_only_where_it_stands(name, '@');
    assert(name + "@"@ + version =~= name.push('@') + version);
}

/// What is installed is what is named and the packages that carry a tag that is named; and
/// that fails exactly where no package carries one of the tags.
pub proof fn what_specs_stand_for(
    specs: Seq<Seq<char>>,
    index: RepoIndex,
    cached: Seq<(String, PackageMeta)>,
    x: Seq<char>,
)
    ensures
        match all_meant(specs, index, cached) {
            Ok(s) => {
                &&& s.contains(x) <==> exists|i: int|
                    0 <= i < specs.len() && if (#[trigger] specs[i]).len() > 0 && specs[i][0] == '@' {
                        tagged(index, cached, specs[i].skip(1)).contains(x)
                    } else {
                        specs[i] == x
                    }
                &&& forall|i: int|
                    0 <= i < specs.len() && (#[trigger] specs[i]).len() > 0 && specs[i][0] == '@' ==> tagged(
                        index,
                        cached,
                        specs[i].skip(1),
                    ).len() > 0
            },
            Err(t) => exists|i: int|
                0 <= i < specs.len() && #[trigger] specs[i] == seq!['@'] + t && tagged(index, cached, t).len()
                    == 0,
        },
    decreases specs.len(),
{
    if specs.len() > 0 {
        let t = specs.drop_last();
        what_specs_stand_for(t, index, cached, x);
        let last = specs[specs.len() - 1];
        reveal_strlit("@");
        assert("@"@ =~= seq!['@']);
        if last.len() > 0 && last[0] == '@' {
            assert(last.take(1) =~= "@"@);
            assert(last =~= seq!['@'] + last.skip(1));
        } else if has_prefix(last, "@"@) {
            assert(last.take(1)[0] == last[0]);
        }
        let m = meant(last, index, cached);
        match all_meant(t, index, cached) {
            Err(e) => {
                let i = choose|i: int|
                    0 <= i < t.len() && #[trigger] t[i] == seq!['@'] + e && tagged(index, cached, e).len()
                        == 0;
                assert(specs[i] == t[i]);
            },
            Ok(s) => {
                if m.len() == 0 {
                    assert(specs[specs.len() - 1] == seq!['@'] + last.skip(1));
                } else {
                    let all = s + m;
                    if all.contains(x) {
                        let k = choose|k: int| 0 <= k < all.len() && all[k] == x;
                        if k < s.len() {
                            assert(s[k] == x);
                            assert(s.contains(x));
                            let i = choose|i: int|
                                0 <= i < t.len() && if (#[trigger] t[i]).len() > 0 && t[i][0] == '@' {
                                    tagged(index, cached, t[i].skip(1)).contains(x)
                                } else {
                                    t[i] == x
                                };
                            assert(specs[i] == t[i]);
                        } else {
                            assert(m[k - s.len()] == x);
                            assert(m.contains(x));
                            assert(specs[specs.len() - 1] == last);
                        }
                    }
                    if exists|i: int|
                        0 <= i < specs.len() && if (#[trigger] specs[i]).len() > 0 && specs[i][0] == '@' {
                            tagged(index, cached, specs[i].skip(1)).contains(x)
                        } else {
                            specs[i] == x
                        } {
                        let i = choose|i: int|
                            0 <= i < specs.len() && if (#[trigger] specs[i]).len() > 0 && specs[i][0] == '@' {
                                tagged(index, cached, specs[i].skip(1)).contains(x)
                            } else {
                                specs[i] == x
                            };
                        if i < t.len() {
                            assert(t[i] == specs[i]);
                            assert(s.contains(x));
                            let k = choose|k: int| 0 <= k < s.len() && s[k] == x;
                            assert(all[k] == x);
                        } else {
                            if !(last.len() > 0 && last[0] == '@') {
                                assert(m[0] == x);
                            }
                            assert(m.contains(x));
                            let k = choose|k: int| 0 <= k < m.len() && m[k] == x;
                            assert(all[s.len() + k] == x);
                        }
                    }
                    assert forall|i: int|
                        0 <= i < specs.len() && (#[trigger] specs[i]).len() > 0 && specs[i][0] == '@' implies tagged(
                        index,
                        cached,
                        specs[i].skip(1),
                    ).len() > 0 by {
                        if i < t.len() {
                            assert(t[i] == specs[i]);
                        }
                    }
                }
            },
        }
    }
}

/// Dropping what follows itself drops no text altogether, and leaves no text next to
/// itself.
pub proof fn repeats_go(s: Seq<Seq<char>>, x: Seq<char>)
    ensures
        without_repeats(s).contains(x) <==> s.contains(x),
        forall|i: int|
            0 < i < without_repeats(s).len() ==> #[trigger] without_repeats(s)[i] != without_repeats(s)[i - 1],
        s.len() > 0 ==> without_repeats(s).len() > 0 && without_repeats(s).last() == s.last(),
    decreases s.len(),
{
    if s.len() > 1 {
        let t = s.drop_last();
        repeats_go(t, x);
        let rest = without_repeats(t);
        let all = without_repeats(s);
        assert(t.last() == s[s.len() - 2]);
        if s.contains(x) {
            let i = choose|i: int| 0 <= i < s.len() && s[i] == x;
            if i < t.len() {
                assert(t[i] == x);
            }
        }
        if t.contains(x) {
            let i = choose|i: int| 0 <= i < t.len() && t[i] == x;
            assert(s[i] == x);
        }
        if rest.contains(x) {
            let k = choose|k: int| 0 <= k < rest.len() && rest[k] == x;
            assert(all[k] == x);
        }
        if all.contains(x) {
            let k = choose|k: int| 0 <= k < all.len() && all[k] == x;
            if k < rest.len() {
                assert(rest[k] == x);
            } else {
                assert(s[s.len() - 1] == x);
            }
        }
        if s.last() == t.last() {
            assert(t[t.len() - 1] == t.last());
        } else {
            assert(all.last() == s.last());
            assert(all[rest.len() as int] == s.last());
        }
    }
}

/// A package is installed that is asked for in a version that is not installed, or in no
/// version and with none in use; all others that are asked for are left out; and that
/// fails exactly where one of them is not in the index.
pub proof fn what_is_left_to_install(
    specs: Seq<Seq<char>>,
    known: Set<Seq<char>>,
    installed: Map<(Seq<char>, Seq<char>), InfoModel>,
    current: Map<Seq<char>, Seq<char>>,
    x: Seq<char>,
)
    ensures
        match still_to_do(specs, known, installed, current) {
            Ok((todo, notes)) => {
                &&& todo.contains(x) <==> specs.contains(x) && match spec_parts(x).1 {
                    Some(v) => !installed.dom().contains((spec_parts(x).0, v)),
                    None => !current.dom().contains(spec_parts(x).0),
                }
                &&& todo.len() + notes.len() == specs.len()
                &&& forall|i: int| 0 <= i < specs.len() ==> known.contains(spec_parts(#[trigger] specs[i]).0)
            },
            Err(n) => !known.contains(n) && exists|i: int|
                0 <= i < specs.len() && spec_parts(#[trigger] specs[i]).0 == n,
        },
    decreases specs.len(),
{
    if specs.len() > 0 {
        let t = specs.drop_last();
        what_is_left_to_install(t, known, installed, current, x);
        let last = specs[specs.len() - 1];
        match still_to_do(t, known, installed, current) {
            Err(n) => {
                let i = choose|i: int| 0 <= i < t.len() && spec_parts(#[trigger] t[i]).0 == n;
                assert(specs[i] == t[i]);
            },
            Ok((todo, notes)) => {
                if known.contains(spec_name(last)) {
                    assert forall|i: int| 0 <= i < specs.len() implies known.contains(
                        spec_parts(#[trigger] specs[i]).0,
                    ) by {
                        if i < t.len() {
                            assert(t[i] == specs[i]);
                        }
                    }
                    if specs.contains(x) {
                        let i = choose|i: int| 0 <= i < specs.len() && specs[i] == x;
                        if i < t.len() {
                            assert(t[i] == x);
                        }
                    }
                    if t.contains(x) {
                        let i = choose|i: int| 0 <= i < t.len() && t[i] == x;
                        assert(specs[i] == x);
                    }
                    if already_there(last, installed, current) is None {
                        let all = todo + seq![last];
                        if all.contains(x) {
                            let k = choose|k: int| 0 <= k < all.len() && all[k] == x;
                            if k < todo.len() {
                                assert(todo[k] == x);
                            }
                        }
                        if todo.contains(x) {
                            let k = choose|k: int| 0 <= k < todo.len() && todo[k] == x;
                            assert(all[k] == x);
                        }
                        if x == last {
                            assert(all[todo.len() as int] == x);
                        }
                    }
                } else {
                    assert(spec_parts(specs[specs.len() - 1]).0 == spec_name(last));
                }
            },
        }
    }
}

/// Two specs that name one package in whatever versions are one too many.
pub proof fn one_package_named_twice(specs: Seq<Seq<char>>, i: int, j: int, name: Seq<char>, v: Seq<char>, w: Seq<char>)
    requires
        0 <= i < j < specs.len(),
        !name.contains('@'),
        specs[i] == name || specs[i] == name + "@"@ + v,
        specs[j] == name || specs[j] == name + "@"@ + w,
    ensures
        any_named_twice(specs),
{
    what_a_spec_asks_for(name, v);
    what_a_spec_asks_for(name, w);
    assert(named_twice(specs, i, j));
}

/// Where no package is named twice, no two specs name the same.
pub proof fn no_package_named_twice(specs: Seq<Seq<char>>, i: int, j: int)
    requires
        0 <= i < j < specs.len(),
        !any_named_twice(specs),
    ensures
        spec_parts(specs[i]).0 != spec_parts(specs[j]).0,
{
    assert(!named_twice(specs, i, j));
}

/// What is named to be installed is every argument that is no option.
pub proof fn options_are_not_installed(args: Seq<Seq<char>>, x: Seq<char>)
    ensures
        missing_from(args, install_options()).contains(x) <==> args.contains(x) && x != "--release"@ && x
            != "--require-signed"@ && x != "--verbose"@ && x != "-v"@,
{
    missing_is_what_is_not_there(args, Seq::empty(), install_options(), x);
    let o = install_options();
    assert(o[0] == "--release"@ && o[1] == "--require-signed"@ && o[2] == "--verbose"@ && o[3] == "-v"@);
}

/// Where no tag is named, what is meant is what is named, in its order.
pub proof fn plain_specs_stay(specs: Seq<Seq<char>>, index: RepoIndex, cached: Seq<(String, PackageMeta)>)
    requires
        forall|i: int| 0 <= i < specs.len() ==> !has_prefix(#[trigger] specs[i], "@"@),
    ensures
        all_meant(specs, index, cached) == Ok::<Seq<Seq<char>>, Seq<char>>(specs),
    decreases specs.len(),
{
    if specs.len() == 0 {
        assert(specs =~= Seq::<Seq<char>>::empty());
    } else {
        let t = specs.drop_last();
        assert forall|i: int| 0 <= i < t.len() implies !has_prefix(#[trigger] t[i], "@"@) by {
            assert(t[i] == specs[i]);
        }
        plain_specs_stay(t, index, cached);
        assert(!has_prefix(specs[specs.len() - 1], "@"@));
        assert(t + seq![specs.last()] =~= specs);
    }
}

/// Where no text follows itself, none is dropped.
pub proof fn nothing_repeated_nothing_dropped(s: Seq<Seq<char>>)
    requires
        forall|i: int| 0 < i < s.len() ==> #[trigger] s[i] != s[i - 1],
    ensures
        without_repeats(s) == s,
    decreases s.len(),
{
    if s.len() > 1 {
        let t = s.drop_last();
        assert forall|i: int| 0 < i < t.len() implies #[trigger] t[i] != t[i - 1] by {
            assert(s[i] != s[i - 1]);
        }
        nothing_repeated_nothing_dropped(t);
        assert(s[s.len() - 1] != s[s.len() - 2]);
        assert(t + seq![s.last()] =~= s);
    }
}

/// Where everything is in the index and nothing is there already, all of it is installed,
/// in its order.
pub proof fn everything_new_is_installed(
    specs: Seq<Seq<char>>,
    known: Set<Seq<char>>,
    installed: Map<(Seq<char>, Seq<char>), InfoModel>,
    current: Map<Seq<char>, Seq<char>>,
)
    requires
        forall|i: int|
            0 <= i < specs.len() ==> known.contains(spec_parts(#[trigger] specs[i]).0) && match spec_parts(specs[i]).1 {
                Some(v) => !installed.dom().contains((spec_parts(specs[i]).0, v)),
                None => !current.dom().contains(spec_parts(specs[i]).0),
            },
    ensures
        still_to_do(specs, known, installed, current) == Ok::<(Seq<Seq<char>>, Seq<Seq<char>>), Seq<char>>(
            (specs, Seq::empty()),
        ),
    decreases specs.len(),
{
    if specs.len() == 0 {
        assert(specs =~= Seq::<Seq<char>>::empty());
    } else {
        let t = specs.drop_last();
        assert forall|i: int| 0 <= i < t.len() implies known.contains(spec_parts(#[trigger] t[i]).0) && match spec_parts(
            t[i],
        ).1 {
            Some(v) => !installed.dom().contains((spec_parts(t[i]).0, v)),
            None => !current.dom().contains(spec_parts(t[i]).0),
        } by {
            assert(t[i] == specs[i]);
        }
        everything_new_is_installed(t, known, installed, current);
        let last = specs[specs.len() - 1];
        assert(known.contains(spec_parts(last).0));
        assert(already_there(last, installed, current) is None);
        assert(t + seq![last] =~= specs);
    }
}

} // verus!
