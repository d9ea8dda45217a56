//! Checking an installation, and putting it right.
use vstd::prelude::*;
use vstd::seq_lib::{lemma_seq_concat_contains_all_elements, lemma_seq_contains_after_push};

use crate::collections::pair_texts;
use crate::commands::placing::{binary_place, find_binary_in_dir, merge_strings, merged, merged_holds_both};
use crate::commands::wrappers::{extract_pkg_from_wrapper, first_exec_pkg, is_word, suggested, suggested_name, wrapper_content, wrapper_script, written_wrapper_is_recognised};
use crate::config::{map_get, map_pairs, pair_value};
use crate::manifest::Manifest;
use crate::number::{decimal, to_decimal};
use crate::pattern::{contains, has_prefix, has_suffix, occurs};
use crate::state::{join_pkg_ver, pkg_key, versions_in, State};
use crate::text::{can_shorten, cat, cat3, cat5, has_string, join_strings, join_with, lines, push_text, same, shorten, shortened, strs};
use crate::utils::{newest, newest_version};

verus! {

// ---------------------------------------------------------------------------
// Reports
// ---------------------------------------------------------------------------

/// How serious a finding is.
#[derive(Clone, Copy, PartialEq, Eq, Structural, Debug)]
pub enum Level {
    Fine,
    Warning,
    Error,
}

/// A finding.
#[derive(Debug)]
pub struct Finding {
    pub level: Level,
    pub text: String,
}

/// What a check found, in the order in which it was found.
#[derive(Debug)]
pub struct Report {
    pub findings: Vec<Finding>,
}

impl View for Report {
    type V = Seq<(Level, Seq<char>)>;

    open spec fn view(&self) -> Seq<(Level, Seq<char>)> {
        self.findings@.map_values(|f: Finding| (f.level, f.text@))
    }
}

/// The texts of the findings of one level.
pub open spec fn of_level(r: Seq<(Level, Seq<char>)>, level: Level) -> Seq<Seq<char>>
    decreases r.len(),
{
    if r.len() == 0 {
        Seq::empty()
    } else {
        let rest = of_level(r.drop_last(), level);
        if r.last().0 == level {
            rest + seq![r.last().1]
        } else {
            rest
        }
    }
}

impl Report {
    /// A report without findings.
    pub fn new() -> (r: Report)
        ensures
            r@ == Seq::<(Level, Seq<char>)>::empty(),
    {
        let r = Report { findings: Vec::new() };
        assert(r@ =~= Seq::<(Level, Seq<char>)>::empty());
        r
    }

    fn note(&mut self, level: Level, text: String)
        ensures
            final(self)@ == old(self)@ + seq![(level, text@)],
    {
        self.findings.push(Finding { level, text });
        assert(self@ =~= old(self)@ + seq![(level, text@)]);
    }

    /// Adds that something is as it should be.
    pub fn ok(&mut self, text: String)
        ensures
            final(self)@ == old(self)@ + seq![(Level::Fine, text@)],
    {
        self.note(Level::Fine, text);
    }

    /// Adds a warning.
    pub fn warn(&mut self, text: String)
        ensures
            final(self)@ == old(self)@ + seq![(Level::Warning, text@)],
    {
        self.note(Level::Warning, text);
    }

    /// Adds an error.
    pub fn error(&mut self, text: String)
        ensures
            final(self)@ == old(self)@ + seq![(Level::Error, text@)],
    {
        self.note(Level::Error, text);
    }

    /// The texts of the findings of one level.
    pub fn texts(&self, level: Level) -> (r: Vec<String>)
        ensures
            strs(r@) == of_level(self@, level),
    {
        let mut out: Vec<String> = Vec::new();
        let mut i: usize = 0;
        assert(self@.take(0) =~= Seq::<(Level, Seq<char>)>::empty());
        assert(strs(out@) =~= Seq::<Seq<char>>::empty());
        while i < self.findings.len()
            invariant
                i <= self.findings@.len(),
                strs(out@) == of_level(self@.take(i as int), level),
            decreases self.findings@.len() - i,
        {
            proof {
                let longer = self@.take(i + 1);
                assert(longer.drop_last() =~= self@.take(i as int));
                assert(longer.last() == self@[i as int]);
            }
            if self.findings[i].level == level {
                push_text(&mut out, self.findings[i].text.clone());
            }
            i = i + 1;
        }
        assert(self@.take(self@.len() as int) =~= self@);
        out
    }

    /// What is said at the end: to repair if there are errors; that all is well
    /// if there is not even a warning.
    pub fn advice(&self) -> (r: Option<&'static str>)
        ensures
            match r {
                Some(t) => if of_level(self@, Level::Error).len() > 0 {
                    t@ == "Run hpm repair to attempt automatic repair."@
                } else {
                    t@ == "All checks passed."@ && of_level(self@, Level::Warning).len() == 0
                },
                None => of_level(self@, Level::Error).len() == 0 && of_level(self@, Level::Warning).len()
                    > 0,
            },
    {
        let errors = self.texts(Level::Error);
        let warnings = self.texts(Level::Warning);
        assert(strs(errors@).len() == errors@.len());
        assert(strs(warnings@).len() == warnings@.len());
        if errors.len() > 0 {
            Some("Run hpm repair to attempt automatic repair.")
        } else if warnings.len() == 0 {
            Some("All checks passed.")
        } else {
            None
        }
    }
}

// ---------------------------------------------------------------------------
// What is there
// ---------------------------------------------------------------------------

/// What is at the place of a program's wrapper.
#[derive(Debug)]
pub struct WrapperFacts {
    pub bin: String,
    pub exists_there: bool,
    /// Whether there is one under the name that is suggested in its place.
    pub other_exists: bool,
    /// What the file holds; empty where it cannot be read.
    pub content: String,
}

/// What the manifest of an installed version says, and what is there of it.
#[derive(Debug)]
pub struct ManifestFacts {
    pub wrappers: Vec<WrapperFacts>,
    pub is_gui: bool,
    /// Whether its sandbox is opened for a window.
    pub sandbox_gui: bool,
    pub desktop_path: String,
    pub desktop_exists: bool,
}

/// What is there of an installed version.
#[derive(Debug)]
pub struct VersionFacts {
    pub version: String,
    /// The checksum that is recorded.
    pub stored: String,
    pub dir: String,
    pub dir_exists: bool,
    /// Why its image could not be mounted, if it could not.
    pub mount_error: Option<String>,
    /// The checksum of what is there, or why there is none.
    pub computed: Result<String, String>,
    /// What its manifest says, if it can be read.
    pub manifest: Option<ManifestFacts>,
}

/// What the link to the version in use is like.
#[derive(Debug)]
pub enum LinkFacts {
    Missing,
    Unreadable(String),
    To(String),
}

/// The part of a checksum that is shown.
pub open spec fn shown(sum: Seq<char>) -> Seq<char> {
    shortened(sum, 12, 12, Seq::empty())
}

/// Whether that part can be shown: no character stands across its end.
pub open spec fn showable(sum: Seq<char>) -> bool {
    can_shorten(sum, 12, 12)
}

/// Whether the checksums of a version can be shown.
pub open spec fn facts_showable(f: VersionFacts) -> bool {
    showable(f.stored@) && (f.computed matches Ok(c) ==> showable(c@))
}

/// What is found of the database and the store.
pub open spec fn base_findings(db_exists: bool, store_exists: bool, store: Seq<char>) -> Seq<(Level, Seq<char>)> {
    seq![
        if db_exists {
            (Level::Fine, "hpm.db exists and is readable"@)
        } else {
            (Level::Warning, "hpm.db does not exist yet (no packages installed)"@)
        },
        if store_exists {
            (Level::Fine, "Store directory "@ + store + " exists"@)
        } else {
            (Level::Warning, "Store directory "@ + store + " does not exist"@)
        },
    ]
}

/// Checks that there are a database and a store.
pub fn check_base(report: &mut Report, db_exists: bool, store_exists: bool, store: &str)
    ensures
        final(report)@ == old(report)@ + base_findings(db_exists, store_exists, store@),
{
    if db_exists {
        report.ok("hpm.db exists and is readable".to_owned());
    } else {
        report.warn("hpm.db does not exist yet (no packages installed)".to_owned());
    }
    if store_exists {
        report.ok(cat3("Store directory ", store, " exists"));
    } else {
        report.warn(cat3("Store directory ", store, " does not exist"));
    }
    assert(report@ =~= old(report)@ + base_findings(db_exists, store_exists, store@));
}

/// What is found of the link to the version in use.
pub open spec fn link_finding(pkg: Seq<char>, link: LinkFacts) -> (Level, Seq<char>) {
    match link {
        LinkFacts::Missing => (Level::Error, pkg + ": missing current symlink"@),
        LinkFacts::Unreadable(e) => (
            Level::Error,
            pkg + ": current symlink unreadable: "@ + e@,
        ),
        LinkFacts::To(v) => (Level::Fine, pkg + ": current → "@ + v@),
    }
}

/// Checks the link to the version in use.
pub fn check_link(report: &mut Report, pkg: &str, link: &LinkFacts)
    ensures
        final(report)@ == old(report)@ + seq![link_finding(pkg@, *link)],
{
    match link {
        LinkFacts::Missing => {
            report.error(cat(pkg, ": missing current symlink"));
        },
        LinkFacts::Unreadable(e) => {
            report.error(cat3(pkg, ": current symlink unreadable: ", e.as_str()));
        },
        LinkFacts::To(v) => {
            report.ok(cat3(pkg, ": current → ", v.as_str()));
        },
    }
}

/// The text by which a wrapper of a package is known.
pub open spec fn call_of(pkg: Seq<char>) -> Seq<char> {
    "hpm run "@ + pkg + " "@
}

/// Whether a file calls a package.
pub open spec fn calls(content: Seq<char>, pkg: Seq<char>) -> bool {
    occurs(content, call_of(pkg))
}

/// Whether a file calls a package.
pub fn calls_package(content: &str, pkg: &str) -> (r: bool)
    ensures
        r == calls(content@, pkg@),
{
    let call = cat3("hpm run ", pkg, " ");
    contains(content, call.as_str())
}

/// What is found of the wrapper of a program.
pub open spec fn wrapper_finding(
    pkg: Seq<char>,
    version: Seq<char>,
    in_use: bool,
    w: WrapperFacts,
    bin_dir: Seq<char>,
) -> (Level, Seq<char>) {
    let who = pkg_key(pkg, version) + ": "@ + bin_dir + "/"@ + w.bin@;
    if w.exists_there {
        if calls(w.content@, pkg) {
            (Level::Fine, who + " wrapper OK"@)
        } else {
            (Level::Warning, who + " wrapper exists but doesn't call hpm run"@)
        }
    } else if w.other_exists {
        (
            Level::Warning,
            who + " missing but "@ + bin_dir + "/"@ + suggested(pkg, w.bin@)
                + " exists (renamed wrapper)"@,
        )
    } else if in_use {
        (
            Level::Error,
            who + " wrapper missing (package is current but has no wrapper)"@,
        )
    } else {
        (Level::Warning, who + " wrapper missing (non-current version, OK)"@)
    }
}

/// What is found of the wrappers of a version.
pub open spec fn wrapper_findings(
    pkg: Seq<char>,
    version: Seq<char>,
    in_use: bool,
    w: Seq<WrapperFacts>,
    bin_dir: Seq<char>,
) -> Seq<(Level, Seq<char>)> {
    w.map_values(|x: WrapperFacts| wrapper_finding(pkg, version, in_use, x, bin_dir))
}

fn check_wrapper(report: &mut Report, pkg: &str, version: &str, in_use: bool, w: &WrapperFacts, bin_dir: &str)
    ensures
        final(report)@ == old(report)@ + seq![
            wrapper_finding(pkg@, version@, in_use, *w, bin_dir@),
        ],
{
    let key = join_pkg_ver(pkg, version);
    let who = cat5(key.as_str(), ": ", bin_dir, "/", w.bin.as_str());
    if w.exists_there {
        if calls_package(w.content.as_str(), pkg) {
            report.ok(cat(who.as_str(), " wrapper OK"));
        } else {
            report.warn(cat(who.as_str(), " wrapper exists but doesn't call hpm run"));
        }
    } else if w.other_exists {
        let other = suggested_name(pkg, w.bin.as_str());
        let mut s = cat5(who.as_str(), " missing but ", bin_dir, "/", other.as_str());
        s.append(" exists (renamed wrapper)");
        report.warn(s);
    } else if in_use {
        report.error(cat(who.as_str(), " wrapper missing (package is current but has no wrapper)"));
    } else {
        report.warn(cat(who.as_str(), " wrapper missing (non-current version, OK)"));
    }
}

/// What is found of the desktop entry of a package.
pub open spec fn desktop_finding(pkg: Seq<char>, m: ManifestFacts) -> Seq<(Level, Seq<char>)> {
    if !(m.is_gui || m.sandbox_gui) {
        Seq::empty()
    } else if m.desktop_exists {
        seq![(Level::Fine, pkg + ": .desktop file present"@)]
    } else {
        seq![(Level::Warning, pkg + ": GUI app but no .desktop file at "@ + m.desktop_path@)]
    }
}

/// What is found of the checksum of a version.
pub open spec fn checksum_finding(pkg: Seq<char>, f: VersionFacts) -> (Level, Seq<char>) {
    let who = pkg_key(pkg, f.version@);
    match f.computed {
        Ok(c) => if c@ == f.stored@ {
            (Level::Fine, who + ": checksum OK"@)
        } else {
            (
                Level::Error,
                who + ": checksum MISMATCH\n    stored:   "@ + shown(f.stored@)
                    + "\n    computed: "@ + shown(c@),
            )
        },
        Err(e) => (Level::Warning, who + ": could not compute checksum: "@ + e@),
    }
}

/// What is found of a version.
pub open spec fn version_findings(
    pkg: Seq<char>,
    in_use: bool,
    f: VersionFacts,
    bin_dir: Seq<char>,
) -> Seq<(Level, Seq<char>)> {
    let who = pkg_key(pkg, f.version@);
    if !f.dir_exists {
        seq![
            (Level::Error, who + ": directory missing from store ("@ + f.dir@ + ")"@),
        ]
    } else if f.mount_error is Some {
        seq![
            (
                Level::Error,
                who + ": could not mount compressed store: "@ + f.mount_error->0@,
            ),
        ]
    } else {
        seq![checksum_finding(pkg, f)] + (match f.manifest {
            Some(m) => wrapper_findings(pkg, f.version@, in_use, m.wrappers@, bin_dir)
                + desktop_finding(pkg, m),
            None => seq![(Level::Warning, who + ": could not read info.hk from store"@)],
        })
    }
}

fn check_checksum(report: &mut Report, pkg: &str, f: &VersionFacts)
    requires
        facts_showable(*f),
    ensures
        final(report)@ == old(report)@ + seq![checksum_finding(pkg@, *f)],
{
    let who = join_pkg_ver(pkg, f.version.as_str());
    match &f.computed {
        Ok(c) => {
            if same(c.as_str(), f.stored.as_str()) {
                report.ok(cat(who.as_str(), ": checksum OK"));
            } else {
                proof {
                    reveal_strlit("");
                    assert(""@ =~= Seq::<char>::empty());
                }
                let stored = shorten(f.stored.as_str(), 12, 12, "");
                let computed = shorten(c.as_str(), 12, 12, "");
                report.error(
                    cat5(
                        who.as_str(),
                        ": checksum MISMATCH\n    stored:   ",
                        stored.as_str(),
                        "\n    computed: ",
                        computed.as_str(),
                    ),
                );
            }
        },
        Err(e) => {
            report.warn(cat3(who.as_str(), ": could not compute checksum: ", e.as_str()));
        },
    }
}

/// Checks a version.
pub fn check_version(report: &mut Report, pkg: &str, in_use: bool, f: &VersionFacts, bin_dir: &str)
    requires
        facts_showable(*f),
    ensures
        final(report)@ == old(report)@ + version_findings(pkg@, in_use, *f, bin_dir@),
{
    let who = join_pkg_ver(pkg, f.version.as_str());
    if !f.dir_exists {
        let mut s = cat3(who.as_str(), ": directory missing from store (", f.dir.as_str());
        s.append(")");
        report.error(s);
        return;
    }
    match &f.mount_error {
        Some(e) => {
            report.error(cat3(who.as_str(), ": could not mount compressed store: ", e.as_str()));
            return;
        },
        None => {},
    }
    check_checksum(report, pkg, f);
    match &f.manifest {
        Some(m) => {
            let ghost first = report@;
            let ghost all = wrapper_findings(pkg@, f.version@, in_use, m.wrappers@, bin_dir@);
            let mut i: usize = 0;
            assert(first + all.take(0) =~= first);
            while i < m.wrappers.len()
                invariant
                    i <= m.wrappers@.len(),
                    all == wrapper_findings(pkg@, f.version@, in_use, m.wrappers@, bin_dir@),
                    report@ == first + all.take(i as int),
                decreases m.wrappers@.len() - i,
            {
                check_wrapper(report, pkg, f.version.as_str(), in_use, &m.wrappers[i], bin_dir);
                proof {
                    assert(all.take(i + 1) =~= all.take(i as int) + seq![all[i as int]]);
                    assert(report@ =~= first + all.take(i + 1));
                }
                i = i + 1;
            }
            assert(all.take(all.len() as int) =~= all);
            if m.is_gui || m.sandbox_gui {
                if m.desktop_exists {
                    report.ok(cat(pkg, ": .desktop file present"));
                } else {
                    report.warn(cat3(pkg, ": GUI app but no .desktop file at ", m.desktop_path.as_str()));
                }
            }
        },
        None => {
            report.warn(cat(who.as_str(), ": could not read info.hk from store"));
        },
    }
    assert(report@ =~= old(report)@ + version_findings(pkg@, in_use, *f, bin_dir@));
}

// ---------------------------------------------------------------------------
// What should not be there
// ---------------------------------------------------------------------------

/// What is found of the directories of the store.
pub open spec fn orphan_findings(
    state: State,
    entries: Seq<Seq<char>>,
    store: Seq<char>,
) -> Seq<(Level, Seq<char>)>
    decreases entries.len(),
{
    if entries.len() == 0 {
        Seq::empty()
    } else {
        let rest = orphan_findings(state, entries.drop_last(), store);
        if state.packages.has_package(entries.last()) {
            rest
        } else {
            rest + seq![
                (
                    Level::Warning,
                    "Store directory "@ + store + "/"@ + entries.last()
                        + " exists but is not in state.json (orphaned store entry)"@,
                ),
            ]
        }
    }
}

/// Looks for directories of the store that belong to no package.
pub fn check_store_entries(report: &mut Report, state: &State, entries: &Vec<String>, store: &str)
    requires
        state.wf(),
    ensures
        final(report)@ == old(report)@ + orphan_findings(*state, strs(entries@), store@),
{
    let ghost first = report@;
    let ghost all = strs(entries@);
    let mut i: usize = 0;
    assert(all.take(0) =~= Seq::<Seq<char>>::empty());
    assert(first + Seq::<(Level, Seq<char>)>::empty() =~= first);
    while i < entries.len()
        invariant
            i <= entries@.len(),
            all == strs(entries@),
            state.wf(),
            report@ == first + orphan_findings(*state, all.take(i as int), store@),
        decreases entries@.len() - i,
    {
        proof {
            let longer = all.take(i + 1);
            assert(longer.drop_last() =~= all.take(i as int));
            assert(longer.last() == entries@[i as int]@);
        }
        if !state.packages.contains(entries[i].as_str()) {
            let s = cat5("Store directory ", store, "/", entries[i].as_str(), " exists but is not in state.json (orphaned store entry)");
            report.warn(s);
            assert(report@ =~= first + orphan_findings(*state, all.take(i + 1), store@));
        }
        i = i + 1;
    }
    assert(all.take(all.len() as int) =~= all);
}

/// The package that a file among the wrappers names, if it is not installed.
pub open spec fn stale_owner(state: State, content: Seq<char>) -> Option<Seq<char>> {
    if !occurs(content, "hpm run "@) {
        None
    } else {
        match first_exec_pkg(lines(content)) {
            Some(p) => if state.packages.has_package(p) {
                None
            } else {
                Some(p)
            },
            None => None,
        }
    }
}

/// The package that a file among the wrappers names, if it is not installed.
pub fn stale_wrapper(state: &State, content: &str) -> (r: Option<String>)
    requires
        state.wf(),
    ensures
        match r {
            Some(p) => stale_owner(*state, content@) == Some(p@),
            None => stale_owner(*state, content@) is None,
        },
{
    if !contains(content, "hpm run ") {
        return None;
    }
    match extract_pkg_from_wrapper(content) {
        Some(p) => {
            if state.packages.contains(p.as_str()) {
                None
            } else {
                Some(p)
            }
        },
        None => None,
    }
}

/// Checks a file among the wrappers.
pub fn check_stale_wrapper(report: &mut Report, state: &State, bin_dir: &str, file: &str, content: &str)
    requires
        state.wf(),
    ensures
        final(report)@ == (match stale_owner(*state, content@) {
            Some(p) => old(report)@ + seq![
                (
                    Level::Warning,
                    bin_dir@ + "/"@ + file@ + ": wrapper references '"@ + p
                        + "' but it is not installed"@,
                ),
            ],
            None => old(report)@,
        }),
{
    match stale_wrapper(state, content) {
        Some(p) => {
            let mut s = cat5(bin_dir, "/", file, ": wrapper references '", p.as_str());
            s.append("' but it is not installed");
            report.warn(s);
        },
        None => {},
    }
}

/// A package in use, with its programs.
#[derive(Debug)]
pub struct Claims {
    pub package: String,
    pub bins: Vec<String>,
}

/// How often a text is among others.
pub open spec fn times(s: Seq<Seq<char>>, x: Seq<char>) -> nat
    decreases s.len(),
{
    if s.len() == 0 {
        0
    } else {
        times(s.drop_last(), x) + if s.last() == x {
            1nat
        } else {
            0
        }
    }
}

/// A package, as often as it claims a program.
pub open spec fn again(name: Seq<char>, n: nat) -> Seq<Seq<char>> {
    Seq::new(n, |i: int| name)
}

/// The packages that claim a program.
pub open spec fn claimants(c: Seq<Claims>, bin: Seq<char>) -> Seq<Seq<char>>
    decreases c.len(),
{
    if c.len() == 0 {
        Seq::empty()
    } else {
        claimants(c.drop_last(), bin) + again(c.last().package@, times(strs(c.last().bins@), bin))
    }
}

/// The packages that claim a program.
pub fn owners_of(claims: &Vec<Claims>, bin: &str) -> (r: Vec<String>)
    ensures
        strs(r@) == claimants(claims@, bin@),
{
    let mut out: Vec<String> = Vec::new();
    let mut i: usize = 0;
    assert(claims@.take(0) =~= Seq::<Claims>::empty());
    assert(strs(out@) =~= Seq::<Seq<char>>::empty());
    while i < claims.len()
        invariant
            i <= claims@.len(),
            strs(out@) == claimants(claims@.take(i as int), bin@),
        decreases claims@.len() - i,
    {
        let ghost first = strs(out@);
        let ghost bins = strs(claims@[i as int].bins@);
        let ghost name = claims@[i as int].package@;
        let mut k: usize = 0;
        assert(bins.take(0) =~= Seq::<Seq<char>>::empty());
        assert(first + again(name, 0) =~= first);
        while k < claims[i].bins.len()
            invariant
                i < claims@.len(),
                k <= bins.len(),
                bins == strs(claims@[i as int].bins@),
                name == claims@[i as int].package@,
                strs(out@) == first + again(name, times(bins.take(k as int), bin@)),
            decreases bins.len() - k,
        {
            proof {
                let longer = bins.take(k + 1);
                assert(longer.drop_last() =~= bins.take(k as int));
                assert(longer.last() == claims@[i as int].bins@[k as int]@);
            }
            if same(claims[i].bins[k].as_str(), bin) {
                let ghost n = times(bins.take(k as int), bin@);
                push_text(&mut out, claims[i].package.clone());
                assert(strs(out@) =~= first + again(name, n + 1));
            }
            k = k + 1;
        }
        proof {
            assert(bins.take(bins.len() as int) =~= bins);
            let longer = claims@.take(i + 1);
            assert(longer.drop_last() =~= claims@.take(i as int));
            assert(longer.last() == claims@[i as int]);
        }
        i = i + 1;
    }
    assert(claims@.take(claims@.len() as int) =~= claims@);
    out
}

/// The programs that packages claim, each once, in the order in which they are
/// claimed first.
pub open spec fn claimed(c: Seq<Claims>) -> Seq<Seq<char>>
    decreases c.len(),
{
    if c.len() == 0 {
        Seq::empty()
    } else {
        merged(claimed(c.drop_last()), strs(c.last().bins@))
    }
}

fn claimed_bins(claims: &Vec<Claims>) -> (r: Vec<String>)
    ensures
        strs(r@) == claimed(claims@),
{
    let mut out: Vec<String> = Vec::new();
    let mut i: usize = 0;
    assert(claims@.take(0) =~= Seq::<Claims>::empty());
    assert(strs(out@) =~= Seq::<Seq<char>>::empty());
    while i < claims.len()
        invariant
            i <= claims@.len(),
            strs(out@) == claimed(claims@.take(i as int)),
        decreases claims@.len() - i,
    {
        proof {
            let longer = claims@.take(i + 1);
            assert(longer.drop_last() =~= claims@.take(i as int));
            assert(longer.last() == claims@[i as int]);
        }
        out = merge_strings(&out, &claims[i].bins);
        i = i + 1;
    }
    assert(claims@.take(claims@.len() as int) =~= claims@);
    out
}

/// What is found of programs that more than one package claims.
pub open spec fn duplicate_findings(
    c: Seq<Claims>,
    bins: Seq<Seq<char>>,
    bin_dir: Seq<char>,
) -> Seq<(Level, Seq<char>)>
    decreases bins.len(),
{
    if bins.len() == 0 {
        Seq::empty()
    } else {
        let rest = duplicate_findings(c, bins.drop_last(), bin_dir);
        let owners = claimants(c, bins.last());
        if owners.len() > 1 {
            rest + seq![
                (
                    Level::Warning,
                    bin_dir + "/"@ + bins.last() + " is claimed by multiple packages: "@ + join_with(
                        owners,
                        ", "@,
                    ),
                ),
            ]
        } else {
            rest
        }
    }
}

/// Looks for programs that more than one package in use claims.
pub fn check_duplicate_wrappers(report: &mut Report, claims: &Vec<Claims>, bin_dir: &str)
    ensures
        final(report)@ == old(report)@ + duplicate_findings(claims@, claimed(claims@), bin_dir@),
{
    let bins = claimed_bins(claims);
    let ghost first = report@;
    let ghost all = strs(bins@);
    let mut i: usize = 0;
    assert(all.take(0) =~= Seq::<Seq<char>>::empty());
    assert(first + Seq::<(Level, Seq<char>)>::empty() =~= first);
    while i < bins.len()
        invariant
            i <= bins@.len(),
            all == strs(bins@),
            report@ == first + duplicate_findings(claims@, all.take(i as int), bin_dir@),
        decreases bins@.len() - i,
    {
        proof {
            let longer = all.take(i + 1);
            assert(longer.drop_last() =~= all.take(i as int));
            assert(longer.last() == bins@[i as int]@);
        }
        let owners = owners_of(claims, bins[i].as_str());
        assert(strs(owners@).len() == owners@.len());
        if owners.len() > 1 {
            let list = join_strings(&owners, ", ");
            report.warn(
                cat5(bin_dir, "/", bins[i].as_str(), " is claimed by multiple packages: ", list.as_str()),
            );
            assert(report@ =~= first + duplicate_findings(claims@, all.take(i + 1), bin_dir@));
        }
        i = i + 1;
    }
    assert(all.take(all.len() as int) =~= all);
}

// ---------------------------------------------------------------------------
// Everything
// ---------------------------------------------------------------------------

/// What is there of a package.
#[derive(Debug)]
pub struct PackageFacts {
    pub name: String,
    pub link: LinkFacts,
    pub versions: Vec<VersionFacts>,
}

/// A file among the wrappers.
#[derive(Debug)]
pub struct WrapperFile {
    pub name: String,
    /// What it holds; empty where it cannot be read.
    pub content: String,
}

/// What is there.
#[derive(Debug)]
pub struct Facts {
    pub db_exists: bool,
    pub store_exists: bool,
    pub store: String,
    pub bin_dir: String,
    pub packages: Vec<PackageFacts>,
    /// What is in the store.
    pub entries: Vec<String>,
    /// What is among the wrappers.
    pub wrappers: Vec<WrapperFile>,
    /// What the packages in use claim.
    pub claims: Vec<Claims>,
}

/// Whether a version is the one that the link leads to.
pub open spec fn linked(link: LinkFacts, version: Seq<char>) -> bool {
    link matches LinkFacts::To(v) && v@ == version
}

/// What is found of the versions of a package.
pub open spec fn versions_findings(
    pkg: Seq<char>,
    link: LinkFacts,
    v: Seq<VersionFacts>,
    bin_dir: Seq<char>,
) -> Seq<(Level, Seq<char>)>
    decreases v.len(),
{
    if v.len() == 0 {
        Seq::empty()
    } else {
        versions_findings(pkg, link, v.drop_last(), bin_dir) + version_findings(
            pkg,
            linked(link, v.last().version@),
            v.last(),
            bin_dir,
        )
    }
}

/// What is found of packages.
pub open spec fn package_findings(p: Seq<PackageFacts>, bin_dir: Seq<char>) -> Seq<(Level, Seq<char>)>
    decreases p.len(),
{
    if p.len() == 0 {
        Seq::empty()
    } else {
        package_findings(p.drop_last(), bin_dir) + seq![link_finding(p.last().name@, p.last().link)]
            + versions_findings(p.last().name@, p.last().link, p.last().versions@, bin_dir)
    }
}

/// What is found of files among the wrappers.
pub open spec fn stale_findings(
    state: State,
    files: Seq<WrapperFile>,
    bin_dir: Seq<char>,
) -> Seq<(Level, Seq<char>)>
    decreases files.len(),
{
    if files.len() == 0 {
        Seq::empty()
    } else {
        let rest = stale_findings(state, files.drop_last(), bin_dir);
        match stale_owner(state, files.last().content@) {
            Some(p) => rest + seq![
                (
                    Level::Warning,
                    bin_dir + "/"@ + files.last().name@ + ": wrapper references '"@ + p
                        + "' but it is not installed"@,
                ),
            ],
            None => rest,
        }
    }
}

/// Everything that is found.
pub open spec fn all_findings(state: State, f: Facts) -> Seq<(Level, Seq<char>)> {
    base_findings(f.db_exists, f.store_exists, f.store@) + package_findings(f.packages@, f.bin_dir@)
        + orphan_findings(state, strs(f.entries@), f.store@) + stale_findings(
        state,
        f.wrappers@,
        f.bin_dir@,
    ) + duplicate_findings(f.claims@, claimed(f.claims@), f.bin_dir@)
}

/// Whether every checksum can be shown.
pub open spec fn all_showable(f: Facts) -> bool {
    forall|i: int, j: int|
        0 <= i < f.packages@.len() && 0 <= j < f.packages@[i].versions@.len() ==> facts_showable(
            #[trigger] f.packages@[i].versions@[j],
        )
}

fn check_versions(report: &mut Report, p: &PackageFacts, bin_dir: &str)
    requires
        forall|j: int| 0 <= j < p.versions@.len() ==> facts_showable(#[trigger] p.versions@[j]),
    ensures
        final(report)@ == old(report)@ + versions_findings(p.name@, p.link, p.versions@, bin_dir@),
{
    let ghost first = report@;
    let ghost all = p.versions@;
    let mut i: usize = 0;
    assert(all.take(0) =~= Seq::<VersionFacts>::empty());
    assert(first + Seq::<(Level, Seq<char>)>::empty() =~= first);
    while i < p.versions.len()
        invariant
            i <= p.versions@.len(),
            all == p.versions@,
            forall|j: int| 0 <= j < p.versions@.len() ==> facts_showable(#[trigger] p.versions@[j]),
            report@ == first + versions_findings(p.name@, p.link, all.take(i as int), bin_dir@),
        decreases p.versions@.len() - i,
    {
        let v = &p.versions[i];
        let in_use = match &p.link {
            LinkFacts::To(t) => same(t.as_str(), v.version.as_str()),
            _ => false,
        };
        proof {
            let longer = all.take(i + 1);
            assert(longer.drop_last() =~= all.take(i as int));
            assert(longer.last() == *v);
        }
        check_version(report, p.name.as_str(), in_use, v, bin_dir);
        assert(report@ =~= first + versions_findings(p.name@, p.link, all.take(i + 1), bin_dir@));
        i = i + 1;
    }
    assert(all.take(all.len() as int) =~= all);
}

fn check_packages(report: &mut Report, f: &Facts)
    requires
        all_showable(*f),
    ensures
        final(report)@ == old(report)@ + package_findings(f.packages@, f.bin_dir@),
{
    let ghost first = report@;
    let ghost all = f.packages@;
    let mut i: usize = 0;
    assert(all.take(0) =~= Seq::<PackageFacts>::empty());
    assert(first + Seq::<(Level, Seq<char>)>::empty() =~= first);
    while i < f.packages.len()
        invariant
            i <= f.packages@.len(),
            all == f.packages@,
            all_showable(*f),
            report@ == first + package_findings(all.take(i as int), f.bin_dir@),
        decreases f.packages@.len() - i,
    {
        let p = &f.packages[i];
        proof {
            let longer = all.take(i + 1);
            assert(longer.drop_last() =~= all.take(i as int));
            assert(longer.last() == *p);
            assert forall|j: int| 0 <= j < p.versions@.len() implies facts_showable(
                #[trigger] p.versions@[j],
            ) by {
                assert(f.packages@[i as int].versions@[j] == p.versions@[j]);
            }
        }
        check_link(report, p.name.as_str(), &p.link);
        check_versions(report, p, f.bin_dir.as_str());
        assert(report@ =~= first + package_findings(all.take(i + 1), f.bin_dir@));
        i = i + 1;
    }
    assert(all.take(all.len() as int) =~= all);
}

fn check_wrapper_files(report: &mut Report, state: &State, f: &Facts)
    requires
        state.wf(),
    ensures
        final(report)@ == old(report)@ + stale_findings(*state, f.wrappers@, f.bin_dir@),
{
    let ghost first = report@;
    let ghost all = f.wrappers@;
    let mut i: usize = 0;
    assert(all.take(0) =~= Seq::<WrapperFile>::empty());
    assert(first + Seq::<(Level, Seq<char>)>::empty() =~= first);
    while i < f.wrappers.len()
        invariant
            i <= f.wrappers@.len(),
            all == f.wrappers@,
            state.wf(),
            report@ == first + stale_findings(*state, all.take(i as int), f.bin_dir@),
        decreases f.wrappers@.len() - i,
    {
        let w = &f.wrappers[i];
        proof {
            let longer = all.take(i + 1);
            assert(longer.drop_last() =~= all.take(i as int));
            assert(longer.last() == *w);
        }
        check_stale_wrapper(report, state, f.bin_dir.as_str(), w.name.as_str(), w.content.as_str());
        assert(report@ =~= first + stale_findings(*state, all.take(i + 1), f.bin_dir@));
        i = i + 1;
    }
    assert(all.take(all.len() as int) =~= all);
}

/// Checks an installation, given what is there.
pub fn diagnose(state: &State, facts: &Facts) -> (r: Report)
    requires
        state.wf(),
        all_showable(*facts),
    ensures
        r@ == all_findings(*state, *facts),
{
    let mut report = Report::new();
    check_base(&mut report, facts.db_exists, facts.store_exists, facts.store.as_str());
    check_packages(&mut report, facts);
    check_store_entries(&mut report, state, &facts.entries, facts.store.as_str());
    check_wrapper_files(&mut report, state, facts);
    check_duplicate_wrappers(&mut report, &facts.claims, facts.bin_dir.as_str());
    assert(report@ =~= all_findings(*state, *facts));
    report
}

// ---------------------------------------------------------------------------
// Putting it right
// ---------------------------------------------------------------------------

/// The version that a package without a version in use is to use: the newest
/// that is installed.
pub fn version_to_link(state: &State, pkg: &str) -> (r: Option<String>)
    requires
        state.wf(),
    ensures
        match r {
            Some(v) => newest(versions_in(state.packages.all(), pkg@)) == Some(v@),
            None => versions_in(state.packages.all(), pkg@).len() == 0,
        },
{
    let versions = state.packages.versions_of(pkg);
    assert(strs(versions@).len() == versions@.len());
    newest_version(&versions)
}

/// Whether a wrapper must be written anew: it is missing, or it does not call
/// its package.
pub fn wrapper_needs_repair(exists_there: bool, content: &str, pkg: &str) -> (r: bool)
    ensures
        r == (!exists_there || !calls(content@, pkg@)),
{
    !exists_there || !calls_package(content, pkg)
}

/// The program that a wrapper is written anew for: where the manifest says it
/// is, if it is there; where the manifest does not say, where it is found.
pub open spec fn repair_place(
    manifest: Manifest,
    bin: Seq<char>,
    explicit_exists: bool,
    in_bin: bool,
    at_top: bool,
    files: Seq<Seq<char>>,
) -> Option<Seq<char>> {
    match pair_value(map_pairs(manifest.bin_paths), bin) {
        Some(p) => if explicit_exists {
            Some(p)
        } else {
            None
        },
        None => binary_place(in_bin, at_top, files, bin),
    }
}

/// Finds the program that a wrapper is written anew for.
pub fn repair_path(
    manifest: &Manifest,
    bin_name: &str,
    explicit_exists: bool,
    in_bin: bool,
    at_top: bool,
    files: &Vec<String>,
) -> (r: Option<String>)
    ensures
        match r {
            Some(p) => repair_place(
                *manifest,
                bin_name@,
                explicit_exists,
                in_bin,
                at_top,
                strs(files@),
            ) == Some(p@),
            None => repair_place(
                *manifest,
                bin_name@,
                explicit_exists,
                in_bin,
                at_top,
                strs(files@),
            ) is None,
        },
{
    match map_get(&manifest.bin_paths, bin_name) {
        Some(p) => if explicit_exists {
            Some(p.clone())
        } else {
            None
        },
        None => find_binary_in_dir(in_bin, at_top, files, bin_name),
    }
}

/// The link to the version in use of a package.
#[derive(Debug)]
pub struct RepairLink {
    pub package: String,
    /// Whether it leads anywhere.
    pub leads_somewhere: bool,
    /// The versions whose files are there.
    pub present: Vec<String>,
}

/// The links that are to be made: to the newest version that is installed, where
/// a link leads nowhere and the files of that version are there.
pub open spec fn new_links(state: State, links: Seq<RepairLink>) -> Seq<(Seq<char>, Seq<char>)>
    decreases links.len(),
{
    if links.len() == 0 {
        Seq::empty()
    } else {
        let rest = new_links(state, links.drop_last());
        let l = links.last();
        match newest(versions_in(state.packages.all(), l.package@)) {
            Some(v) => if !l.leads_somewhere && strs(l.present@).contains(v) {
                rest.push((l.package@, v))
            } else {
                rest
            },
            None => rest,
        }
    }
}

/// The links that a repair makes, each from a package to a version.
pub fn links_to_make(state: &State, links: &Vec<RepairLink>) -> (r: Vec<(String, String)>)
    requires
        state.wf(),
    ensures
        pair_texts(r@) == new_links(*state, links@),
{
    let mut out: Vec<(String, String)> = Vec::new();
    let mut i: usize = 0;
    assert(links@.take(0) =~= Seq::<RepairLink>::empty());
    assert(pair_texts(out@) =~= Seq::<(Seq<char>, Seq<char>)>::empty());
    while i < links.len()
        invariant
            i <= links@.len(),
            state.wf(),
            pair_texts(out@) == new_links(*state, links@.take(i as int)),
        decreases links@.len() - i,
    {
        let l = &links[i];
        proof {
            let longer = links@.take(i + 1);
            assert(longer.drop_last() =~= links@.take(i as int));
            assert(longer.last() == *l);
        }
        match version_to_link(state, l.package.as_str()) {
            Some(v) => {
                if !l.leads_somewhere && has_string(&l.present, v.as_str()) {
                    let ghost before = out@;
                    let entry = (l.package.clone(), v);
                    out.push(entry);
                    assert(pair_texts(out@) =~= pair_texts(before).push((l.package@, entry.1@)));
                }
            },
            None => {},
        }
        i = i + 1;
    }
    assert(links@.take(links@.len() as int) =~= links@);
    out
}

/// What is there of a program whose wrapper may need repair.
#[derive(Debug)]
pub struct ProgramFacts {
    pub name: String,
    /// Whether there is a file under the wrapper's name.
    pub wrapper_exists: bool,
    /// What that file holds.
    pub wrapper_content: String,
    /// Whether the program is where the manifest says.
    pub explicit_exists: bool,
    /// Whether it is in the directory `bin`.
    pub in_bin: bool,
    /// Whether it is at the top.
    pub at_top: bool,
}

/// What a repair does about the wrapper of a program.
#[derive(Debug)]
pub enum WrapperRepair {
    /// Nothing: it is in order.
    InOrder,
    /// Write it anew, with this content.
    Write(String),
    /// Nothing can be done: the program is not there.
    ProgramMissing,
}

/// Decides what a repair does about the wrapper of a program of the version in
/// use.
pub fn repair_wrapper(
    exe: &str,
    package: &str,
    manifest: &Manifest,
    program: &ProgramFacts,
    files: &Vec<String>,
) -> (r: WrapperRepair)
    ensures
        ({
            let place = repair_place(
                *manifest,
                program.name@,
                program.explicit_exists,
                program.in_bin,
                program.at_top,
                strs(files@),
            );
            if program.wrapper_exists && calls(program.wrapper_content@, package@) {
                r is InOrder
            } else {
                match place {
                    Some(rel) => r matches WrapperRepair::Write(c) && c@ == wrapper_script(
                        exe@,
                        package@,
                        rel,
                    ),
                    None => r is ProgramMissing,
                }
            }
        }),
{
    if !wrapper_needs_repair(program.wrapper_exists, program.wrapper_content.as_str(), package) {
        return WrapperRepair::InOrder;
    }
    match repair_path(
        manifest,
        program.name.as_str(),
        program.explicit_exists,
        program.in_bin,
        program.at_top,
        files,
    ) {
        Some(rel) => WrapperRepair::Write(wrapper_content(exe, package, rel.as_str())),
        None => WrapperRepair::ProgramMissing,
    }
}

/// The wrappers of packages that are not installed, each with its package.
pub open spec fn stale_wrappers(state: State, files: Seq<WrapperFile>) -> Seq<(Seq<char>, Seq<char>)>
    decreases files.len(),
{
    if files.len() == 0 {
        Seq::empty()
    } else {
        let rest = stale_wrappers(state, files.drop_last());
        match stale_owner(state, files.last().content@) {
            Some(p) => rest.push((files.last().name@, p)),
            None => rest,
        }
    }
}

/// The wrappers that a repair removes, each with the package that it is for.
pub fn wrappers_to_remove(state: &State, files: &Vec<WrapperFile>) -> (r: Vec<(String, String)>)
    requires
        state.wf(),
    ensures
        pair_texts(r@) == stale_wrappers(*state, files@),
{
    let mut out: Vec<(String, String)> = Vec::new();
    let mut i: usize = 0;
    assert(files@.take(0) =~= Seq::<WrapperFile>::empty());
    assert(pair_texts(out@) =~= Seq::<(Seq<char>, Seq<char>)>::empty());
    while i < files.len()
        invariant
            i <= files@.len(),
            state.wf(),
            pair_texts(out@) == stale_wrappers(*state, files@.take(i as int)),
        decreases files@.len() - i,
    {
        let f = &files[i];
        proof {
            let longer = files@.take(i + 1);
            assert(longer.drop_last() =~= files@.take(i as int));
            assert(longer.last() == *f);
        }
        match stale_wrapper(state, f.content.as_str()) {
            Some(p) => {
                let ghost before = out@;
                let entry = (f.name.clone(), p);
                out.push(entry);
                assert(pair_texts(out@) =~= pair_texts(before).push((f.name@, entry.1@)));
            },
            None => {},
        }
        i = i + 1;
    }
    assert(files@.take(files@.len() as int) =~= files@);
    out
}

/// Whether a repair puts a package back on the desktop.
pub fn needs_desktop_entry(manifest: &Manifest, entry_exists: bool) -> (r: bool)
    ensures
        r == ((manifest@.is_gui || manifest@.sandbox.gui || manifest@.sandbox.full_gui) && !entry_exists),
{
    manifest.has_window() && !entry_exists
}

/// What is said at the end of a repair.
pub fn repair_summary(fixed: usize) -> (r: String)
    ensures
        r@ == (if fixed == 0 {
            "Nothing needed repair."@
        } else {
            "Repaired "@ + decimal(fixed as nat) + " issue(s)."@
        }),
{
    if fixed == 0 {
        "Nothing needed repair.".to_owned()
    } else {
        let n = to_decimal(fixed as u64);
        cat3("Repaired ", n.as_str(), " issue(s).")
    }
}

// ---------------------------------------------------------------------------
// Laws
// ---------------------------------------------------------------------------

/// A wrapper that was written needs no repair.
pub proof fn written_wrapper_needs_no_repair(exe: Seq<char>, pkg: Seq<char>, rel: Seq<char>)
    requires
        has_suffix(exe, "hpm"@),
    ensures
        calls(wrapper_script(exe, pkg, rel), pkg),
{
    reveal_strlit("#!/bin/sh\nexec ");
    reveal_strlit(" run ");
    reveal_strlit(" ");
    reveal_strlit("hpm run ");
    reveal_strlit("hpm");
    let script = wrapper_script(exe, pkg, rel);
    let call = call_of(pkg);
    let at = 15 + exe.len() - 3;
    assert(exe.skip(exe.len() - 3) == "hpm"@);
    let got = script.skip(at).take(call.len() as int);
    assert forall|i: int| 0 <= i < call.len() implies got[i] == call[i] by {
        let e = exe.skip(exe.len() - 3);
        if i < 3 {
            assert(got[i] == e[i]);
            assert(e[0] == 'h' && e[1] == 'p' && e[2] == 'm');
        } else if i >= 8 && i < 8 + pkg.len() {
            assert(got[i] == pkg[i - 8]);
        }
    }
    assert(got =~= call);
    assert(has_prefix(script.skip(at), call));
}

/// A wrapper that was written is stale exactly if its package is not installed.
pub proof fn written_wrapper_is_stale_iff_removed(state: State, exe: Seq<char>, pkg: Seq<char>, rel: Seq<char>)
    requires
        is_word(exe),
        is_word(pkg),
        is_word(rel),
        has_suffix(exe, "hpm"@),
    ensures
        stale_owner(state, wrapper_script(exe, pkg, rel)) == (if state.packages.has_package(pkg) {
            None
        } else {
            Some(pkg)
        }),
{
    written_wrapper_is_recognised(exe, pkg, rel);
}

/// Whether one of the findings is of a level.
pub open spec fn has_level(r: Seq<(Level, Seq<char>)>, level: Level) -> bool {
    exists|i: int| 0 <= i < r.len() && (#[trigger] r[i]).0 == level
}

proof fn level_of_both(a: Seq<(Level, Seq<char>)>, b: Seq<(Level, Seq<char>)>, level: Level)
    ensures
        has_level(a + b, level) <==> has_level(a, level) || has_level(b, level),
{
    let s = a + b;
    if has_level(s, level) {
        let i = choose|i: int| 0 <= i < s.len() && (#[trigger] s[i]).0 == level;
        if i < a.len() {
            assert(a[i].0 == level);
        } else {
            assert(b[i - a.len()].0 == level);
        }
    }
    if has_level(a, level) {
        let i = choose|i: int| 0 <= i < a.len() && (#[trigger] a[i]).0 == level;
        assert(s[i].0 == level);
    }
    if has_level(b, level) {
        let i = choose|i: int| 0 <= i < b.len() && (#[trigger] b[i]).0 == level;
        assert(s[a.len() + i].0 == level);
    }
}

/// The texts of a level are those of the findings of the level, in their order.
pub proof fn texts_are_those_of_the_level(
    a: Seq<(Level, Seq<char>)>,
    b: Seq<(Level, Seq<char>)>,
    level: Level,
    text: Seq<char>,
)
    ensures
        of_level(a + b, level) == of_level(a, level) + of_level(b, level),
        of_level(a, level).contains(text) <==> a.contains((level, text)),
        of_level(a, level).len() > 0 <==> has_level(a, level),
    decreases a.len() + b.len(),
{
    if b.len() > 0 {
        texts_are_those_of_the_level(a, b.drop_last(), level, text);
        assert((a + b).drop_last() =~= a + b.drop_last());
        assert((a + b).last() == b.last());
        assert(of_level(a + b, level) =~= of_level(a, level) + of_level(b, level));
    } else {
        assert(a + b =~= a);
        assert(of_level(a + b, level) =~= of_level(a, level) + of_level(b, level));
        if a.len() > 0 {
            let t = a.drop_last();
            let last = a.last();
            texts_are_those_of_the_level(t, b, level, text);
            assert(a =~= t.push(last));
            lemma_seq_contains_after_push(t, last, (level, text));
            lemma_seq_concat_contains_all_elements(of_level(t, level), seq![last.1], text);
            assert(seq![last.1][0] == last.1);
            assert(t + seq![last] =~= a);
            level_of_both(t, seq![last], level);
            assert(seq![last][0] == last);
            if last.0 == level {
                assert(has_level(seq![last], level));
            }
        }
    }
}

/// Whether something of an installed version is broken: its files are missing, cannot be
/// mounted or are not what was installed, or a program of the version in use cannot be
/// called.
pub open spec fn is_broken(in_use: bool, f: VersionFacts) -> bool {
    ||| !f.dir_exists
    ||| f.mount_error is Some
    ||| f.computed matches Ok(c) && c@ != f.stored@
    ||| f.manifest matches Some(m) && in_use && exists|k: int|
        0 <= k < m.wrappers@.len() && is_missing(#[trigger] m.wrappers@[k])
}

/// Whether something of an installed version is doubtful, though its files are there.
pub open spec fn is_doubtful(pkg: Seq<char>, in_use: bool, f: VersionFacts) -> bool {
    &&& f.dir_exists
    &&& f.mount_error is None
    &&& {
        ||| f.computed is Err
        ||| f.manifest is None
        ||| f.manifest matches Some(m) && (m.is_gui || m.sandbox_gui) && !m.desktop_exists
        ||| f.manifest matches Some(m) && exists|k: int|
            0 <= k < m.wrappers@.len() && is_odd(pkg, in_use, #[trigger] m.wrappers@[k])
    }
}

proof fn level_of_one(x: (Level, Seq<char>), level: Level)
    ensures
        has_level(seq![x], level) <==> x.0 == level,
{
    let s = seq![x];
    assert(s[0] == x);
    if has_level(s, level) {
        let i = choose|i: int| 0 <= i < s.len() && (#[trigger] s[i]).0 == level;
        assert(i == 0);
    }
}

/// Whether a program cannot be called: neither under its name nor under the other one.
pub open spec fn is_missing(w: WrapperFacts) -> bool {
    !w.exists_there && !w.other_exists
}

/// Whether a wrapper is not what it should be, or is missing where that does no harm.
pub open spec fn is_odd(pkg: Seq<char>, in_use: bool, w: WrapperFacts) -> bool {
    if w.exists_there {
        !occurs(w.content@, "hpm run "@ + pkg + " "@)
    } else {
        w.other_exists || !in_use
    }
}

proof fn wrapper_levels(pkg: Seq<char>, version: Seq<char>, in_use: bool, m: Seq<WrapperFacts>, bin_dir: Seq<char>)
    ensures
        has_level(wrapper_findings(pkg, version, in_use, m, bin_dir), Level::Error) <==> in_use && exists|k: int|
            0 <= k < m.len() && is_missing(#[trigger] m[k]),
        has_level(wrapper_findings(pkg, version, in_use, m, bin_dir), Level::Warning) <==> exists|k: int|
            0 <= k < m.len() && is_odd(pkg, in_use, #[trigger] m[k]),
{
    let w = wrapper_findings(pkg, version, in_use, m, bin_dir);
    assert forall|k: int| 0 <= k < w.len() implies ((#[trigger] w[k]).0 == Level::Error <==> in_use && is_missing(m[k]))
        && (w[k].0 == Level::Warning <==> is_odd(pkg, in_use, m[k])) by {
        assert(w[k] == wrapper_finding(pkg, version, in_use, m[k], bin_dir));
    }
    if has_level(w, Level::Error) {
        let k = choose|k: int| 0 <= k < w.len() && (#[trigger] w[k]).0 == Level::Error;
        assert(is_missing(m[k]));
    }
    if has_level(w, Level::Warning) {
        let k = choose|k: int| 0 <= k < w.len() && (#[trigger] w[k]).0 == Level::Warning;
        assert(is_odd(pkg, in_use, m[k]));
    }
    if in_use && exists|k: int| 0 <= k < m.len() && is_missing(#[trigger] m[k]) {
        let k = choose|k: int| 0 <= k < m.len() && is_missing(#[trigger] m[k]);
        assert(w[k].0 == Level::Error);
    }
    if exists|k: int| 0 <= k < m.len() && is_odd(pkg, in_use, #[trigger] m[k]) {
        let k = choose|k: int| 0 <= k < m.len() && is_odd(pkg, in_use, #[trigger] m[k]);
        assert(w[k].0 == Level::Warning);
    }
}

proof fn desktop_levels(pkg: Seq<char>, m: ManifestFacts)
    ensures
        !has_level(desktop_finding(pkg, m), Level::Error),
        has_level(desktop_finding(pkg, m), Level::Warning) <==> (m.is_gui || m.sandbox_gui) && !m.desktop_exists,
{
    level_of_one((Level::Fine, pkg + ": .desktop file present"@), Level::Error);
    level_of_one((Level::Fine, pkg + ": .desktop file present"@), Level::Warning);
    let x = (Level::Warning, pkg + ": GUI app but no .desktop file at "@ + m.desktop_path@);
    level_of_one(x, Level::Error);
    level_of_one(x, Level::Warning);
}

proof fn version_levels(pkg: Seq<char>, in_use: bool, f: VersionFacts, bin_dir: Seq<char>)
    ensures
        has_level(version_findings(pkg, in_use, f, bin_dir), Level::Error) <==> is_broken(in_use, f),
        has_level(version_findings(pkg, in_use, f, bin_dir), Level::Warning) <==> is_doubtful(pkg, in_use, f),
{
    let all = version_findings(pkg, in_use, f, bin_dir);
    if !f.dir_exists || f.mount_error is Some {
        assert(all =~= seq![all[0]]);
        level_of_one(all[0], Level::Error);
        level_of_one(all[0], Level::Warning);
    } else {
        let x = checksum_finding(pkg, f);
        level_of_one(x, Level::Error);
        level_of_one(x, Level::Warning);
        let a = seq![x];
        match f.manifest {
            Some(m) => {
                let w = wrapper_findings(pkg, f.version@, in_use, m.wrappers@, bin_dir);
                let d = desktop_finding(pkg, m);
                assert(all == a + (w + d));
                level_of_both(a, w + d, Level::Error);
                level_of_both(w, d, Level::Error);
                level_of_both(a, w + d, Level::Warning);
                level_of_both(w, d, Level::Warning);
                wrapper_levels(pkg, f.version@, in_use, m.wrappers@, bin_dir);
                desktop_levels(pkg, m);
            },
            None => {
                let y = (Level::Warning, pkg_key(pkg, f.version@) + ": could not read info.hk from store"@);
                assert(all == a + seq![y]);
                level_of_one(y, Level::Error);
                level_of_one(y, Level::Warning);
                level_of_both(a, seq![y], Level::Error);
                level_of_both(a, seq![y], Level::Warning);
            },
        }
    }
}

proof fn versions_levels(pkg: Seq<char>, link: LinkFacts, v: Seq<VersionFacts>, bin_dir: Seq<char>)
    ensures
        has_level(versions_findings(pkg, link, v, bin_dir), Level::Error) <==> exists|j: int|
            0 <= j < v.len() && is_broken(linked(link, v[j].version@), #[trigger] v[j]),
        has_level(versions_findings(pkg, link, v, bin_dir), Level::Warning) <==> exists|j: int|
            0 <= j < v.len() && is_doubtful(pkg, linked(link, v[j].version@), #[trigger] v[j]),
    decreases v.len(),
{
    if v.len() > 0 {
        let t = v.drop_last();
        let last = v[v.len() - 1];
        versions_levels(pkg, link, t, bin_dir);
        let a = versions_findings(pkg, link, t, bin_dir);
        let b = version_findings(pkg, linked(link, last.version@), last, bin_dir);
        level_of_both(a, b, Level::Error);
        level_of_both(a, b, Level::Warning);
        version_levels(pkg, linked(link, last.version@), last, bin_dir);
        assert(forall|j: int| 0 <= j < t.len() ==> t[j] == #[trigger] v[j]);
        assert forall|j: int| 0 <= j < t.len() implies #[trigger] t[j] == v[j] by {}
    }
}

proof fn package_levels(p: Seq<PackageFacts>, bin_dir: Seq<char>)
    ensures
        has_level(package_findings(p, bin_dir), Level::Error) <==> exists|i: int|
            0 <= i < p.len() && package_broken(#[trigger] p[i]),
        has_level(package_findings(p, bin_dir), Level::Warning) <==> exists|i: int|
            0 <= i < p.len() && package_doubtful(#[trigger] p[i]),
    decreases p.len(),
{
    if p.len() > 0 {
        let t = p.drop_last();
        let last = p[p.len() - 1];
        package_levels(t, bin_dir);
        let a = package_findings(t, bin_dir);
        let b = seq![link_finding(last.name@, last.link)];
        let c = versions_findings(last.name@, last.link, last.versions@, bin_dir);
        assert(b[0] == link_finding(last.name@, last.link));
        level_of_both(a + b, c, Level::Error);
        level_of_both(a, b, Level::Error);
        level_of_both(a + b, c, Level::Warning);
        level_of_both(a, b, Level::Warning);
        versions_levels(last.name@, last.link, last.versions@, bin_dir);
        assert forall|i: int| 0 <= i < t.len() implies #[trigger] t[i] == p[i] by {}
        assert(forall|i: int| 0 <= i < t.len() ==> t[i] == #[trigger] p[i]);
    }
}

/// Whether something of a package is broken: its link, or one of its versions.
pub open spec fn package_broken(p: PackageFacts) -> bool {
    !(p.link is To) || exists|j: int|
        0 <= j < p.versions@.len() && is_broken(
            p.link is To && (p.link->To_0)@ == p.versions@[j].version@,
            #[trigger] p.versions@[j],
        )
}

/// Whether something of a package is doubtful.
pub open spec fn package_doubtful(p: PackageFacts) -> bool {
    exists|j: int|
        0 <= j < p.versions@.len() && is_doubtful(
            p.name@,
            p.link is To && (p.link->To_0)@ == p.versions@[j].version@,
            #[trigger] p.versions@[j],
        )
}

proof fn orphan_levels(state: State, entries: Seq<Seq<char>>, store: Seq<char>)
    ensures
        !has_level(orphan_findings(state, entries, store), Level::Error),
        has_level(orphan_findings(state, entries, store), Level::Warning) <==> exists|i: int|
            0 <= i < entries.len() && !state.packages.has_package(#[trigger] entries[i]),
    decreases entries.len(),
{
    if entries.len() > 0 {
        let t = entries.drop_last();
        let last = entries[entries.len() - 1];
        orphan_levels(state, t, store);
        let b = seq![
            (
                Level::Warning,
                "Store directory "@ + store + "/"@ + last
                    + " exists but is not in state.json (orphaned store entry)"@,
            ),
        ];
        assert(b[0].0 == Level::Warning);
        level_of_both(orphan_findings(state, t, store), b, Level::Error);
        level_of_both(orphan_findings(state, t, store), b, Level::Warning);
        assert forall|i: int| 0 <= i < t.len() implies #[trigger] t[i] == entries[i] by {}
        assert(forall|i: int| 0 <= i < t.len() ==> t[i] == #[trigger] entries[i]);
    }
}

proof fn stale_levels(state: State, files: Seq<WrapperFile>, bin_dir: Seq<char>)
    ensures
        !has_level(stale_findings(state, files, bin_dir), Level::Error),
        has_level(stale_findings(state, files, bin_dir), Level::Warning) <==> exists|i: int|
            0 <= i < files.len() && stale_owner(state, (#[trigger] files[i]).content@) is Some,
    decreases files.len(),
{
    if files.len() > 0 {
        let t = files.drop_last();
        let last = files[files.len() - 1];
        stale_levels(state, t, bin_dir);
        if let Some(p) = stale_owner(state, last.content@) {
            let b = seq![
                (
                    Level::Warning,
                    bin_dir + "/"@ + last.name@ + ": wrapper references '"@ + p + "' but it is not installed"@,
                ),
            ];
            assert(b[0].0 == Level::Warning);
            level_of_both(stale_findings(state, t, bin_dir), b, Level::Error);
            level_of_both(stale_findings(state, t, bin_dir), b, Level::Warning);
        }
        assert forall|i: int| 0 <= i < t.len() implies #[trigger] t[i] == files[i] by {}
        assert(forall|i: int| 0 <= i < t.len() ==> t[i] == #[trigger] files[i]);
    }
}

proof fn duplicate_levels(c: Seq<Claims>, bins: Seq<Seq<char>>, bin_dir: Seq<char>)
    ensures
        !has_level(duplicate_findings(c, bins, bin_dir), Level::Error),
        has_level(duplicate_findings(c, bins, bin_dir), Level::Warning) <==> exists|i: int|
            0 <= i < bins.len() && claimants(c, #[trigger] bins[i]).len() > 1,
    decreases bins.len(),
{
    if bins.len() > 0 {
        let t = bins.drop_last();
        let last = bins[bins.len() - 1];
        duplicate_levels(c, t, bin_dir);
        let b = seq![
            (
                Level::Warning,
                bin_dir + "/"@ + last + " is claimed by multiple packages: "@ + join_with(
                    claimants(c, last),
                    ", "@,
                ),
            ),
        ];
        assert(b[0].0 == Level::Warning);
        level_of_both(duplicate_findings(c, t, bin_dir), b, Level::Error);
        level_of_both(duplicate_findings(c, t, bin_dir), b, Level::Warning);
        assert forall|i: int| 0 <= i < t.len() implies #[trigger] t[i] == bins[i] by {}
        assert(forall|i: int| 0 <= i < t.len() ==> t[i] == #[trigger] bins[i]);
    }
}

/// An error is reported exactly where a package is broken: its link leads nowhere, or the
/// files of one of its versions are missing, cannot be mounted or are not what was
/// installed, or a program of the version in use cannot be called.
pub proof fn errors_mean_broken_packages(state: State, f: Facts)
    ensures
        has_level(all_findings(state, f), Level::Error) <==> exists|i: int|
            0 <= i < f.packages@.len() && package_broken(#[trigger] f.packages@[i]),
{
    let a = base_findings(f.db_exists, f.store_exists, f.store@);
    let b = package_findings(f.packages@, f.bin_dir@);
    let c = orphan_findings(state, strs(f.entries@), f.store@);
    let d = stale_findings(state, f.wrappers@, f.bin_dir@);
    let e = duplicate_findings(f.claims@, claimed(f.claims@), f.bin_dir@);
    level_of_both(a + b + c + d, e, Level::Error);
    level_of_both(a + b + c, d, Level::Error);
    level_of_both(a + b, c, Level::Error);
    level_of_both(a, b, Level::Error);
    package_levels(f.packages@, f.bin_dir@);
    orphan_levels(state, strs(f.entries@), f.store@);
    stale_levels(state, f.wrappers@, f.bin_dir@);
    duplicate_levels(f.claims@, claimed(f.claims@), f.bin_dir@);
    assert(!has_level(a, Level::Error));
}

/// A warning is given exactly where the database or the store is missing, a version is
/// doubtful, the store holds what is not installed, a wrapper calls what is not installed,
/// or a program is claimed more than once.
pub proof fn warnings_mean_doubts(state: State, f: Facts)
    ensures
        has_level(all_findings(state, f), Level::Warning) <==> {
            ||| !f.db_exists
            ||| !f.store_exists
            ||| exists|i: int| 0 <= i < f.packages@.len() && package_doubtful(#[trigger] f.packages@[i])
            ||| exists|i: int|
                0 <= i < f.entries@.len() && !state.packages.has_package((#[trigger] f.entries@[i])@)
            ||| exists|i: int|
                0 <= i < f.wrappers@.len() && stale_owner(state, (#[trigger] f.wrappers@[i]).content@) is Some
            ||| exists|bin: Seq<char>| #[trigger]
                claimed(f.claims@).contains(bin) && claimants(f.claims@, bin).len() > 1
        },
{
    let a = base_findings(f.db_exists, f.store_exists, f.store@);
    let b = package_findings(f.packages@, f.bin_dir@);
    let c = orphan_findings(state, strs(f.entries@), f.store@);
    let d = stale_findings(state, f.wrappers@, f.bin_dir@);
    let bins = claimed(f.claims@);
    let e = duplicate_findings(f.claims@, bins, f.bin_dir@);
    level_of_both(a + b + c + d, e, Level::Warning);
    level_of_both(a + b + c, d, Level::Warning);
    level_of_both(a + b, c, Level::Warning);
    level_of_both(a, b, Level::Warning);
    package_levels(f.packages@, f.bin_dir@);
    orphan_levels(state, strs(f.entries@), f.store@);
    stale_levels(state, f.wrappers@, f.bin_dir@);
    duplicate_levels(f.claims@, bins, f.bin_dir@);
    if !f.db_exists {
        assert(a[0].0 == Level::Warning);
    }
    if !f.store_exists {
        assert(a[1].0 == Level::Warning);
    }
    assert(forall|i: int| 0 <= i < f.entries@.len() ==> strs(f.entries@)[i] == (#[trigger] f.entries@[i])@);
    if exists|i: int| 0 <= i < strs(f.entries@).len() && !state.packages.has_package(#[trigger] strs(f.entries@)[i]) {
        let i = choose|i: int|
            0 <= i < strs(f.entries@).len() && !state.packages.has_package(#[trigger] strs(f.entries@)[i]);
        assert(!state.packages.has_package(f.entries@[i]@));
    }
    if exists|i: int| 0 <= i < f.entries@.len() && !state.packages.has_package((#[trigger] f.entries@[i])@) {
        let i = choose|i: int|
            0 <= i < f.entries@.len() && !state.packages.has_package((#[trigger] f.entries@[i])@);
        assert(!state.packages.has_package(strs(f.entries@)[i]));
    }
    if exists|bin: Seq<char>| #[trigger] bins.contains(bin) && claimants(f.claims@, bin).len() > 1 {
        let bin = choose|bin: Seq<char>| #[trigger]
            bins.contains(bin) && claimants(f.claims@, bin).len() > 1;
        let i = choose|i: int| 0 <= i < bins.len() && bins[i] == bin;
        assert(claimants(f.claims@, bins[i]).len() > 1);
    }
    if exists|i: int| 0 <= i < bins.len() && claimants(f.claims@, #[trigger] bins[i]).len() > 1 {
        let i = choose|i: int| 0 <= i < bins.len() && claimants(f.claims@, #[trigger] bins[i]).len() > 1;
        assert(bins.contains(bins[i]));
    }
}

proof fn times_none(s: Seq<Seq<char>>, x: Seq<char>)
    ensures
        times(s, x) > 0 <==> s.contains(x),
    decreases s.len(),
{
    if s.len() > 0 {
        times_none(s.drop_last(), x);
        assert(s =~= s.drop_last().push(s.last()));
        lemma_seq_contains_after_push(s.drop_last(), s.last(), x);
    }
}

/// The packages that claim a program are those that have it among theirs; two of them make
/// it claimed more than once.
pub proof fn claimants_have_the_program(c: Seq<Claims>, bin: Seq<char>, p: Seq<char>)
    ensures
        claimants(c, bin).contains(p) <==> exists|i: int|
            0 <= i < c.len() && (#[trigger] c[i]).package@ == p && strs(c[i].bins@).contains(bin),
        claimed(c).contains(bin) <==> exists|i: int|
            0 <= i < c.len() && strs((#[trigger] c[i]).bins@).contains(bin),
        forall|i: int, j: int|
            0 <= i < j < c.len() && strs((#[trigger] c[i]).bins@).contains(bin) && strs(
                (#[trigger] c[j]).bins@,
            ).contains(bin) ==> claimants(c, bin).len() > 1,
    decreases c.len(),
{
    if c.len() > 0 {
        let t = c.drop_last();
        let last = c[c.len() - 1];
        claimants_have_the_program(t, bin, p);
        let n = times(strs(last.bins@), bin);
        times_none(strs(last.bins@), bin);
        let a = claimants(t, bin);
        let b = again(last.package@, n);
        lemma_seq_concat_contains_all_elements(a, b, p);
        if n > 0 {
            assert(b[0] == last.package@);
        }
        merged_holds_both(claimed(t), strs(last.bins@), bin);
        assert(forall|i: int| 0 <= i < t.len() ==> t[i] == #[trigger] c[i]);
        assert forall|i: int| 0 <= i < t.len() implies #[trigger] t[i] == c[i] by {}
        assert forall|i: int, j: int|
            0 <= i < j < c.len() && strs((#[trigger] c[i]).bins@).contains(bin) && strs(
                (#[trigger] c[j]).bins@,
            ).contains(bin) implies claimants(c, bin).len() > 1 by {
            assert(t[i] == c[i]);
            if j < t.len() {
                assert(t[j] == c[j]);
            } else {
                claimants_have_the_program(t, bin, t[i].package@);
                assert(a.contains(t[i].package@));
            }
        }
    }
}

/// A link is made exactly for a package whose link leads nowhere, to its newest installed
/// version, if the files of that are there.
pub proof fn links_lead_to_the_newest(state: State, links: Seq<RepairLink>, p: Seq<char>, v: Seq<char>)
    ensures
        new_links(state, links).contains((p, v)) <==> newest(versions_in(state.packages.all(), p)) == Some(v)
            && exists|i: int|
            0 <= i < links.len() && (#[trigger] links[i]).package@ == p && !links[i].leads_somewhere && strs(
                links[i].present@,
            ).contains(v),
    decreases links.len(),
{
    if links.len() > 0 {
        let t = links.drop_last();
        let l = links[links.len() - 1];
        links_lead_to_the_newest(state, t, p, v);
        if let Some(w) = newest(versions_in(state.packages.all(), l.package@)) {
            lemma_seq_contains_after_push(new_links(state, t), (l.package@, w), (p, v));
        }
        assert(forall|i: int| 0 <= i < t.len() ==> t[i] == #[trigger] links[i]);
        assert forall|i: int| 0 <= i < t.len() implies #[trigger] t[i] == links[i] by {}
    }
}

/// A repair removes the wrappers that name a package that is not installed, and no others.
pub proof fn only_stale_wrappers_go(state: State, files: Seq<WrapperFile>, n: Seq<char>, p: Seq<char>)
    ensures
        stale_wrappers(state, files).contains((n, p)) <==> !state.packages.has_package(p) && exists|i: int|
            0 <= i < files.len() && (#[trigger] files[i]).name@ == n && occurs(files[i].content@, "hpm run "@)
                && first_exec_pkg(lines(files[i].content@)) == Some(p),
    decreases files.len(),
{
    if files.len() > 0 {
        let t = files.drop_last();
        let last = files[files.len() - 1];
        only_stale_wrappers_go(state, t, n, p);
        if let Some(w) = stale_owner(state, last.content@) {
            lemma_seq_contains_after_push(stale_wrappers(state, t), (last.name@, w), (n, p));
        }
        assert(forall|i: int| 0 <= i < t.len() ==> t[i] == #[trigger] files[i]);
        assert forall|i: int| 0 <= i < t.len() implies #[trigger] t[i] == files[i] by {}
    }
}

/// A wrapper is written anew for the program where the manifest says it is, and only if it
/// is there; where the manifest does not say, where it is found.
pub proof fn where_a_wrapper_is_led(
    m: Manifest,
    bin: Seq<char>,
    in_bin: bool,
    at_top: bool,
    files: Seq<Seq<char>>,
    exists_there: bool,
)
    ensures
        pair_value(map_pairs(m.bin_paths), bin) matches Some(p) ==> repair_place(m, bin, true, in_bin, at_top, files)
            == Some(p) && repair_place(m, bin, false, in_bin, at_top, files) is None,
        pair_value(map_pairs(m.bin_paths), bin) is None ==> repair_place(m, bin, exists_there, in_bin, at_top, files)
            == binary_place(in_bin, at_top, files, bin),
{
}

} // verus!
