//! Lock files: the exact versions and checksums of what is installed.
use vstd::prelude::*;

use crate::collections::{has_key, key_index, keys_distinct, pairs_map_push, NameMap, NameSet};
use crate::pattern::{has_prefix, starts_with};
use crate::state::{names_in, names_in_rows, pkg_key, pkg_ver, split_pkg_ver, InfoModel, State};
use crate::text::{same, strs, strs_push};

verus! {

/// The format of lock files that are written.
pub const LOCK_VERSION: u32 = 1;

/// What a lock file says of a package.
#[derive(Debug)]
pub struct LockEntry {
    pub version: String,
    /// The commit that the package was built from.
    pub git_commit: String,
    pub repo_url: String,
    pub checksum: String,
    /// The packages that it depends on, with their versions.
    pub dependencies: NameMap,
    pub manually_installed: bool,
    pub installed_at: u64,
}

/// What a lock file says of a package, as a mathematical value.
#[verifier::ext_equal]
pub struct LockModel {
    pub version: Seq<char>,
    pub git_commit: Seq<char>,
    pub repo_url: Seq<char>,
    pub checksum: Seq<char>,
    pub dependencies: Map<Seq<char>, Seq<char>>,
    pub manually_installed: bool,
    pub installed_at: u64,
}

impl View for LockEntry {
    type V = LockModel;

    open spec fn view(&self) -> LockModel {
        LockModel {
            version: self.version@,
            git_commit: self.git_commit@,
            repo_url: self.repo_url@,
            checksum: self.checksum@,
            dependencies: self.dependencies@,
            manually_installed: self.manually_installed,
            installed_at: self.installed_at,
        }
    }
}

/// A lock file.
#[derive(Debug)]
pub struct LockFile {
    pub lock_version: u32,
    /// When it was written, in seconds since 1970.
    pub generated_at: u64,
    pub hpm_version: String,
    /// The packages by name, in the order in which they were put in.
    pub packages: Vec<(String, LockEntry)>,
}

/// The packages of a lock file, by name.
pub open spec fn locked(v: Seq<(String, LockEntry)>) -> Seq<(Seq<char>, LockModel)> {
    v.map_values(|p: (String, LockEntry)| (p.0@, p.1@))
}

/// How the installed state differs from what a lock file says of one package.
pub open spec fn entry_diffs(
    name: Seq<char>,
    entry: LockModel,
    installed: Map<(Seq<char>, Seq<char>), InfoModel>,
    current: Map<Seq<char>, Seq<char>>,
) -> Seq<Seq<char>> {
    if !current.dom().contains(name) {
        seq!["missing: "@ + pkg_key(name, entry.version) + " not installed"@]
    } else {
        let ver = current[name];
        let moved = if ver != entry.version {
            seq![
                "version mismatch: "@ + name + " — lock has "@ + entry.version
                    + ", installed has "@ + ver,
            ]
        } else {
            Seq::empty()
        };
        let changed = if installed.dom().contains((name, ver)) && installed[(name, ver)].checksum
            != entry.checksum {
            seq![
                "checksum mismatch: "@ + pkg_key(name, ver) + " — contents may have changed"@,
            ]
        } else {
            Seq::empty()
        };
        moved + changed
    }
}

/// How the installed state differs from what a lock file says of its packages.
pub open spec fn locked_diffs(
    entries: Seq<(Seq<char>, LockModel)>,
    installed: Map<(Seq<char>, Seq<char>), InfoModel>,
    current: Map<Seq<char>, Seq<char>>,
) -> Seq<Seq<char>>
    decreases entries.len(),
{
    if entries.len() == 0 {
        Seq::empty()
    } else {
        locked_diffs(entries.drop_last(), installed, current) + entry_diffs(
            entries.last().0,
            entries.last().1,
            installed,
            current,
        )
    }
}

/// The installed packages that have a current version and are in no lock entry.
pub open spec fn unlocked_diffs(
    names: Seq<Seq<char>>,
    entries: Seq<(Seq<char>, LockModel)>,
    current: Map<Seq<char>, Seq<char>>,
) -> Seq<Seq<char>>
    decreases names.len(),
{
    if names.len() == 0 {
        Seq::empty()
    } else {
        let rest = unlocked_diffs(names.drop_last(), entries, current);
        let name = names.last();
        if !has_key(entries, name) && current.dom().contains(name) {
            rest.push(
                "unlocked: "@ + pkg_key(name, current[name]) + " installed but not in lock file"@,
            )
        } else {
            rest
        }
    }
}

/// The versions of the packages that the dependencies name: the one that a
/// dependency gives, or else the current one.
pub open spec fn locked_deps(
    deps: Seq<Seq<char>>,
    current: Map<Seq<char>, Seq<char>>,
) -> Map<Seq<char>, Seq<char>>
    decreases deps.len(),
{
    if deps.len() == 0 {
        Map::empty()
    } else {
        let rest = locked_deps(deps.drop_last(), current);
        let (name, ver) = pkg_ver(deps.last());
        if ver.len() > 0 {
            rest.insert(name, ver)
        } else if current.dom().contains(name) {
            rest.insert(name, current[name])
        } else {
            rest
        }
    }
}

/// The value of a map, or another where it has none.
pub open spec fn value_or(
    m: Map<Seq<char>, Seq<char>>,
    key: Seq<char>,
    other: Seq<char>,
) -> Seq<char> {
    if m.dom().contains(key) {
        m[key]
    } else {
        other
    }
}

/// Whether an entry is the one to write for an installed version.
pub open spec fn locks(
    entry: LockModel,
    name: Seq<char>,
    info: InfoModel,
    current: Map<Seq<char>, Seq<char>>,
    urls: Map<Seq<char>, Seq<char>>,
    commits: Map<Seq<char>, Seq<char>>,
) -> bool {
    &&& entry.version == current[name]
    &&& entry.git_commit == value_or(commits, name, "unknown"@)
    &&& entry.repo_url == value_or(urls, name, "unknown"@)
    &&& entry.checksum == info.checksum
    &&& entry.manually_installed == info.manually_installed
    &&& entry.installed_at == info.installed_at
    &&& exists|deps: Seq<Seq<char>>| #[trigger]
        deps.to_set() == info.depends_on && deps.no_duplicates() && entry.dependencies
            == locked_deps(deps, current)
}

/// Whether a package has a current version that is installed.
pub open spec fn lockable(
    installed: Map<(Seq<char>, Seq<char>), InfoModel>,
    current: Map<Seq<char>, Seq<char>>,
    name: Seq<char>,
) -> bool {
    current.dom().contains(name) && installed.dom().contains((name, current[name]))
}

fn value_of(m: &NameMap, key: &str, other: &str) -> (r: String)
    requires
        m.wf(),
    ensures
        r@ == value_or(m@, key@, other@),
{
    match m.get(key) {
        Some(v) => v.clone(),
        None => other.to_owned(),
    }
}

fn lock_deps(deps: &NameSet, current: &NameMap) -> (r: NameMap)
    requires
        current.wf(),
    ensures
        r.wf(),
        r@ == locked_deps(deps.texts(), current@),
{
    let mut out = NameMap::new();
    let mut i: usize = 0;
    assert(deps.texts().take(0) =~= Seq::<Seq<char>>::empty());
    while i < deps.len()
        invariant
            i <= deps.texts().len(),
            current.wf(),
            out.wf(),
            out@ == locked_deps(deps.texts().take(i as int), current@),
        decreases deps.texts().len() - i,
    {
        let (name, ver) = split_pkg_ver(deps.at(i).as_str());
        proof {
            let longer = deps.texts().take(i + 1);
            assert(longer.drop_last() =~= deps.texts().take(i as int));
            reveal_strlit("");
            if ver@.len() == 0 {
                assert(ver@ =~= ""@);
            }
        }
        if !same(ver.as_str(), "") {
            out.insert(name.as_str(), ver.as_str());
        } else {
            match current.get(name.as_str()) {
                Some(v) => {
                    out.insert(name.as_str(), v.as_str());
                },
                None => {},
            }
        }
        i = i + 1;
    }
    assert(deps.texts().take(deps.texts().len() as int) =~= deps.texts());
    out
}

impl LockFile {
    /// No package occurs twice.
    pub open spec fn wf(&self) -> bool {
        keys_distinct(locked(self.packages@))
    }

    /// A lock file without packages.
    pub fn new(now: u64, hpm_version: &str) -> (r: LockFile)
        ensures
            r.wf(),
            r.lock_version == LOCK_VERSION,
            r.lock_version == 1,
            r.generated_at == now,
            r.hpm_version@ == hpm_version@,
            r.packages@ == Seq::<(String, LockEntry)>::empty(),
    {
        LockFile {
            lock_version: LOCK_VERSION,
            generated_at: now,
            hpm_version: hpm_version.to_owned(),
            packages: Vec::new(),
        }
    }

    /// Whether a package is in the lock file.
    pub fn contains(&self, name: &str) -> (r: bool)
        ensures
            r == has_key(locked(self.packages@), name@),
    {
        let mut i: usize = 0;
        while i < self.packages.len()
            invariant
                i <= self.packages@.len(),
                forall|j: int| 0 <= j < i ==> (#[trigger] locked(self.packages@)[j]).0 != name@,
            decreases self.packages@.len() - i,
        {
            if same(self.packages[i].0.as_str(), name) {
                assert(locked(self.packages@)[i as int].0 == name@);
                return true;
            }
            i = i + 1;
        }
        false
    }

    /// How the installed state differs from the lock file. `current` gives the
    /// current version of each package that has one.
    pub fn check_against_state(&self, state: &State, current: &NameMap) -> (r: Vec<String>)
        requires
            state.wf(),
            current.wf(),
        ensures
            strs(r@) == locked_diffs(locked(self.packages@), state.packages@, current@)
                + unlocked_diffs(
                names_in(state.packages.all()),
                locked(self.packages@),
                current@,
            ),
    {
        let ghost entries = locked(self.packages@);
        let ghost m = state.packages@;
        let mut out: Vec<String> = Vec::new();
        let mut i: usize = 0;
        assert(entries.take(0) =~= Seq::<(Seq<char>, LockModel)>::empty());
        assert(strs(out@) =~= Seq::<Seq<char>>::empty());
        while i < self.packages.len()
            invariant
                i <= self.packages@.len(),
                entries == locked(self.packages@),
                m == state.packages@,
                state.wf(),
                current.wf(),
                strs(out@) == locked_diffs(entries.take(i as int), m, current@),
            decreases self.packages@.len() - i,
        {
            let name = self.packages[i].0.as_str();
            let entry = &self.packages[i].1;
            let ghost before = strs(out@);
            proof {
                let longer = entries.take(i + 1);
                assert(longer.drop_last() =~= entries.take(i as int));
                assert(longer.last() == (name@, entry@));
            }
            match current.get(name) {
                None => {
                    let mut s = "missing: ".to_owned();
                    let key = crate::state::join_pkg_ver(name, entry.version.as_str());
                    s.append(key.as_str());
                    s.append(" not installed");
                    proof {
                        strs_push(out@, s);
                        assert(before + seq![s@] =~= before.push(s@));
                    }
                    out.push(s);
                },
                Some(ver) => {
                    let ghost moved: Seq<Seq<char>> = Seq::empty();
                    if !same(ver.as_str(), entry.version.as_str()) {
                        let mut s = "version mismatch: ".to_owned();
                        s.append(name);
                        s.append(" — lock has ");
                        s.append(entry.version.as_str());
                        s.append(", installed has ");
                        s.append(ver.as_str());
                        proof {
                            strs_push(out@, s);
                            moved = seq![s@];
                            assert(before + seq![s@] =~= before.push(s@));
                        }
                        out.push(s);
                    }
                    assert(strs(out@) =~= before + moved);
                    match state.packages.get(name, ver.as_str()) {
                        Some(info) => {
                            if !same(info.checksum.as_str(), entry.checksum.as_str()) {
                                let mut s = "checksum mismatch: ".to_owned();
                                let key = crate::state::join_pkg_ver(name, ver.as_str());
                                s.append(key.as_str());
                                s.append(" — contents may have changed");
                                proof {
                                    strs_push(out@, s);
                                    assert(before + (moved + seq![s@]) =~= (before + moved).push(
                                        s@,
                                    ));
                                }
                                out.push(s);
                            } else {
                                assert(before + (moved + Seq::<Seq<char>>::empty()) =~= before
                                    + moved);
                            }
                        },
                        None => {
                            assert(before + (moved + Seq::<Seq<char>>::empty()) =~= before + moved);
                        },
                    }
                },
            }
            i = i + 1;
        }
        assert(entries.take(entries.len() as int) =~= entries);
        let ghost first = strs(out@);
        let names = state.packages.package_names();
        let mut k: usize = 0;
        assert(strs(names@).take(0) =~= Seq::<Seq<char>>::empty());
        assert(first + unlocked_diffs(strs(names@).take(0), entries, current@) =~= first);
        while k < names.len()
            invariant
                k <= names@.len(),
                entries == locked(self.packages@),
                current.wf(),
                strs(out@) == first + unlocked_diffs(
                    strs(names@).take(k as int),
                    entries,
                    current@,
                ),
            decreases names@.len() - k,
        {
            let name = names[k].as_str();
            let ghost rest = unlocked_diffs(strs(names@).take(k as int), entries, current@);
            proof {
                let longer = strs(names@).take(k + 1);
                assert(longer.drop_last() =~= strs(names@).take(k as int));
                assert(longer.last() == name@);
            }
            if !self.contains(name) {
                match current.get(name) {
                    Some(ver) => {
                        let mut s = "unlocked: ".to_owned();
                        let key = crate::state::join_pkg_ver(name, ver.as_str());
                        s.append(key.as_str());
                        s.append(" installed but not in lock file");
                        proof {
                            strs_push(out@, s);
                            assert(first + rest.push(s@) =~= (first + rest).push(s@));
                        }
                        out.push(s);
                    },
                    None => {},
                }
            }
            k = k + 1;
        }
        assert(strs(names@).take(names@.len() as int) =~= strs(names@));
        out
    }

    /// The lock file of the installed state: one entry for each package whose
    /// current version is installed. `urls` gives the repositories and
    /// `commits` the commits of the packages for which they are known.
    pub fn generate(
        state: &State,
        current: &NameMap,
        urls: &NameMap,
        commits: &NameMap,
        now: u64,
        hpm_version: &str,
    ) -> (r: LockFile)
        requires
            state.wf(),
            current.wf(),
            urls.wf(),
            commits.wf(),
        ensures
            r.wf(),
            r.lock_version == LOCK_VERSION,
            r.generated_at == now,
            r.hpm_version@ == hpm_version@,
            forall|n: Seq<char>| #[trigger]
                has_key(locked(r.packages@), n) == lockable(state.packages@, current@, n),
            forall|i: int|
                0 <= i < r.packages@.len() ==> {
                    let (n, e) = #[trigger] locked(r.packages@)[i];
                    locks(e, n, state.packages@[(n, current@[n])], current@, urls@, commits@)
                },
    {
        let ghost m = state.packages@;
        let mut lock = LockFile::new(now, hpm_version);
        let names = state.packages.package_names();
        proof {
            names_in_rows(state.packages.all());
        }
        let mut i: usize = 0;
        while i < names.len()
            invariant
                i <= names@.len(),
                state.wf(),
                current.wf(),
                urls.wf(),
                commits.wf(),
                m == state.packages@,
                lock.wf(),
                lock.lock_version == LOCK_VERSION,
                lock.generated_at == now,
                lock.hpm_version@ == hpm_version@,
                strs(names@).no_duplicates(),
                forall|n: Seq<char>| #[trigger]
                    has_key(locked(lock.packages@), n) ==> lockable(m, current@, n) && strs(
                        names@,
                    ).take(i as int).contains(n),
                forall|j: int|
                    0 <= j < i && lockable(m, current@, #[trigger] strs(names@)[j]) ==> has_key(
                        locked(lock.packages@),
                        strs(names@)[j],
                    ),
                forall|j: int|
                    0 <= j < lock.packages@.len() ==> {
                        let (n, e) = #[trigger] locked(lock.packages@)[j];
                        locks(e, n, m[(n, current@[n])], current@, urls@, commits@)
                    },
            decreases names@.len() - i,
        {
            let name = names[i].as_str();
            let ghost before = locked(lock.packages@);
            let ghost done = strs(names@).take(i as int);
            let ghost longer = strs(names@).take(i + 1);
            proof {
                assert(longer =~= done.push(name@));
                assert forall|n: Seq<char>| done.contains(n) implies longer.contains(n) by {
                    let a = choose|a: int| 0 <= a < done.len() && done[a] == n;
                    assert(longer[a] == n);
                }
                assert(longer[i as int] == name@);
                assert(!done.contains(name@)) by {
                    if done.contains(name@) {
                        let a = choose|a: int| 0 <= a < done.len() && done[a] == name@;
                        assert(strs(names@)[a] != strs(names@)[i as int]);
                    }
                }
            }
            match current.get(name) {
                None => {},
                Some(ver) => {
                    match state.packages.get(name, ver.as_str()) {
                        None => {},
                        Some(info) => {
                            let deps = lock_deps(&info.depends_on, current);
                            let entry = LockEntry {
                                version: ver.clone(),
                                git_commit: value_of(commits, name, "unknown"),
                                repo_url: value_of(urls, name, "unknown"),
                                checksum: info.checksum.clone(),
                                dependencies: deps,
                                manually_installed: info.manually_installed,
                                installed_at: info.installed_at,
                            };
                            let ghost model = entry@;
                            proof {
                                assert(info.depends_on.texts().to_set() == info@.depends_on);
                                assert(locks(model, name@, info@, current@, urls@, commits@));
                                assert(!has_key(before, name@));
                                pairs_map_push(before, (name@, model));
                            }
                            lock.packages.push((name.to_owned(), entry));
                            proof {
                                let after = locked(lock.packages@);
                                assert(after =~= before.push((name@, model)));
                                assert(after[before.len() as int].0 == name@);
                                assert forall|n: Seq<char>| #[trigger] has_key(after, n) implies lockable(m, current@, n) && longer.contains(n) by {
                                    let a = key_index(after, n);
                                    if a < before.len() {
                                        assert(before[a].0 == n);
                                        assert(has_key(before, n));
                                    }
                                }
                                assert forall|j: int|
                                    0 <= j < i + 1 && lockable(m, current@, #[trigger] strs(names@)[j]) implies has_key(
                                    after,
                                    strs(names@)[j],
                                ) by {
                                    if j < i {
                                        let a = key_index(before, strs(names@)[j]);
                                        assert(after[a].0 == strs(names@)[j]);
                                    }
                                }
                            }
                        },
                    }
                },
            }
            i = i + 1;
        }
        proof {
            assert forall|n: Seq<char>| #[trigger] has_key(locked(lock.packages@), n) == lockable(m, current@, n) by {
                if lockable(m, current@, n) {
                    state.packages.has_package_in_map(n);
                    assert(m.dom().contains((n, current@[n])));
                    assert(strs(names@).contains(n));
                    let j = choose|j: int| 0 <= j < strs(names@).len() && strs(names@)[j] == n;
                    assert(has_key(locked(lock.packages@), strs(names@)[j]));
                }
            }
        }
        lock
    }
}

/// The kinds of differences between a lock file and the installed state.
#[derive(Clone, Copy, PartialEq, Eq, Structural, Debug)]
pub enum DiffKind {
    /// Something locked is missing or is not what it was.
    Lost,
    /// Something installed is not locked.
    Added,
    /// A version changed.
    Moved,
}

/// The kind of a difference, by the word that it starts with.
pub open spec fn kind_of(diff: Seq<char>) -> DiffKind {
    if has_prefix(diff, "missing"@) || has_prefix(diff, "checksum"@) {
        DiffKind::Lost
    } else if has_prefix(diff, "unlocked"@) {
        DiffKind::Added
    } else {
        DiffKind::Moved
    }
}

/// The kind of a difference.
pub fn diff_kind(diff: &str) -> (r: DiffKind)
    ensures
        r == kind_of(diff@),
{
    if starts_with(diff, "missing") || starts_with(diff, "checksum") {
        DiffKind::Lost
    } else if starts_with(diff, "unlocked") {
        DiffKind::Added
    } else {
        DiffKind::Moved
    }
}

/// The subcommands of `lock`.
#[derive(Clone, Copy, PartialEq, Eq, Structural, Debug)]
pub enum LockCommand {
    Generate,
    Check,
    Status,
    Diff,
    Help,
}

/// The subcommand that a word stands for.
pub open spec fn command_of(word: Seq<char>) -> Option<LockCommand> {
    if word == "generate"@ || word == "gen"@ || word == "update"@ {
        Some(LockCommand::Generate)
    } else if word == "check"@ || word == "verify"@ {
        Some(LockCommand::Check)
    } else if word == "status"@ {
        Some(LockCommand::Status)
    } else if word == "diff"@ {
        Some(LockCommand::Diff)
    } else if word == "--help"@ || word == "help"@ {
        Some(LockCommand::Help)
    } else {
        None
    }
}

/// The subcommand that the arguments of `lock` ask for: the first of them, or
/// `status` where there is none.
pub fn lock_command(args: &Vec<String>) -> (r: Option<LockCommand>)
    ensures
        r == command_of(
            if args@.len() == 0 {
                "status"@
            } else {
                args@[0]@
            },
        ),
{
    let word: &str = if args.len() == 0 {
        "status"
    } else {
        args[0].as_str()
    };
    if same(word, "generate") || same(word, "gen") || same(word, "update") {
        Some(LockCommand::Generate)
    } else if same(word, "check") || same(word, "verify") {
        Some(LockCommand::Check)
    } else if same(word, "status") {
        Some(LockCommand::Status)
    } else if same(word, "diff") {
        Some(LockCommand::Diff)
    } else if same(word, "--help") || same(word, "help") {
        Some(LockCommand::Help)
    } else {
        None
    }
}

// ---------------------------------------------------------------------------
// Laws
// ---------------------------------------------------------------------------

proof fn locked_diffs_none(
    entries: Seq<(Seq<char>, LockModel)>,
    installed: Map<(Seq<char>, Seq<char>), InfoModel>,
    current: Map<Seq<char>, Seq<char>>,
)
    requires
        forall|i: int|
            0 <= i < entries.len() ==> {
                let (n, e) = #[trigger] entries[i];
                lockable(installed, current, n) && e.version == current[n] && e.checksum
                    == installed[(n, current[n])].checksum
            },
    ensures
        locked_diffs(entries, installed, current) == Seq::<Seq<char>>::empty(),
    decreases entries.len(),
{
    if entries.len() > 0 {
        let t = entries.drop_last();
        assert forall|i: int| 0 <= i < t.len() implies ({
            let (n, e) = #[trigger] t[i];
            lockable(installed, current, n) && e.version == current[n] && e.checksum
                == installed[(n, current[n])].checksum
        }) by {
            assert(t[i] == entries[i]);
        }
        locked_diffs_none(t, installed, current);
        assert(entries[entries.len() - 1] == entries.last());
        assert(locked_diffs(entries, installed, current) =~= Seq::<Seq<char>>::empty());
    }
}

proof fn unlocked_diffs_none(
    names: Seq<Seq<char>>,
    entries: Seq<(Seq<char>, LockModel)>,
    current: Map<Seq<char>, Seq<char>>,
)
    requires
        forall|i: int|
            0 <= i < names.len() && current.dom().contains(#[trigger] names[i]) ==> has_key(
                entries,
                names[i],
            ),
    ensures
        unlocked_diffs(names, entries, current) == Seq::<Seq<char>>::empty(),
    decreases names.len(),
{
    if names.len() > 0 {
        let t = names.drop_last();
        assert forall|i: int| 0 <= i < t.len() && current.dom().contains(#[trigger] t[i]) implies has_key(
            entries,
            t[i],
        ) by {
            assert(t[i] == names[i]);
        }
        unlocked_diffs_none(t, entries, current);
        assert(names[names.len() - 1] == names.last());
    }
}

/// A lock file that was generated from a state matches that state, if every
/// package's current version is an installed one.
pub proof fn generated_lock_matches(
    lock: LockFile,
    state: State,
    current: Map<Seq<char>, Seq<char>>,
    urls: Map<Seq<char>, Seq<char>>,
    commits: Map<Seq<char>, Seq<char>>,
)
    requires
        state.wf(),
        forall|n: Seq<char>| #[trigger]
            has_key(locked(lock.packages@), n) == lockable(state.packages@, current, n),
        forall|i: int|
            0 <= i < lock.packages@.len() ==> {
                let (n, e) = #[trigger] locked(lock.packages@)[i];
                locks(e, n, state.packages@[(n, current[n])], current, urls, commits)
            },
        forall|n: Seq<char>|
            state.packages.has_package(n) && #[trigger] current.dom().contains(n)
                ==> state.packages@.dom().contains((n, current[n])),
    ensures
        locked_diffs(locked(lock.packages@), state.packages@, current) + unlocked_diffs(
            names_in(state.packages.all()),
            locked(lock.packages@),
            current,
        ) == Seq::<Seq<char>>::empty(),
{
    let entries = locked(lock.packages@);
    let names = names_in(state.packages.all());
    assert forall|i: int| 0 <= i < entries.len() implies ({
        let (n, e) = #[trigger] entries[i];
        lockable(state.packages@, current, n) && e.version == current[n] && e.checksum
            == state.packages@[(n, current[n])].checksum
    }) by {
        assert(has_key(entries, entries[i].0));
    }
    locked_diffs_none(entries, state.packages@, current);
    names_in_rows(state.packages.all());
    assert forall|i: int| 0 <= i < names.len() && current.dom().contains(#[trigger] names[i]) implies has_key(
        entries,
        names[i],
    ) by {
        assert(names.contains(names[i]));
        assert(state.packages.has_package(names[i]));
    }
    unlocked_diffs_none(names, entries, current);
    assert(Seq::<Seq<char>>::empty() + Seq::<Seq<char>>::empty() =~= Seq::<Seq<char>>::empty());
}

/// Whether a text is reported where what is installed is held against a lock file:
/// something locked is not there, or is there in another version, or with another
/// checksum, or something that is there is not locked.
pub open spec fn is_difference(
    entries: Seq<(Seq<char>, LockModel)>,
    names: Seq<Seq<char>>,
    installed: Map<(Seq<char>, Seq<char>), InfoModel>,
    current: Map<Seq<char>, Seq<char>>,
    x: Seq<char>,
) -> bool {
    ||| exists|i: int|
        0 <= i < entries.len() && !current.dom().contains((#[trigger] entries[i]).0) && x
            == "missing: "@ + (entries[i].0 + "@"@ + entries[i].1.version) + " not installed"@
    ||| exists|i: int|
        0 <= i < entries.len() && current.dom().contains((#[trigger] entries[i]).0)
            && current[entries[i].0] != entries[i].1.version && x == "version mismatch: "@
            + entries[i].0 + " — lock has "@ + entries[i].1.version + ", installed has "@
            + current[entries[i].0]
    ||| exists|i: int|
        0 <= i < entries.len() && current.dom().contains((#[trigger] entries[i]).0)
            && installed.dom().contains((entries[i].0, current[entries[i].0])) && installed[(
            entries[i].0,
            current[entries[i].0],
        )].checksum != entries[i].1.checksum && x == "checksum mismatch: "@ + (entries[i].0 + "@"@
            + current[entries[i].0]) + " — contents may have changed"@
    ||| exists|k: int|
        0 <= k < names.len() && current.dom().contains(#[trigger] names[k]) && (forall|i: int|
            0 <= i < entries.len() ==> (#[trigger] entries[i]).0 != names[k]) && x == "unlocked: "@
            + (names[k] + "@"@ + current[names[k]]) + " installed but not in lock file"@
}

proof fn locked_diffs_at(
    entries: Seq<(Seq<char>, LockModel)>,
    installed: Map<(Seq<char>, Seq<char>), InfoModel>,
    current: Map<Seq<char>, Seq<char>>,
    x: Seq<char>,
)
    ensures
        locked_diffs(entries, installed, current).contains(x) <==> exists|i: int|
            0 <= i < entries.len() && entry_diffs(
                (#[trigger] entries[i]).0,
                entries[i].1,
                installed,
                current,
            ).contains(x),
    decreases entries.len(),
{
    if entries.len() > 0 {
        let t = entries.drop_last();
        locked_diffs_at(t, installed, current, x);
        let a = locked_diffs(t, installed, current);
        let b = entry_diffs(entries.last().0, entries.last().1, installed, current);
        let all = locked_diffs(entries, installed, current);
        if all.contains(x) {
            let k = choose|k: int| 0 <= k < all.len() && all[k] == x;
            if k < a.len() {
                assert(a[k] == x);
                let i = choose|i: int|
                    0 <= i < t.len() && entry_diffs((#[trigger] t[i]).0, t[i].1, installed, current).contains(x);
                assert(entries[i] == t[i]);
            } else {
                assert(b[k - a.len()] == x);
                assert(entries[entries.len() - 1] == entries.last());
            }
        }
        if exists|i: int|
            0 <= i < entries.len() && entry_diffs((#[trigger] entries[i]).0, entries[i].1, installed, current).contains(x) {
            let i = choose|i: int|
                0 <= i < entries.len() && entry_diffs((#[trigger] entries[i]).0, entries[i].1, installed, current).contains(x);
            if i < t.len() {
                assert(t[i] == entries[i]);
                let k = choose|k: int| 0 <= k < a.len() && a[k] == x;
                assert(all[k] == x);
            } else {
                let k = choose|k: int| 0 <= k < b.len() && b[k] == x;
                assert(all[a.len() + k] == x);
            }
        }
    }
}

proof fn unlocked_diffs_at(
    names: Seq<Seq<char>>,
    entries: Seq<(Seq<char>, LockModel)>,
    current: Map<Seq<char>, Seq<char>>,
    x: Seq<char>,
)
    ensures
        unlocked_diffs(names, entries, current).contains(x) <==> exists|k: int|
            0 <= k < names.len() && current.dom().contains(#[trigger] names[k]) && !has_key(
                entries,
                names[k],
            ) && x == "unlocked: "@ + pkg_key(names[k], current[names[k]])
                + " installed but not in lock file"@,
    decreases names.len(),
{
    if names.len() > 0 {
        let t = names.drop_last();
        unlocked_diffs_at(t, entries, current, x);
        let a = unlocked_diffs(t, entries, current);
        let all = unlocked_diffs(names, entries, current);
        let last = names[names.len() - 1];
        if all.contains(x) {
            let k = choose|k: int| 0 <= k < all.len() && all[k] == x;
            if k < a.len() {
                assert(a[k] == x);
                let j = choose|j: int|
                    0 <= j < t.len() && current.dom().contains(#[trigger] t[j]) && !has_key(
                        entries,
                        t[j],
                    ) && x == "unlocked: "@ + pkg_key(t[j], current[t[j]])
                        + " installed but not in lock file"@;
                assert(names[j] == t[j]);
            } else {
                assert(current.dom().contains(last));
            }
        }
        if exists|k: int|
            0 <= k < names.len() && current.dom().contains(#[trigger] names[k]) && !has_key(
                entries,
                names[k],
            ) && x == "unlocked: "@ + pkg_key(names[k], current[names[k]])
                + " installed but not in lock file"@ {
            let k = choose|k: int|
                0 <= k < names.len() && current.dom().contains(#[trigger] names[k]) && !has_key(
                    entries,
                    names[k],
                ) && x == "unlocked: "@ + pkg_key(names[k], current[names[k]])
                    + " installed but not in lock file"@;
            if k < t.len() {
                assert(t[k] == names[k]);
                let j = choose|j: int| 0 <= j < a.len() && a[j] == x;
                assert(all[j] == x);
            } else {
                assert(all[a.len() as int] == x);
            }
        }
    }
}

/// What is reported is exactly what differs.
pub proof fn reported_is_what_differs(
    entries: Seq<(Seq<char>, LockModel)>,
    names: Seq<Seq<char>>,
    installed: Map<(Seq<char>, Seq<char>), InfoModel>,
    current: Map<Seq<char>, Seq<char>>,
    x: Seq<char>,
)
    ensures
        (locked_diffs(entries, installed, current) + unlocked_diffs(names, entries, current)).contains(x)
            <==> is_difference(entries, names, installed, current, x),
{
    let a = locked_diffs(entries, installed, current);
    let b = unlocked_diffs(names, entries, current);
    locked_diffs_at(entries, installed, current, x);
    unlocked_diffs_at(names, entries, current, x);
    if (a + b).contains(x) {
        let k = choose|k: int| 0 <= k < (a + b).len() && (a + b)[k] == x;
        if k < a.len() {
            assert(a[k] == x);
            let i = choose|i: int|
                0 <= i < entries.len() && entry_diffs((#[trigger] entries[i]).0, entries[i].1, installed, current).contains(x);
            let d = entry_diffs(entries[i].0, entries[i].1, installed, current);
            let m = choose|m: int| 0 <= m < d.len() && d[m] == x;
            assert(current.dom().contains(entries[i].0) || !current.dom().contains(entries[i].0));
        } else {
            assert(b[k - a.len()] == x);
            let k = choose|k: int|
                0 <= k < names.len() && current.dom().contains(#[trigger] names[k]) && !has_key(
                    entries,
                    names[k],
                ) && x == "unlocked: "@ + pkg_key(names[k], current[names[k]])
                    + " installed but not in lock file"@;
            assert(forall|i: int| 0 <= i < entries.len() ==> (#[trigger] entries[i]).0 != names[k]);
        }
    }
    if is_difference(entries, names, installed, current, x) {
        if exists|i: int|
            0 <= i < entries.len() && entry_diffs((#[trigger] entries[i]).0, entries[i].1, installed, current).contains(x) {
            let k = choose|k: int| 0 <= k < a.len() && a[k] == x;
            assert((a + b)[k] == x);
        } else {
            assert forall|i: int| 0 <= i < entries.len() implies !entry_diffs(
                (#[trigger] entries[i]).0,
                entries[i].1,
                installed,
                current,
            ).contains(x) by {}
            assert(forall|i: int| 0 <= i < entries.len() ==> reported_for(
                #[trigger] entries[i],
                installed,
                current,
                x,
            ) == false) by {
                assert forall|i: int| 0 <= i < entries.len() implies reported_for(
                    #[trigger] entries[i],
                    installed,
                    current,
                    x,
                ) == false by {
                    entry_reports(entries[i], installed, current, x);
                }
            }
            let k = choose|k: int|
                0 <= k < names.len() && current.dom().contains(#[trigger] names[k]) && (forall|i: int|
                    0 <= i < entries.len() ==> (#[trigger] entries[i]).0 != names[k]) && x
                    == "unlocked: "@ + (names[k] + "@"@ + current[names[k]])
                    + " installed but not in lock file"@;
            assert(!has_key(entries, names[k]));
            let j = choose|j: int| 0 <= j < b.len() && b[j] == x;
            assert((a + b)[a.len() + j] == x);
        }
    }
}

spec fn reported_for(
    e: (Seq<char>, LockModel),
    installed: Map<(Seq<char>, Seq<char>), InfoModel>,
    current: Map<Seq<char>, Seq<char>>,
    x: Seq<char>,
) -> bool {
    ||| !current.dom().contains(e.0) && x == "missing: "@ + (e.0 + "@"@ + e.1.version)
        + " not installed"@
    ||| current.dom().contains(e.0) && current[e.0] != e.1.version && x == "version mismatch: "@ + e.0
        + " — lock has "@ + e.1.version + ", installed has "@ + current[e.0]
    ||| current.dom().contains(e.0) && installed.dom().contains((e.0, current[e.0])) && installed[(
        e.0,
        current[e.0],
    )].checksum != e.1.checksum && x == "checksum mismatch: "@ + (e.0 + "@"@ + current[e.0])
        + " — contents may have changed"@
}

proof fn entry_reports(
    e: (Seq<char>, LockModel),
    installed: Map<(Seq<char>, Seq<char>), InfoModel>,
    current: Map<Seq<char>, Seq<char>>,
    x: Seq<char>,
)
    ensures
        entry_diffs(e.0, e.1, installed, current).contains(x) <==> reported_for(e, installed, current, x),
{
    let d = entry_diffs(e.0, e.1, installed, current);
    if d.contains(x) {
        let m = choose|m: int| 0 <= m < d.len() && d[m] == x;
    }
    if reported_for(e, installed, current, x) {
        if !current.dom().contains(e.0) {
            assert(d[0] == x);
        } else if current[e.0] != e.1.version && x == "version mismatch: "@ + e.0 + " — lock has "@
            + e.1.version + ", installed has "@ + current[e.0] {
            assert(d[0] == x);
        } else {
            assert(d[d.len() - 1] == x);
        }
    }
}

/// Nothing is reported exactly where every locked package is in use in the locked
/// version, and with the locked checksum as far as that version is installed, and
/// every installed package that has a version in use is locked.
pub proof fn nothing_reported_means_match(lock: LockFile, state: State, current: Map<Seq<char>, Seq<char>>)
    requires
        state.wf(),
    ensures
        (locked_diffs(locked(lock.packages@), state.packages@, current) + unlocked_diffs(
            names_in(state.packages.all()),
            locked(lock.packages@),
            current,
        )).len() == 0 <==> {
            &&& forall|i: int|
                0 <= i < lock.packages@.len() ==> {
                    let n = (#[trigger] lock.packages@[i]).0@;
                    let e = lock.packages@[i].1;
                    &&& current.dom().contains(n)
                    &&& current[n] == e.version@
                    &&& state.packages@.dom().contains((n, e.version@)) ==> state.packages@[(
                        n,
                        e.version@,
                    )].checksum == e.checksum@
                }
            &&& forall|k: (Seq<char>, Seq<char>)| #[trigger]
                state.packages@.dom().contains(k) && current.dom().contains(k.0) ==> exists|i: int|
                    0 <= i < lock.packages@.len() && (#[trigger] lock.packages@[i]).0@ == k.0
        },
{
    let entries = locked(lock.packages@);
    let names = names_in(state.packages.all());
    let m = state.packages@;
    let all = locked_diffs(entries, m, current) + unlocked_diffs(names, entries, current);
    names_in_rows(state.packages.all());
    if all.len() == 0 {
        assert forall|i: int| 0 <= i < lock.packages@.len() implies ({
            let n = (#[trigger] lock.packages@[i]).0@;
            let e = lock.packages@[i].1;
            &&& current.dom().contains(n)
            &&& current[n] == e.version@
            &&& m.dom().contains((n, e.version@)) ==> m[(n, e.version@)].checksum == e.checksum@
        }) by {
            let e = entries[i];
            assert(e == (lock.packages@[i].0@, lock.packages@[i].1@));
            let d = entry_diffs(e.0, e.1, m, current);
            if d.len() > 0 {
                assert(d.contains(d[0]));
                locked_diffs_at(entries, m, current, d[0]);
                let a = locked_diffs(entries, m, current);
                let k = choose|k: int| 0 <= k < a.len() && a[k] == d[0];
                assert(false);
            }
        }
        assert forall|k: (Seq<char>, Seq<char>)| #[trigger]
            m.dom().contains(k) && current.dom().contains(k.0) implies exists|i: int|
            0 <= i < lock.packages@.len() && (#[trigger] lock.packages@[i]).0@ == k.0 by {
            state.packages.has_package_in_map(k.0);
            assert(k == (k.0, k.1));
            assert(names.contains(k.0));
            let j = choose|j: int| 0 <= j < names.len() && names[j] == k.0;
            if !has_key(entries, k.0) {
                let x = "unlocked: "@ + pkg_key(names[j], current[names[j]])
                    + " installed but not in lock file"@;
                unlocked_diffs_at(names, entries, current, x);
                let b = unlocked_diffs(names, entries, current);
                let q = choose|q: int| 0 <= q < b.len() && b[q] == x;
                assert(false);
            }
            let i = key_index(entries, k.0);
            assert(lock.packages@[i].0@ == k.0);
        }
    } else {
        let x = all[0];
        assert(all.contains(x));
        reported_is_what_differs(entries, names, m, current, x);
        if forall|i: int|
            0 <= i < lock.packages@.len() ==> {
                let n = (#[trigger] lock.packages@[i]).0@;
                let e = lock.packages@[i].1;
                &&& current.dom().contains(n)
                &&& current[n] == e.version@
                &&& m.dom().contains((n, e.version@)) ==> m[(n, e.version@)].checksum == e.checksum@
            } {
            assert forall|i: int| 0 <= i < entries.len() implies !reported_for(#[trigger] entries[i], m, current, x) by {
                assert(entries[i] == (lock.packages@[i].0@, lock.packages@[i].1@));
            }
            locked_diffs_at(entries, m, current, x);
            if locked_diffs(entries, m, current).contains(x) {
                let i = choose|i: int|
                    0 <= i < entries.len() && entry_diffs((#[trigger] entries[i]).0, entries[i].1, m, current).contains(x);
                entry_reports(entries[i], m, current, x);
                assert(false);
            }
            let a = locked_diffs(entries, m, current);
            if a.len() > 0 {
                assert(all[0] == a[0]);
                assert(a.contains(x));
            }
            let b = unlocked_diffs(names, entries, current);
            assert(b[0] == x);
            assert(b.contains(x));
            unlocked_diffs_at(names, entries, current, x);
            let k = choose|k: int|
                0 <= k < names.len() && current.dom().contains(#[trigger] names[k]) && !has_key(
                    entries,
                    names[k],
                ) && x == "unlocked: "@ + pkg_key(names[k], current[names[k]])
                    + " installed but not in lock file"@;
            assert(names.contains(names[k]));
            assert(state.packages.has_package(names[k]));
            state.packages.has_package_in_map(names[k]);
            let v = choose|v: Seq<char>| #[trigger] m.dom().contains((names[k], v));
            let key = (names[k], v);
            if forall|k: (Seq<char>, Seq<char>)| #[trigger]
                m.dom().contains(k) && current.dom().contains(k.0) ==> exists|i: int|
                    0 <= i < lock.packages@.len() && (#[trigger] lock.packages@[i]).0@ == k.0 {
                assert(m.dom().contains(key) && current.dom().contains(key.0));
                let i = choose|i: int| 0 <= i < lock.packages@.len() && (#[trigger] lock.packages@[i]).0@ == key.0;
                assert(entries[i].0 == names[k]);
                assert(has_key(entries, names[k]));
            }
        }
    }
}

/// What a lock file says of an installed version: the version in use, what is recorded of
/// it, and where it came from, as far as that is known.
pub proof fn locked_is_what_is_installed(
    entry: LockModel,
    name: Seq<char>,
    installed: Map<(Seq<char>, Seq<char>), InfoModel>,
    current: Map<Seq<char>, Seq<char>>,
    urls: Map<Seq<char>, Seq<char>>,
    commits: Map<Seq<char>, Seq<char>>,
)
    requires
        locks(entry, name, installed[(name, current[name])], current, urls, commits),
    ensures
        entry.version == current[name],
        entry.checksum == installed[(name, current[name])].checksum,
        entry.manually_installed == installed[(name, current[name])].manually_installed,
        entry.installed_at == installed[(name, current[name])].installed_at,
        urls.dom().contains(name) ==> entry.repo_url == urls[name],
        commits.dom().contains(name) ==> entry.git_commit == commits[name],
        !urls.dom().contains(name) ==> entry.repo_url == "unknown"@,
        !commits.dom().contains(name) ==> entry.git_commit == "unknown"@,
{
}

/// A dependency is locked in the version that it gives, or else in the one in use; it is
/// left out where there is neither. No other dependency is on the same package.
pub proof fn dependencies_are_locked(deps: Seq<Seq<char>>, current: Map<Seq<char>, Seq<char>>, i: int)
    requires
        0 <= i < deps.len(),
        forall|j: int| 0 <= j < deps.len() && j != i ==> pkg_ver(#[trigger] deps[j]).0 != pkg_ver(deps[i]).0,
    ensures
        ({
            let (name, version) = pkg_ver(deps[i]);
            let m = locked_deps(deps, current);
            &&& version.len() > 0 ==> m.dom().contains(name) && m[name] == version
            &&& version.len() == 0 && current.dom().contains(name) ==> m.dom().contains(name) && m[name]
                == current[name]
            &&& version.len() == 0 && !current.dom().contains(name) ==> !m.dom().contains(name)
        }),
    decreases deps.len(),
{
    let t = deps.drop_last();
    let name = pkg_ver(deps[i]).0;
    if i < t.len() {
        assert(t[i] == deps[i]);
        assert forall|j: int| 0 <= j < t.len() && j != i implies pkg_ver(#[trigger] t[j]).0 != pkg_ver(t[i]).0 by {
            assert(t[j] == deps[j]);
        }
        dependencies_are_locked(t, current, i);
        assert(pkg_ver(deps[deps.len() - 1]).0 != name);
    } else {
        assert forall|j: int| 0 <= j < t.len() implies pkg_ver(#[trigger] t[j]).0 != name by {
            assert(t[j] == deps[j]);
        }
        nothing_locked(t, current, name);
    }
}

/// Only packages that dependencies name are locked as dependencies.
pub proof fn nothing_locked(deps: Seq<Seq<char>>, current: Map<Seq<char>, Seq<char>>, name: Seq<char>)
    requires
        forall|j: int| 0 <= j < deps.len() ==> pkg_ver(#[trigger] deps[j]).0 != name,
    ensures
        !locked_deps(deps, current).dom().contains(name),
    decreases deps.len(),
{
    if deps.len() > 0 {
        let t = deps.drop_last();
        assert(pkg_ver(deps[deps.len() - 1]).0 != name);
        assert forall|j: int| 0 <= j < t.len() implies pkg_ver(#[trigger] t[j]).0 != name by {
            assert(t[j] == deps[j]);
        }
        nothing_locked(t, current, name);
    }
}

/// A reported difference is of the kind that it speaks of.
pub proof fn differences_have_their_kind(x: Seq<char>)
    ensures
        kind_of("missing: "@ + x) == DiffKind::Lost,
        kind_of("checksum mismatch: "@ + x) == DiffKind::Lost,
        kind_of("unlocked: "@ + x) == DiffKind::Added,
        kind_of("version mismatch: "@ + x) == DiffKind::Moved,
{
    reveal_strlit("missing");
    reveal_strlit("checksum");
    reveal_strlit("unlocked");
    reveal_strlit("missing: ");
    reveal_strlit("checksum mismatch: ");
    reveal_strlit("unlocked: ");
    reveal_strlit("version mismatch: ");
    let a = "missing: "@ + x;
    let b = "checksum mismatch: "@ + x;
    let c = "unlocked: "@ + x;
    let d = "version mismatch: "@ + x;
    assert(a.take(7) =~= "missing"@);
    assert(b.take(8) =~= "checksum"@);
    assert(c.take(8) =~= "unlocked"@);
    assert(c.take(7)[0] == 'u' && c.take(8)[0] == 'u' && d.take(7)[0] == 'v' && d.take(8)[0] == 'v');
    assert("missing"@[0] == 'm' && "checksum"@[0] == 'c' && "unlocked"@[0] == 'u');
}

/// The words of the subcommands, and what they stand for.
pub proof fn words_of_the_subcommands(word: Seq<char>)
    ensures
        command_of(word) == Some(LockCommand::Generate) ==> word == "generate"@ || word == "gen"@ || word == "update"@,
        command_of(word) == Some(LockCommand::Check) ==> word == "check"@ || word == "verify"@,
        command_of(word) == Some(LockCommand::Status) ==> word == "status"@,
        command_of(word) == Some(LockCommand::Diff) ==> word == "diff"@,
        command_of(word) is None ==> word != "generate"@ && word != "gen"@ && word != "update"@ && word != "check"@
            && word != "verify"@ && word != "status"@ && word != "diff"@ && word != "--help"@ && word != "help"@,
{
}

} // verus!
