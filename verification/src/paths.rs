//! Paths as text.
use vstd::prelude::*;

use crate::pattern::{ends_with, has_prefix, has_suffix, starts_with};
use crate::text::{cat, same};

verus! {

/// The path `b` as seen from the directory `a`: `b` itself where it is absolute
/// or `a` is empty, else the two with one separator between them.
pub open spec fn joined(a: Seq<char>, b: Seq<char>) -> Seq<char> {
    if has_prefix(b, "/"@) || a.len() == 0 {
        b
    } else if has_suffix(a, "/"@) {
        a + b
    } else {
        a + "/"@ + b
    }
}

/// The path `b` as seen from the directory `a`.
pub fn join(a: &str, b: &str) -> (r: String)
    ensures
        r@ == joined(a@, b@),
{
    proof {
        reveal_strlit("");
        if a@.len() == 0 {
            assert(a@ =~= ""@);
        }
    }
    if starts_with(b, "/") || same(a, "") {
        return b.to_owned();
    }
    let slash = ends_with(a, "/");
    let mut s = a.to_owned();
    if !slash {
        s.append("/");
    }
    s.append(b);
    s
}

/// The lock file of everything that is installed.
pub fn system_lock_path(db_dir: &str) -> (r: String)
    ensures
        r@ == db_dir@ + "/system.lock"@,
{
    let mut s = db_dir.to_owned();
    s.append("/system.lock");
    s
}

/// The database of what is installed.
pub fn db_path(db_dir: &str) -> (r: String)
    ensures
        r@ == db_dir@ + "/hpm.db"@,
{
    let mut s = db_dir.to_owned();
    s.append("/hpm.db");
    s
}

/// The lock file to use: that of the project that is named; else that of the
/// working directory, if it is a package's; else that of the system.
pub fn resolve_lock_path(project: &Option<String>, cwd: &str, cwd_has_info: bool, db_dir: &str) -> (r: String)
    ensures
        r@ == (match project {
            Some(p) => joined(p@, "hpm.lock"@),
            None => if cwd_has_info {
                joined(cwd@, "hpm.lock"@)
            } else {
                db_dir@ + "/system.lock"@
            },
        }),
{
    match project {
        Some(p) => join(p.as_str(), "hpm.lock"),
        None => if cwd_has_info {
            join(cwd, "hpm.lock")
        } else {
            system_lock_path(db_dir)
        },
    }
}

/// Where a version of a package is kept. `store` ends with a separator.
pub fn version_dir(store: &str, package: &str, version: &str) -> (r: String)
    ensures
        r@ == store@ + package@ + "/"@ + version@,
{
    let mut s = store.to_owned();
    s.append(package);
    s.append("/");
    s.append(version);
    s
}

/// The link to the current version of a package.
pub fn current_link(store: &str, package: &str) -> (r: String)
    ensures
        r@ == store@ + package@ + "/current"@,
{
    let mut s = store.to_owned();
    s.append(package);
    s.append("/current");
    s
}

/// Where everything of the package manager is kept, below the user's home.
pub open spec fn hackeros(home: Seq<char>) -> Seq<char> {
    joined(joined(home, ".hackeros"@), "hpm"@)
}

/// Where everything of the package manager is kept, below the user's home.
pub fn hackeros_home(home: &str) -> (r: String)
    ensures
        r@ == hackeros(home@),
{
    let a = join(home, ".hackeros");
    join(a.as_str(), "hpm")
}

/// Where packages are kept, with a separator at its end.
pub fn store_path(home: &str) -> (r: String)
    ensures
        r@ == joined(hackeros(home@), "store"@) + "/"@,
{
    let a = hackeros_home(home);
    let b = join(a.as_str(), "store");
    cat(b.as_str(), "/")
}

/// Where what was downloaded is kept.
pub fn cache_dir(home: &str) -> (r: String)
    ensures
        r@ == joined(hackeros(home@), "cache"@),
{
    let a = hackeros_home(home);
    join(a.as_str(), "cache")
}

/// Where what is recorded is kept.
pub fn db_dir(home: &str) -> (r: String)
    ensures
        r@ == joined(hackeros(home@), "db"@),
{
    let a = hackeros_home(home);
    join(a.as_str(), "db")
}

/// Where wrappers go.
pub fn bin_dir(home: &str) -> (r: String)
    ensures
        r@ == joined(joined(home@, ".local"@), "bin"@),
{
    let a = join(home, ".local");
    join(a.as_str(), "bin")
}

/// A directory below the one that desktops look into.
pub open spec fn shared(home: Seq<char>, dir: Seq<char>) -> Seq<char> {
    joined(joined(joined(home, ".local"@), "share"@), dir)
}

fn share_dir(home: &str, dir: &str) -> (r: String)
    ensures
        r@ == shared(home@, dir@),
{
    let a = join(home, ".local");
    let b = join(a.as_str(), "share");
    join(b.as_str(), dir)
}

/// Where desktop entries go.
pub fn desktop_dir(home: &str) -> (r: String)
    ensures
        r@ == shared(home@, "applications"@),
{
    share_dir(home, "applications")
}

/// Where icons go.
pub fn icon_dir(home: &str) -> (r: String)
    ensures
        r@ == joined(shared(home@, "icons"@), "hicolor"@),
{
    let a = share_dir(home, "icons");
    join(a.as_str(), "hicolor")
}

/// Where pictures without a theme go.
pub fn pixmap_dir(home: &str) -> (r: String)
    ensures
        r@ == shared(home@, "pixmaps"@),
{
    share_dir(home, "pixmaps")
}

// ---------------------------------------------------------------------------
// Laws
// ---------------------------------------------------------------------------

/// Everything that is kept lies below the user's home, so that users do not get
/// in each other's way.
pub proof fn everything_is_below_home(home: Seq<char>)
    ensures
        has_prefix(joined(hackeros(home), "store"@) + "/"@, home),
        has_prefix(joined(hackeros(home), "cache"@), home),
        has_prefix(joined(hackeros(home), "db"@), home),
        has_prefix(joined(joined(home, ".local"@), "bin"@), home),
        has_prefix(shared(home, "applications"@), home),
        has_prefix(joined(shared(home, "icons"@), "hicolor"@), home),
        has_prefix(shared(home, "pixmaps"@), home),
{
    reveal_strlit(".hackeros");
    reveal_strlit("hpm");
    reveal_strlit("store");
    reveal_strlit("cache");
    reveal_strlit("db");
    reveal_strlit(".local");
    reveal_strlit("bin");
    reveal_strlit("share");
    reveal_strlit("applications");
    reveal_strlit("icons");
    reveal_strlit("hicolor");
    reveal_strlit("pixmaps");
    assert(home.take(home.len() as int) =~= home);
    joined_keeps(home, home, ".hackeros"@);
    joined_keeps(home, joined(home, ".hackeros"@), "hpm"@);
    joined_keeps(home, hackeros(home), "store"@);
    joined_keeps(home, hackeros(home), "cache"@);
    joined_keeps(home, hackeros(home), "db"@);
    joined_keeps(home, home, ".local"@);
    joined_keeps(home, joined(home, ".local"@), "bin"@);
    let share = joined(joined(home, ".local"@), "share"@);
    joined_keeps(home, joined(home, ".local"@), "share"@);
    joined_keeps(home, share, "applications"@);
    joined_keeps(home, share, "icons"@);
    joined_keeps(home, share, "pixmaps"@);
    joined_keeps(home, shared(home, "icons"@), "hicolor"@);
    let store = joined(hackeros(home), "store"@);
    assert((store + "/"@).take(home.len() as int) =~= store.take(home.len() as int));
}

proof fn joined_keeps(home: Seq<char>, a: Seq<char>, b: Seq<char>)
    requires
        has_prefix(a, home),
        b.len() > 0,
        b[0] != '/',
    ensures
        has_prefix(joined(a, b), home),
{
    reveal_strlit("/");
    if has_prefix(b, "/"@) {
        assert(b.take(1)[0] == b[0]);
    }
    if a.len() == 0 {
        assert(home =~= a);
        assert(b.take(0) =~= home);
    } else {
        assert(joined(a, b).take(home.len() as int) =~= a.take(home.len() as int));
    }
}

/// A path that begins with a slash stands for itself; another stands below the directory,
/// with one slash between them.
pub proof fn how_paths_are_joined(a: Seq<char>, b: Seq<char>)
    ensures
        b.len() > 0 && b[0] == '/' ==> joined(a, b) == b,
        a.len() == 0 ==> joined(a, b) == b,
        a.len() > 0 && a.last() == '/' && (b.len() == 0 || b[0] != '/') ==> joined(a, b) == a + b,
        a.len() > 0 && a.last() != '/' && (b.len() == 0 || b[0] != '/') ==> joined(a, b) == a.push('/') + b,
{
    reveal_strlit("/");
    if b.len() > 0 {
        assert(b.take(1)[0] == b[0]);
        if b[0] == '/' {
            assert(b.take(1) =~= "/"@);
        }
    }
    if a.len() > 0 {
        assert(a.skip(a.len() - 1)[0] == a.last());
        if a.last() == '/' {
            assert(a.skip(a.len() - 1) =~= "/"@);
        }
    }
    assert(a + "/"@ + b =~= a.push('/') + b);
}

} // verus!
