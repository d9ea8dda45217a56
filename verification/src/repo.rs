//! The package index, repository addresses and package metadata.
use vstd::prelude::*;
use vstd::seq_lib::{lemma_seq_concat_contains_all_elements, lemma_seq_contains_after_push};

use crate::collections::{has_key, key_index, pairs_map_at, NameMap};
use crate::config::{file_text, filled_table, has_lone_quote, hk_parsed, hk_resolved, no_env_table, plain_table, ConfigTree};
use crate::manifest::{manifest_of, Manifest, ManifestModel};
use crate::order::{sort_unique, strictly_sorted, text_at_most, text_le, text_le_total, text_le_transitive, strictly_sorted_unique};
use crate::paths::{join, joined};
use crate::pattern::{contains, has_prefix, has_suffix, occurs, position_unique, replace, replace_all, replacing_goes_from_left_to_right, skip_chars, starts_with, strip_prefixes, stripping_goes_on, strip_suffixes, trim_end_text, trim_start_text};
use crate::text::{is_empty_text, cut, cut_at, cut_of_joined, is_spelled, is_white, join_strings, join_with, lines, lowercase, push_text, run, run_bounds, same, spells, split_by, split_class, split_extends, split_first, split_last, split_lines, strs, strs_push, substring, to_chars, to_lowercase, trim_end, trim_end_class, trim_start, trim_start_class, trim_white, trimmed, trimming_takes_white_ends, trimming_the_end, what_is_white, CharClass};
use crate::utils::{numeric, rank_versions, sort_versions, version_rank, version_rank_flips, version_rank_reflexive, version_rank_transitive, version_sorted, Rank};

verus! {

/// How long cached metadata counts as fresh, in seconds.
pub const CACHE_TTL_SECS: u64 = 3600;

/// How many packages are asked for at once in a search.
pub const SEARCH_CONCURRENCY: usize = 20;

// ---------------------------------------------------------------------------
// Repository addresses
// ---------------------------------------------------------------------------

/// Why an address of a repository is refused.
#[derive(Clone, Copy, PartialEq, Eq, Structural, Debug)]
pub enum UrlError {
    Empty,
    UnsupportedScheme,
    NoHostname,
    Localhost,
    PathTraversal,
}

/// Whether an address has one of the schemes that are allowed.
pub open spec fn allowed_scheme(url: Seq<char>) -> bool {
    has_prefix(url, "https://"@) || has_prefix(url, "http://"@) || has_prefix(url, "ssh://"@)
        || has_prefix(url, "git@"@)
}

/// Whether an address is one of the web.
pub open spec fn is_web(url: Seq<char>) -> bool {
    has_prefix(url, "https://"@) || has_prefix(url, "http://"@)
}

/// What stands in an address of the web behind the scheme and before the first
/// slash.
pub open spec fn host_part(url: Seq<char>) -> Seq<char> {
    split_by(
        strip_prefixes(strip_prefixes(url, "https://"@), "http://"@),
        CharClass::Is('/'),
    )[0]
}

/// The part of an address that names the host: what stands behind the scheme and
/// before the first slash, question mark or number sign.
pub open spec fn authority(url: Seq<char>) -> Seq<char> {
    let behind = strip_prefixes(
        strip_prefixes(strip_prefixes(url, "https://"@), "http://"@),
        "ssh://"@,
    );
    split_by(split_by(behind, CharClass::Is('/'))[0], CharClass::Either('?', '#'))[0]
}

/// A host without what stands beside it: the user before the last `@`, the port
/// or path behind a colon, and the brackets around an address. An address that
/// begins with two colons may stand without brackets.
pub open spec fn bare_host(authority: Seq<char>) -> Seq<char> {
    let host = split_by(authority, CharClass::Is('@')).last();
    if has_prefix(host, "["@) {
        split_by(host.skip(1), CharClass::Is(']'))[0]
    } else if has_prefix(host, "::"@) {
        host
    } else {
        split_by(host, CharClass::Is(':'))[0]
    }
}

/// The host of an address.
pub open spec fn hostname(url: Seq<char>) -> Seq<char> {
    bare_host(authority(url))
}

/// Whether a host is the machine itself.
pub open spec fn is_localhost(host: Seq<char>) -> bool {
    spells(host, "localhost"@, "LOCALHOST"@) || has_prefix(host, "127."@) || has_prefix(
        host,
        "::1"@,
    )
}

/// Whether an address points to the machine itself: by its host, or, on the web, by
/// how it begins behind the scheme.
pub open spec fn points_home(url: Seq<char>) -> bool {
    is_localhost(hostname(url)) || (is_web(url) && is_localhost(host_part(url)))
}

/// What is wrong with an address, if anything is: the first of these.
pub open spec fn url_problem(address: Seq<char>) -> Option<UrlError> {
    let url = trimmed(address);
    if url.len() == 0 {
        Some(UrlError::Empty)
    } else if !allowed_scheme(url) {
        Some(UrlError::UnsupportedScheme)
    } else if is_web(url) && host_part(url).len() == 0 {
        Some(UrlError::NoHostname)
    } else if points_home(url) {
        Some(UrlError::Localhost)
    } else if occurs(url, "../"@) || occurs(url, "..\\"@) {
        Some(UrlError::PathTraversal)
    } else {
        None
    }
}

/// The text of a refusal.
pub open spec fn url_message(e: UrlError, address: Seq<char>) -> Seq<char> {
    let url = trimmed(address);
    match e {
        UrlError::Empty => "Repository URL is empty"@,
        UrlError::UnsupportedScheme => "Repository URL '"@ + url
            + "' uses an unsupported scheme.\nOnly https://, http://, ssh://, git@ are allowed.\nThis prevents accidental access to local paths or unsafe protocols."@,
        UrlError::NoHostname => "Repository URL '"@ + url + "' has no hostname"@,
        UrlError::Localhost => "Repository URL '"@ + url
            + "' points to localhost — not allowed"@,
        UrlError::PathTraversal => "Repository URL '"@ + url
            + "' contains path traversal sequence"@,
    }
}

fn begins_with_host(url: &str) -> (r: String)
    ensures
        r@ == host_part(url@),
{
    let a = trim_start_text(url, "https://");
    let b = trim_start_text(a.as_str(), "http://");
    let pieces = split_class(b.as_str(), CharClass::Is('/'));
    assert(strs(pieces@)[0] == pieces@[0]@);
    pieces[0].clone()
}

fn names_localhost(host: &str) -> (r: bool)
    ensures
        r == is_localhost(host@),
{
    proof {
        reveal_strlit("localhost");
        reveal_strlit("LOCALHOST");
    }
    is_spelled(host, "localhost", "LOCALHOST") || starts_with(host, "127.") || starts_with(
        host,
        "::1",
    )
}

/// The host of an address.
fn host_of(url: &str) -> (r: String)
    ensures
        r@ == hostname(url@),
{
    let a = trim_start_text(url, "https://");
    let b = trim_start_text(a.as_str(), "http://");
    let c = trim_start_text(b.as_str(), "ssh://");
    let before_path = split_class(c.as_str(), CharClass::Is('/'));
    assert(strs(before_path@)[0] == before_path@[0]@);
    let before_query = split_class(before_path[0].as_str(), CharClass::Either('?', '#'));
    assert(strs(before_query@)[0] == before_query@[0]@);
    let parts = split_class(before_query[0].as_str(), CharClass::Is('@'));
    let host = parts[parts.len() - 1].as_str();
    assert(strs(parts@).last() == host@);
    if starts_with(host, "::") {
        assert(!has_prefix(host@, "["@)) by {
            reveal_strlit("[");
            reveal_strlit("::");
            assert(host@.take(2)[0] == host@[0]);
            if has_prefix(host@, "["@) {
                assert(host@.take(1)[0] == host@[0]);
            }
        }
        return host.to_owned();
    }
    if starts_with(host, "[") {
        proof {
            reveal_strlit("[");
        }
        let inner = skip_chars(host, 1);
        let pieces = split_class(inner.as_str(), CharClass::Is(']'));
        assert(strs(pieces@)[0] == pieces@[0]@);
        return pieces[0].clone();
    }
    let pieces = split_class(host, CharClass::Is(':'));
    assert(strs(pieces@)[0] == pieces@[0]@);
    pieces[0].clone()
}

/// Checks an address of a repository.
pub fn validate_repo_url(address: &str) -> (r: Result<(), UrlError>)
    ensures
        match r {
            Ok(_) => url_problem(address@) is None,
            Err(e) => url_problem(address@) == Some(e),
        },
{
    let url = trim_white(address);
    let u = url.as_str();
    if is_empty_text(u) {
        return Err(UrlError::Empty);
    }
    let web = starts_with(u, "https://") || starts_with(u, "http://");
    if !(web || starts_with(u, "ssh://") || starts_with(u, "git@")) {
        return Err(UrlError::UnsupportedScheme);
    }
    let part = begins_with_host(u);
    if web && is_empty_text(part.as_str()) {
        return Err(UrlError::NoHostname);
    }
    let host = host_of(u);
    if names_localhost(host.as_str()) || (web && names_localhost(part.as_str())) {
        return Err(UrlError::Localhost);
    }
    if contains(u, "../") || contains(u, "..\\") {
        return Err(UrlError::PathTraversal);
    }
    Ok(())
}

/// The text of a refusal.
pub fn url_error_message(e: UrlError, address: &str) -> (r: String)
    ensures
        r@ == url_message(e, address@),
{
    match e {
        UrlError::Empty => "Repository URL is empty".to_owned(),
        _ => {
            let url = trim_white(address);
            let mut s = "Repository URL '".to_owned();
            s.append(url.as_str());
            s.append(
                match e {
                    UrlError::Empty => "",
                    UrlError::UnsupportedScheme => "' uses an unsupported scheme.\nOnly https://, http://, ssh://, git@ are allowed.\nThis prevents accidental access to local paths or unsafe protocols.",
                    UrlError::NoHostname => "' has no hostname",
                    UrlError::Localhost => "' points to localhost — not allowed",
                    UrlError::PathTraversal => "' contains path traversal sequence",
                },
            );
            s
        },
    }
}

/// An address that is accepted has one of the allowed schemes, does not point to
/// the machine itself and does not lead out of a directory; in one of the web
/// something stands before the first slash.
pub proof fn accepted_url_is_remote(address: Seq<char>)
    requires
        url_problem(address) is None,
    ensures
        allowed_scheme(trimmed(address)),
        !is_localhost(hostname(trimmed(address))),
        is_web(trimmed(address)) ==> host_part(trimmed(address)).len() > 0 && !is_localhost(
            host_part(trimmed(address)),
        ),
        !occurs(trimmed(address), "../"@),
        !occurs(trimmed(address), "..\\"@),
{
}

/// What stands beside the host hides the machine itself from no check: an address
/// of the web with a user before it and a port behind it is refused like one
/// without them.
#[verifier::spinoff_prover]
#[verifier::rlimit(40)]
pub proof fn localhost_is_refused(user: Seq<char>, port: Seq<char>, path: Seq<char>)
    requires
        forall|i: int|
            0 <= i < user.len() ==> #[trigger] user[i] != '/' && user[i] != '?' && user[i] != '#',
        forall|i: int|
            0 <= i < port.len() ==> #[trigger] port[i] != '/' && port[i] != '?' && port[i] != '#'
                && port[i] != '@',
        trimmed("https://"@ + user + "@localhost:"@ + port + "/"@ + path) == "https://"@ + user
            + "@localhost:"@ + port + "/"@ + path,
    ensures
        url_problem("https://"@ + user + "@localhost:"@ + port + "/"@ + path) == Some(
            UrlError::Localhost,
        ),
{
    reveal_strlit("https://");
    reveal_strlit("http://");
    reveal_strlit("ssh://");
    reveal_strlit("@localhost:");
    reveal_strlit("localhost");
    reveal_strlit("LOCALHOST");
    reveal_strlit("[");
    reveal_strlit("::");
    reveal_strlit("/");
    let url = "https://"@ + user + "@localhost:"@ + port + "/"@ + path;
    let auth = user + "@localhost:"@ + port;
    let rest = auth.push('/') + path;
    assert(url =~= "https://"@ + rest);
    assert(url.take(8) =~= "https://"@);
    assert(url.skip(8) =~= rest);
    assert(rest[user.len() as int] == '@');
    assert forall|i: int| 0 <= i < auth.len() implies #[trigger] auth[i] != '/' && auth[i] != '?'
        && auth[i] != '#' by {
        if i < user.len() {
            assert(auth[i] == user[i]);
        } else if i < user.len() + 11 {
            assert(auth[i] == "@localhost:"@[i - user.len()]);
        } else {
            assert(auth[i] == port[i - user.len() - 11]);
        }
    }
    if has_prefix(rest, "https://"@) {
        assert(rest.take(8)[6] == '/');
        assert(auth[6] == rest[6]);
    }
    if has_prefix(rest, "http://"@) {
        assert(rest.take(7)[5] == '/');
        assert(auth[5] == rest[5]);
    }
    if has_prefix(rest, "ssh://"@) {
        assert(rest.take(6)[4] == '/');
        assert(auth[4] == rest[4]);
    }
    assert(strip_prefixes(rest, "https://"@) == rest);
    assert(strip_prefixes(url, "https://"@) == rest);
    assert(strip_prefixes(rest, "http://"@) == rest);
    assert(strip_prefixes(rest, "ssh://"@) == rest);
    split_first(auth, '/', path, CharClass::Is('/'));
    split_first(auth, '?', path, CharClass::Either('?', '#'));
    assert(authority(url) == auth);
    let host = "localhost"@.push(':') + port;
    assert(auth =~= user.push('@') + host);
    split_last(user, '@', host, CharClass::Is('@'));
    assert(host[0] == 'l');
    if has_prefix(host, "["@) {
        assert(host.take(1)[0] == 'l');
    }
    if has_prefix(host, "::"@) {
        assert(host.take(2)[0] == 'l');
    }
    split_first("localhost"@, ':', port, CharClass::Is(':'));
    assert(hostname(url) == "localhost"@);
}

/// An address of a local file is never accepted.
pub proof fn file_url_is_refused(path: Seq<char>)
    requires
        trimmed("file://"@ + path) == "file://"@ + path,
    ensures
        url_problem("file://"@ + path) == Some(UrlError::UnsupportedScheme),
{
    reveal_strlit("file://");
    reveal_strlit("https://");
    reveal_strlit("http://");
    reveal_strlit("ssh://");
    reveal_strlit("git@");
    let u = "file://"@ + path;
    assert(u[0] == 'f');
    if has_prefix(u, "https://"@) {
        assert(u.take(8)[0] == 'h');
    }
    if has_prefix(u, "http://"@) {
        assert(u.take(7)[0] == 'h');
    }
    if has_prefix(u, "ssh://"@) {
        assert(u.take(6)[0] == 's');
    }
    if has_prefix(u, "git@"@) {
        assert(u.take(4)[0] == 'g');
    }
}

// ---------------------------------------------------------------------------
// The index
// ---------------------------------------------------------------------------

/// The packages of the repository, with the addresses of their repositories.
#[derive(Debug)]
pub struct RepoIndex {
    pub packages: NameMap,
}

/// The complaints about the addresses of an index, in the order of its entries.
pub open spec fn url_complaints(pairs: Seq<(Seq<char>, Seq<char>)>) -> Seq<Seq<char>>
    decreases pairs.len(),
{
    if pairs.len() == 0 {
        Seq::empty()
    } else {
        let rest = url_complaints(pairs.drop_last());
        match url_problem(pairs.last().1) {
            Some(e) => rest + seq![
                "  "@ + pairs.last().0 + ": "@ + url_message(e, pairs.last().1),
            ],
            None => rest,
        }
    }
}

impl RepoIndex {
    /// No package occurs twice.
    pub open spec fn wf(&self) -> bool {
        self.packages.wf()
    }

    /// The address of a package's repository.
    pub fn url_of(&self, name: &str) -> (r: Option<&String>)
        requires
            self.wf(),
        ensures
            match r {
                Some(u) => self.packages@.dom().contains(name@) && self.packages@[name@] == u@,
                None => !self.packages@.dom().contains(name@),
            },
    {
        self.packages.get(name)
    }

    /// The names of the packages, in order.
    pub fn names(&self) -> (r: Vec<String>)
        requires
            self.wf(),
        ensures
            strictly_sorted(strs(r@)),
            forall|n: Seq<char>| #[trigger]
                strs(r@).contains(n) == self.packages@.dom().contains(n),
    {
        let mut out: Vec<String> = Vec::new();
        let mut i: usize = 0;
        let ghost p = self.packages.pairs();
        while i < self.packages.len()
            invariant
                i <= p.len(),
                p == self.packages.pairs(),
                out@.len() == i,
                forall|j: int| 0 <= j < i ==> #[trigger] strs(out@)[j] == p[j].0,
            decreases p.len() - i,
        {
            let k = self.packages.key_at(i).clone();
            proof {
                strs_push(out@, k);
            }
            out.push(k);
            i = i + 1;
        }
        proof {
            assert forall|n: Seq<char>| #[trigger] strs(out@).contains(n)
                == self.packages@.dom().contains(n) by {
                if strs(out@).contains(n) {
                    let j = choose|j: int| 0 <= j < strs(out@).len() && strs(out@)[j] == n;
                    pairs_map_at(p, j);
                }
                if self.packages@.dom().contains(n) {
                    let j = key_index(p, n);
                    assert(has_key(p, n));
                    assert(strs(out@)[j] == n);
                }
            }
        }
        sort_unique(out)
    }

    /// The number of packages.
    pub fn len(&self) -> (r: usize)
        ensures
            r == self.packages.pairs().len(),
    {
        self.packages.len()
    }

    /// Checks every address of the index.
    pub fn validate_urls(&self) -> (r: Result<(), String>)
        ensures
            match r {
                Ok(_) => url_complaints(self.packages.pairs()).len() == 0,
                Err(m) => url_complaints(self.packages.pairs()).len() > 0 && m@
                    == "repo.json contains invalid repository URLs:\n"@ + join_with(
                    url_complaints(self.packages.pairs()),
                    "\n"@,
                ) + "\nContact the maintainer to fix repo.json."@,
            },
    {
        let mut bad: Vec<String> = Vec::new();
        let mut i: usize = 0;
        let ghost p = self.packages.pairs();
        assert(p.take(0) =~= Seq::<(Seq<char>, Seq<char>)>::empty());
        assert(strs(bad@) =~= Seq::<Seq<char>>::empty());
        while i < self.packages.len()
            invariant
                i <= p.len(),
                p == self.packages.pairs(),
                strs(bad@) == url_complaints(p.take(i as int)),
            decreases p.len() - i,
        {
            let url = self.packages.value_at(i).as_str();
            proof {
                let longer = p.take(i + 1);
                assert(longer.drop_last() =~= p.take(i as int));
                assert(longer.last() == p[i as int]);
            }
            match validate_repo_url(url) {
                Ok(_) => {},
                Err(e) => {
                    let mut s = "  ".to_owned();
                    s.append(self.packages.key_at(i).as_str());
                    s.append(": ");
                    let m = url_error_message(e, url);
                    s.append(m.as_str());
                    push_text(&mut bad, s);
                },
            }
            i = i + 1;
        }
        assert(p.take(p.len() as int) =~= p);
        if bad.len() == 0 {
            return Ok(());
        }
        let mut s = "repo.json contains invalid repository URLs:\n".to_owned();
        let j = join_strings(&bad, "\n");
        s.append(j.as_str());
        s.append("\nContact the maintainer to fix repo.json.");
        Err(s)
    }
}

proof fn url_complaints_none(pairs: Seq<(Seq<char>, Seq<char>)>)
    ensures
        (url_complaints(pairs).len() == 0) == (forall|i: int|
            0 <= i < pairs.len() ==> url_problem((#[trigger] pairs[i]).1) is None),
    decreases pairs.len(),
{
    if pairs.len() > 0 {
        let t = pairs.drop_last();
        url_complaints_none(t);
        if forall|i: int| 0 <= i < pairs.len() ==> url_problem((#[trigger] pairs[i]).1) is None {
            assert forall|i: int| 0 <= i < t.len() implies url_problem((#[trigger] t[i]).1) is None by {
                assert(t[i] == pairs[i]);
            }
            assert(url_problem(pairs[pairs.len() - 1].1) is None);
        }
        if url_complaints(pairs).len() == 0 {
            assert forall|i: int| 0 <= i < pairs.len() implies url_problem((#[trigger] pairs[i]).1) is None by {
                if i < t.len() {
                    assert(t[i] == pairs[i]);
                }
            }
        }
    }
}

/// An index is accepted exactly where each of its addresses is.
pub proof fn index_accepted_iff_urls_are(index: RepoIndex)
    requires
        index.wf(),
    ensures
        (url_complaints(index.packages.pairs()).len() == 0) == (forall|n: Seq<char>| #[trigger]
            index.packages@.dom().contains(n) ==> url_problem(index.packages@[n]) is None),
{
    let p = index.packages.pairs();
    url_complaints_none(p);
    if forall|i: int| 0 <= i < p.len() ==> url_problem((#[trigger] p[i]).1) is None {
        assert forall|n: Seq<char>| #[trigger] index.packages@.dom().contains(n) implies url_problem(index.packages@[n]) is None by {
            let i = key_index(p, n);
            assert(has_key(p, n));
            pairs_map_at(p, i);
        }
    }
    if forall|n: Seq<char>| #[trigger] index.packages@.dom().contains(n) ==> url_problem(index.packages@[n]) is None {
        assert forall|i: int| 0 <= i < p.len() implies url_problem((#[trigger] p[i]).1) is None by {
            pairs_map_at(p, i);
            assert(index.packages@.dom().contains(p[i].0));
        }
    }
}

/// Where the index is read from.
#[derive(Debug)]
pub enum IndexSource {
    /// A local file.
    File(String),
    /// An address of the web.
    Web(String),
}

/// Where the index is read from: the address that is set, or else that of the
/// official index; an address of a local file is a path.
pub fn index_source(set: &Option<String>, official: &str) -> (r: IndexSource)
    ensures
        ({
            let url = match set {
                Some(u) => u@,
                None => official@,
            };
            match r {
                IndexSource::File(p) => has_prefix(url, "file://"@) && p@ == url.skip(7),
                IndexSource::Web(u) => !has_prefix(url, "file://"@) && u@ == url,
            }
        }),
{
    let url: &str = match set {
        Some(u) => u.as_str(),
        None => official,
    };
    if starts_with(url, "file://") {
        proof {
            reveal_strlit("file://");
        }
        IndexSource::File(skip_chars(url, 7))
    } else {
        IndexSource::Web(url.to_owned())
    }
}

/// The text of a failure to reach a server.
pub fn network_error_message(msg: &str, timed_out: bool) -> (r: String)
    ensures
        r@ == (if occurs(msg@, "certificate"@) || occurs(msg@, "SSL"@) {
            "TLS error: "@ + msg@
                + "\nFix: sudo apt install ca-certificates && sudo update-ca-certificates"@
        } else if timed_out {
            "Connection timed out. Check your internet connection."@
        } else {
            "Network error: "@ + msg@
        }),
{
    if contains(msg, "certificate") || contains(msg, "SSL") {
        let mut s = "TLS error: ".to_owned();
        s.append(msg);
        s.append("\nFix: sudo apt install ca-certificates && sudo update-ca-certificates");
        s
    } else if timed_out {
        "Connection timed out. Check your internet connection.".to_owned()
    } else {
        let mut s = "Network error: ".to_owned();
        s.append(msg);
        s
    }
}

// ---------------------------------------------------------------------------
// Files of a repository
// ---------------------------------------------------------------------------

/// An address without slashes and then without `.git` at its end.
pub open spec fn bare_url(url: Seq<char>) -> Seq<char> {
    strip_suffixes(trim_end(url, CharClass::Is('/')), ".git"@)
}

fn bare_url_of(url: &str) -> (r: String)
    ensures
        r@ == bare_url(url@),
{
    let a = trim_end_class(url, CharClass::Is('/'));
    trim_end_text(a.as_str(), ".git")
}

/// Where single files of a repository can be read, if it is one of GitHub.
pub open spec fn raw_base(url: Seq<char>) -> Option<Seq<char>> {
    let b = bare_url(url);
    if occurs(b, "github.com"@) {
        Some(replace_all(b, "https://github.com/"@, "https://raw.githubusercontent.com/"@))
    } else {
        None
    }
}

/// Where single files of a repository can be read, if it is one of GitHub.
pub fn raw_base_url(repo_url: &str) -> (r: Option<String>)
    ensures
        match r {
            Some(u) => raw_base(repo_url@) == Some(u@),
            None => raw_base(repo_url@) is None,
        },
{
    let b = bare_url_of(repo_url);
    if contains(b.as_str(), "github.com") {
        Some(replace(b.as_str(), "https://github.com/", "https://raw.githubusercontent.com/"))
    } else {
        None
    }
}

/// The address of a file on a branch.
pub open spec fn branch_url(base: Seq<char>, branch: Seq<char>, file: Seq<char>) -> Seq<char> {
    base + "/"@ + branch + "/"@ + file
}

fn branch_url_of(base: &str, branch: &str, file: &str) -> (r: String)
    ensures
        r@ == branch_url(base@, branch@, file@),
{
    let mut s = base.to_owned();
    s.append("/");
    s.append(branch);
    s.append("/");
    s.append(file);
    s
}

/// The addresses at which a file is looked for, in order; none where the
/// repository is not one of GitHub.
pub fn raw_file_urls(repo_url: &str, file: &str) -> (r: Vec<String>)
    ensures
        strs(r@) == (match raw_base(repo_url@) {
            Some(b) => seq![
                branch_url(b, "main"@, file@),
                branch_url(b, "master"@, file@),
                branch_url(b, "HEAD"@, file@),
            ],
            None => Seq::empty(),
        }),
{
    let mut out: Vec<String> = Vec::new();
    match raw_base_url(repo_url) {
        None => {
            assert(strs(out@) =~= Seq::<Seq<char>>::empty());
        },
        Some(b) => {
            out.push(branch_url_of(b.as_str(), "main", file));
            out.push(branch_url_of(b.as_str(), "master", file));
            out.push(branch_url_of(b.as_str(), "HEAD", file));
            assert(strs(out@) =~= seq![
                branch_url(b@, "main"@, file@),
                branch_url(b@, "master"@, file@),
                branch_url(b@, "HEAD"@, file@),
            ]);
        },
    }
    out
}

/// Whether a character is a letter or a number.
pub uninterp spec fn alphanumeric(c: char) -> bool;

/// `char::is_alphanumeric`: the answer is a function of the character alone.
pub assume_specification[ char::is_alphanumeric ](c: char) -> (r: bool)
    ensures
        r == alphanumeric(c),
;

/// A text with an underscore for every character that is neither a letter, a
/// number, a hyphen nor an underscore.
pub open spec fn slugged(s: Seq<char>) -> Seq<char> {
    s.map_values(
        |c: char|
            if alphanumeric(c) || c == '-' || c == '_' {
                c
            } else {
                '_'
            },
    )
}

/// The name of a cache directory for a repository, made from the last part of
/// its address.
pub open spec fn url_slug(url: Seq<char>) -> Seq<char> {
    let s = slugged(split_by(bare_url(url), CharClass::Is('/')).last());
    if s.len() == 0 {
        "repo"@
    } else {
        "_meta_"@ + s
    }
}

/// The name of a cache directory for a repository.
pub fn slug_for_url(url: &str) -> (r: String)
    ensures
        r@ == url_slug(url@),
{
    let b = bare_url_of(url);
    let pieces = split_class(b.as_str(), CharClass::Is('/'));
    let n = pieces.len();
    let last = to_chars(pieces[n - 1].as_str());
    assert(strs(pieces@).last() == last@);
    if last.len() == 0 {
        return "repo".to_owned();
    }
    let mut s = "_meta_".to_owned();
    let mut i: usize = 0;
    assert("_meta_"@ + slugged(last@).take(0) =~= "_meta_"@);
    while i < last.len()
        invariant
            i <= last@.len(),
            s@ == "_meta_"@ + slugged(last@).take(i as int),
        decreases last@.len() - i,
    {
        let c = last[i];
        let d = if c.is_alphanumeric() || c == '-' || c == '_' {
            c
        } else {
            '_'
        };
        assert(slugged(last@).take(i + 1) =~= slugged(last@).take(i as int).push(d));
        assert("_meta_"@ + slugged(last@).take(i as int).push(d) =~= ("_meta_"@ + slugged(
            last@,
        ).take(i as int)).push(d));
        s.push(d);
        i = i + 1;
    }
    assert(slugged(last@).take(last@.len() as int) =~= slugged(last@));
    s
}

/// The directory of cached metadata.
pub fn meta_cache_dir(cache_dir: &str) -> (r: String)
    ensures
        r@ == cache_dir@ + "/meta"@,
{
    let mut s = cache_dir.to_owned();
    s.append("/meta");
    s
}

/// The file of a package's cached metadata.
pub fn cache_path_for(cache_dir: &str, name: &str) -> (r: String)
    ensures
        r@ == joined(cache_dir@ + "/meta"@, name@ + ".json"@),
{
    let dir = meta_cache_dir(cache_dir);
    let mut file = name.to_owned();
    file.append(".json");
    join(dir.as_str(), file.as_str())
}

/// The owner and the name of a repository of GitHub.
pub open spec fn owner_repo(url: Seq<char>) -> Option<(Seq<char>, Seq<char>)> {
    let c = trim_end(strip_suffixes(trimmed(url), ".git"@), CharClass::Is('/'));
    let rest = if has_prefix(c, "https://github.com/"@) {
        Some(c.skip(19))
    } else if has_prefix(c, "http://github.com/"@) {
        Some(c.skip(18))
    } else if has_prefix(c, "git@github.com:"@) {
        Some(c.skip(15))
    } else {
        None
    };
    match rest {
        None => None,
        Some(r) => match cut(r, '/') {
            Some((owner, repo)) => if owner.len() > 0 && repo.len() > 0 {
                Some((owner, repo))
            } else {
                None
            },
            None => None,
        },
    }
}

/// The owner and the name of a repository of GitHub.
pub fn parse_github_owner_repo(url: &str) -> (r: Option<(String, String)>)
    ensures
        match r {
            Some((owner, repo)) => owner_repo(url@) == Some((owner@, repo@)),
            None => owner_repo(url@) is None,
        },
{
    proof {
        reveal_strlit("https://github.com/");
        reveal_strlit("http://github.com/");
        reveal_strlit("git@github.com:");
    }
    let a = trim_white(url);
    let b = trim_end_text(a.as_str(), ".git");
    let c = trim_end_class(b.as_str(), CharClass::Is('/'));
    let rest = if starts_with(c.as_str(), "https://github.com/") {
        skip_chars(c.as_str(), 19)
    } else if starts_with(c.as_str(), "http://github.com/") {
        skip_chars(c.as_str(), 18)
    } else if starts_with(c.as_str(), "git@github.com:") {
        skip_chars(c.as_str(), 15)
    } else {
        return None;
    };
    match cut_at(rest.as_str(), '/') {
        None => None,
        Some((owner, repo)) => {
            if is_empty_text(owner.as_str()) || is_empty_text(repo.as_str()) {
                None
            } else {
                Some((owner, repo))
            }
        },
    }
}

/// A file attached to a release.
#[derive(Debug)]
pub struct GithubAsset {
    pub name: String,
    pub browser_download_url: String,
}

/// A release of a repository of GitHub.
#[derive(Debug)]
pub struct GithubRelease {
    pub tag_name: String,
    pub assets: Vec<GithubAsset>,
}

/// The address at which a release is asked for: the one of a tag, or the latest.
pub fn release_api_url(owner: &str, repo: &str, tag: &Option<String>) -> (r: String)
    ensures
        r@ == (match tag {
            Some(t) => "https://api.github.com/repos/"@ + owner@ + "/"@ + repo@
                + "/releases/tags/"@ + t@,
            None => "https://api.github.com/repos/"@ + owner@ + "/"@ + repo@
                + "/releases/latest"@,
        }),
{
    let mut s = "https://api.github.com/repos/".to_owned();
    s.append(owner);
    s.append("/");
    s.append(repo);
    match tag {
        Some(t) => {
            s.append("/releases/tags/");
            s.append(t.as_str());
        },
        None => {
            s.append("/releases/latest");
        },
    }
    s
}

/// The text for a release that does not exist.
pub fn release_not_found(owner: &str, repo: &str, tag: &Option<String>) -> (r: String)
    ensures
        r@ == "No "@ + (match tag {
            Some(t) => "release tagged '"@ + t@ + "'"@,
            None => "releases"@,
        }) + " found for "@ + owner@ + "/"@ + repo@
            + " on GitHub.\n  The maintainer needs to publish one (see `hpm build`), or drop --release to use git clone instead."@,
{
    let what = match tag {
        Some(t) => {
            let mut w = "release tagged '".to_owned();
            w.append(t.as_str());
            w.append("'");
            w
        },
        None => "releases".to_owned(),
    };
    let mut s = "No ".to_owned();
    s.append(what.as_str());
    s.append(" found for ");
    s.append(owner);
    s.append("/");
    s.append(repo);
    s.append(
        " on GitHub.\n  The maintainer needs to publish one (see `hpm build`), or drop --release to use git clone instead.",
    );
    s
}

// ---------------------------------------------------------------------------
// Tags
// ---------------------------------------------------------------------------

/// The version that a tag stands for: the tag without the `v`s at its start.
pub open spec fn tag_version(tag: Seq<char>) -> Seq<char> {
    trim_start(tag, CharClass::Is('v'))
}

/// The versions that tags stand for.
pub open spec fn tag_versions(tags: Seq<Seq<char>>) -> Seq<Seq<char>> {
    tags.map_values(|t: Seq<char>| tag_version(t))
}

/// The version that a tag stands for.
pub fn version_of_tag(tag: &str) -> (r: String)
    ensures
        r@ == tag_version(tag@),
{
    trim_start_class(tag, CharClass::Is('v'))
}

/// The versions that the tags of a repository stand for, oldest first.
pub fn versions_of_tags(tags: &Vec<String>) -> (r: Vec<String>)
    ensures
        strs(r@) == version_sorted(tag_versions(strs(tags@))),
        r@.len() == tags@.len(),
{
    let mut out: Vec<String> = Vec::new();
    let mut i: usize = 0;
    let ghost all = tag_versions(strs(tags@));
    assert(all.take(0) =~= strs(out@));
    while i < tags.len()
        invariant
            i <= tags@.len(),
            out@.len() == i,
            all == tag_versions(strs(tags@)),
            strs(out@) == all.take(i as int),
        decreases tags@.len() - i,
    {
        let v = version_of_tag(tags[i].as_str());
        proof {
            assert(all[i as int] == v@);
            assert(all.take(i + 1) =~= all.take(i as int).push(v@));
            strs_push(out@, v);
        }
        out.push(v);
        i = i + 1;
    }
    assert(all.take(all.len() as int) =~= all);
    sort_versions(&out)
}

// ---------------------------------------------------------------------------
// Metadata
// ---------------------------------------------------------------------------

/// What a search or an information request shows of a package.
#[derive(Debug)]
pub struct PackageMeta {
    pub name: String,
    pub version: String,
    pub summary: String,
    pub authors: String,
    pub license: String,
    pub tags: Vec<String>,
    pub available_versions: Vec<String>,
    /// When it was read, in seconds since 1970.
    pub fetched_at: u64,
}

/// Metadata as a mathematical value.
#[verifier::ext_equal]
pub struct MetaModel {
    pub name: Seq<char>,
    pub version: Seq<char>,
    pub summary: Seq<char>,
    pub authors: Seq<char>,
    pub license: Seq<char>,
    pub tags: Seq<Seq<char>>,
    pub available_versions: Seq<Seq<char>>,
    pub fetched_at: u64,
}

impl View for PackageMeta {
    type V = MetaModel;

    open spec fn view(&self) -> MetaModel {
        MetaModel {
            name: self.name@,
            version: self.version@,
            summary: self.summary@,
            authors: self.authors@,
            license: self.license@,
            tags: strs(self.tags@),
            available_versions: strs(self.available_versions@),
            fetched_at: self.fetched_at,
        }
    }
}

/// Whether metadata that was read at one time is stale at another.
pub open spec fn stale(fetched_at: u64, now: u64) -> bool {
    now - fetched_at > CACHE_TTL_SECS
}

impl PackageMeta {
    /// Whether the metadata is stale.
    pub fn is_stale(&self, now: u64) -> (r: bool)
        ensures
            r == stale(self.fetched_at, now),
    {
        now > self.fetched_at && now - self.fetched_at > CACHE_TTL_SECS
    }

    /// A copy.
    pub fn copy(&self) -> (r: PackageMeta)
        ensures
            r@ == self@,
    {
        PackageMeta {
            name: self.name.clone(),
            version: self.version.clone(),
            summary: self.summary.clone(),
            authors: self.authors.clone(),
            license: self.license.clone(),
            tags: crate::text::copy_strings(&self.tags),
            available_versions: crate::text::copy_strings(&self.available_versions),
            fetched_at: self.fetched_at,
        }
    }
}

/// Once stale, metadata stays stale.
pub proof fn staleness_lasts(fetched_at: u64, now: u64, later: u64)
    requires
        stale(fetched_at, now),
        now <= later,
    ensures
        stale(fetched_at, later),
{
}

/// The value of a line `key = value`, without the quotation marks round it.
pub open spec fn hk_value(line: Seq<char>, key: Seq<char>) -> Option<Seq<char>> {
    let prefix = key + " ="@;
    if !has_prefix(line, prefix) {
        None
    } else {
        let rest = trimmed(line.skip(prefix.len() as int));
        if rest.len() >= 2 && rest[0] == '"' && rest.last() == '"' {
            Some(rest.subrange(1, rest.len() - 1))
        } else {
            Some(rest)
        }
    }
}

/// The value of a line `key = value`.
pub fn extract_hk_value(line: &str, key: &str) -> (r: Option<String>)
    ensures
        match r {
            Some(v) => hk_value(line@, key@) == Some(v@),
            None => hk_value(line@, key@) is None,
        },
{
    let mut prefix = key.to_owned();
    prefix.append(" =");
    if !starts_with(line, prefix.as_str()) {
        return None;
    }
    let n = to_chars(prefix.as_str()).len();
    let tail = skip_chars(line, n);
    let rest = trim_white(tail.as_str());
    let v = to_chars(rest.as_str());
    if v.len() >= 2 && v[0] == '"' && v[v.len() - 1] == '"' {
        Some(substring(&v, 1, v.len() - 1))
    } else {
        Some(rest)
    }
}

/// The value of the last line that gives one, or another where none does.
pub open spec fn scanned(all: Seq<Seq<char>>, key: Seq<char>, other: Seq<char>) -> Seq<char>
    decreases all.len(),
{
    if all.len() == 0 {
        other
    } else {
        match hk_value(trimmed(all.last()), key) {
            Some(v) => v,
            None => scanned(all.drop_last(), key, other),
        }
    }
}

/// The metadata that the lines of a manifest give, where it cannot be read as one.
pub open spec fn scanned_meta(name: Seq<char>, content: Seq<char>, now: u64) -> MetaModel {
    let all = lines(content);
    MetaModel {
        name,
        version: scanned(all, "version"@, "unknown"@),
        summary: scanned(all, "summary"@, "No description available"@),
        authors: scanned(all, "authors"@, Seq::empty()),
        license: scanned(all, "license"@, Seq::empty()),
        tags: Seq::empty(),
        available_versions: Seq::empty(),
        fetched_at: now,
    }
}

fn scan_lines(all: &Vec<String>, key: &str, other: &str) -> (r: String)
    ensures
        r@ == scanned(strs(all@), key@, other@),
{
    let mut found = other.to_owned();
    let mut i: usize = 0;
    let ghost s = strs(all@);
    assert(s.take(0) =~= Seq::<Seq<char>>::empty());
    while i < all.len()
        invariant
            i <= all@.len(),
            s == strs(all@),
            found@ == scanned(s.take(i as int), key@, other@),
        decreases all@.len() - i,
    {
        let line = trim_white(all[i].as_str());
        proof {
            let longer = s.take(i + 1);
            assert(longer.drop_last() =~= s.take(i as int));
            assert(longer.last() == all@[i as int]@);
        }
        match extract_hk_value(line.as_str(), key) {
            Some(v) => {
                found = v;
            },
            None => {},
        }
        i = i + 1;
    }
    assert(s.take(s.len() as int) =~= s);
    found
}

/// The metadata that the lines of a manifest give, where it cannot be read as one.
pub fn scan_meta(name: &str, content: &str, now: u64) -> (r: PackageMeta)
    ensures
        r@ == scanned_meta(name@, content@, now),
{
    let all = split_lines(content);
    proof {
        reveal_strlit("");
        assert(""@ =~= Seq::<char>::empty());
    }
    let r = PackageMeta {
        name: name.to_owned(),
        version: scan_lines(&all, "version", "unknown"),
        summary: scan_lines(&all, "summary", "No description available"),
        authors: scan_lines(&all, "authors", ""),
        license: scan_lines(&all, "license", ""),
        tags: Vec::new(),
        available_versions: Vec::new(),
        fetched_at: now,
    };
    assert(r@ =~= scanned_meta(name@, content@, now));
    r
}

// ---------------------------------------------------------------------------
// Searching
// ---------------------------------------------------------------------------

/// What is searched for: a tag, or a text in names and summaries.
#[derive(Debug)]
pub struct Query {
    pub is_tag: bool,
    /// In lower case.
    pub text: String,
}

/// Whether one of the tags is `tag`, which is in lower case.
pub open spec fn has_tag(tags: Seq<Seq<char>>, tag: Seq<char>) -> bool {
    exists|i: int| 0 <= i < tags.len() && lowercase(#[trigger] tags[i]) == tag
}

/// Whether metadata is what is searched for.
pub open spec fn found_by(is_tag: bool, text: Seq<char>, m: MetaModel) -> bool {
    ||| text.len() == 0
    ||| !is_tag && (occurs(lowercase(m.name), text) || occurs(lowercase(m.summary), text))
    ||| is_tag && has_tag(m.tags, text)
}

/// What a query searches for.
pub fn parse_query(query: &str) -> (r: Query)
    ensures
        r.is_tag == has_prefix(query@, "@"@),
        r.text@ == lowercase(trim_start(query@, CharClass::Is('@'))),
{
    let bare = trim_start_class(query, CharClass::Is('@'));
    Query { is_tag: starts_with(query, "@"), text: to_lowercase(bare.as_str()) }
}

/// Whether one of the tags is `tag`.
pub fn carries_tag(tags: &Vec<String>, tag: &str) -> (r: bool)
    ensures
        r == has_tag(strs(tags@), tag@),
{
    let mut i: usize = 0;
    while i < tags.len()
        invariant
            i <= tags@.len(),
            forall|j: int| 0 <= j < i ==> lowercase(#[trigger] strs(tags@)[j]) != tag@,
        decreases tags@.len() - i,
    {
        let t = to_lowercase(tags[i].as_str());
        assert(strs(tags@)[i as int] == tags@[i as int]@);
        if same(t.as_str(), tag) {
            return true;
        }
        i = i + 1;
    }
    false
}

impl Query {
    /// Whether metadata is what is searched for.
    pub fn matches(&self, meta: &PackageMeta) -> (r: bool)
        ensures
            r == found_by(self.is_tag, self.text@, meta@),
    {
        if is_empty_text(self.text.as_str()) {
            return true;
        }
        if self.is_tag {
            carries_tag(&meta.tags, self.text.as_str())
        } else {
            let n = to_lowercase(meta.name.as_str());
            let s = to_lowercase(meta.summary.as_str());
            contains(n.as_str(), self.text.as_str()) || contains(s.as_str(), self.text.as_str())
        }
    }

    /// Whether a package is looked at in a search: in a search for a tag each
    /// that is not known to lack it, else each with the text in its name.
    pub fn is_candidate(&self, name: &str, cached: Option<&PackageMeta>) -> (r: bool)
        ensures
            r == looked_at(
                self.is_tag,
                self.text@,
                name@,
                match cached {
                    Some(m) => Some(strs(m.tags@)),
                    None => None,
                },
            ),
    {
        if is_empty_text(self.text.as_str()) {
            return true;
        }
        if self.is_tag {
            match cached {
                Some(m) => carries_tag(&m.tags, self.text.as_str()),
                None => true,
            }
        } else {
            let n = to_lowercase(name);
            contains(n.as_str(), self.text.as_str())
        }
    }
}

/// A package that is looked at in a search.
#[derive(Debug)]
pub struct Candidate {
    pub name: String,
    /// What the cache has of it.
    pub cached: Option<PackageMeta>,
    /// What its repository gave, where it was asked and answered.
    pub fetched: Option<PackageMeta>,
    /// The versions of its local clone.
    pub local_versions: Vec<String>,
}

/// The entry for a package of which nothing is known.
pub open spec fn unknown_meta(name: Seq<char>, local_versions: Seq<Seq<char>>) -> MetaModel {
    MetaModel {
        name,
        version: "unknown"@,
        summary: "Could not fetch (offline?)"@,
        authors: Seq::empty(),
        license: Seq::empty(),
        tags: Seq::empty(),
        available_versions: local_versions,
        fetched_at: 0,
    }
}

/// What a search says of a package: what the cache has if that is fresh, else
/// what was fetched, else what the cache has though it is stale; in each case
/// if it is what is searched for. Of a package of which nothing is known only
/// the name is searched.
pub open spec fn search_entry(is_tag: bool, text: Seq<char>, c: Candidate, now: u64) -> Option<MetaModel> {
    let known = match (c.cached, c.fetched) {
        (Some(m), f) => if !stale(m.fetched_at, now) {
            Some(m@)
        } else {
            match f {
                Some(n) => Some(n@),
                None => Some(m@),
            }
        },
        (None, Some(n)) => Some(n@),
        (None, None) => None,
    };
    match known {
        Some(m) => if found_by(is_tag, text, m) {
            Some(m)
        } else {
            None
        },
        None => if text.len() == 0 || (!is_tag && occurs(lowercase(c.name@), text)) {
            Some(unknown_meta(c.name@, strs(c.local_versions@)))
        } else {
            None
        },
    }
}

/// The metadata of a list.
pub open spec fn metas(v: Seq<PackageMeta>) -> Seq<MetaModel> {
    v.map_values(|m: PackageMeta| m@)
}

/// What a search says of the packages that were looked at.
pub open spec fn search_entries(is_tag: bool, text: Seq<char>, cs: Seq<Candidate>, now: u64) -> Seq<MetaModel>
    decreases cs.len(),
{
    if cs.len() == 0 {
        Seq::empty()
    } else {
        let rest = search_entries(is_tag, text, cs.drop_last(), now);
        match search_entry(is_tag, text, cs.last(), now) {
            Some(m) => rest.push(m),
            None => rest,
        }
    }
}

/// Whether the entries are in the order of their names.
pub open spec fn by_name(s: Seq<MetaModel>) -> bool {
    forall|i: int, j: int|
        0 <= i < j < s.len() ==> text_le((#[trigger] s[i]).name, (#[trigger] s[j]).name)
}

impl Query {
    /// Whether the repository of a package has to be asked.
    pub fn needs_fetch(&self, cached: &Option<PackageMeta>, now: u64) -> (r: bool)
        ensures
            r == (match cached {
                Some(m) => stale(m.fetched_at, now),
                None => true,
            }),
    {
        match cached {
            Some(m) => m.is_stale(now),
            None => true,
        }
    }

    /// What a search says of a package.
    pub fn entry(&self, c: &Candidate, now: u64) -> (r: Option<PackageMeta>)
        ensures
            match r {
                Some(m) => search_entry(self.is_tag, self.text@, *c, now) == Some(m@),
                None => search_entry(self.is_tag, self.text@, *c, now) is None,
            },
    {
        let known: Option<&PackageMeta> = match &c.cached {
            Some(m) => {
                if !m.is_stale(now) {
                    Some(m)
                } else {
                    match &c.fetched {
                        Some(n) => Some(n),
                        None => Some(m),
                    }
                }
            },
            None => match &c.fetched {
                Some(n) => Some(n),
                None => None,
            },
        };
        match known {
            Some(m) => {
                if self.matches(m) {
                    Some(m.copy())
                } else {
                    None
                }
            },
            None => {
                let lower = to_lowercase(c.name.as_str());
                if is_empty_text(self.text.as_str()) || (!self.is_tag && contains(
                    lower.as_str(),
                    self.text.as_str(),
                )) {
                    let r = PackageMeta {
                        name: c.name.clone(),
                        version: "unknown".to_owned(),
                        summary: "Could not fetch (offline?)".to_owned(),
                        authors: String::new(),
                        license: String::new(),
                        tags: Vec::new(),
                        available_versions: crate::text::copy_strings(&c.local_versions),
                        fetched_at: 0,
                    };
                    assert(r@ =~= unknown_meta(c.name@, strs(c.local_versions@)));
                    Some(r)
                } else {
                    None
                }
            },
        }
    }
}

/// Whether a search looks at a package, given the tags that the cache has of it.
pub open spec fn looked_at(
    is_tag: bool,
    text: Seq<char>,
    name: Seq<char>,
    tags: Option<Seq<Seq<char>>>,
) -> bool {
    text.len() == 0 || (if is_tag {
        match tags {
            Some(t) => has_tag(t, text),
            None => true,
        }
    } else {
        occurs(lowercase(name), text)
    })
}

/// The tags of the first cached metadata of a package, if there is any.
pub open spec fn cached_tags(cached: Seq<(String, PackageMeta)>, name: Seq<char>) -> Option<
    Seq<Seq<char>>,
>
    decreases cached.len(),
{
    if cached.len() == 0 {
        None
    } else if cached[0].0@ == name {
        Some(strs(cached[0].1.tags@))
    } else {
        cached_tags(cached.drop_first(), name)
    }
}

fn find_cached(cached: &Vec<(String, PackageMeta)>, name: &str) -> (r: Option<usize>)
    ensures
        match r {
            Some(i) => i < cached@.len() && cached_tags(cached@, name@) == Some(
                strs(cached@[i as int].1.tags@),
            ),
            None => cached_tags(cached@, name@) is None,
        },
{
    let mut i: usize = 0;
    assert(cached@.skip(0) =~= cached@);
    while i < cached.len()
        invariant
            i <= cached@.len(),
            cached_tags(cached@.skip(i as int), name@) == cached_tags(cached@, name@),
        decreases cached@.len() - i,
    {
        assert(cached@.skip(i as int)[0] == cached@[i as int]);
        assert(cached@.skip(i as int).drop_first() =~= cached@.skip(i + 1));
        if same(cached[i].0.as_str(), name) {
            return Some(i);
        }
        i = i + 1;
    }
    None
}

/// The packages of the index that a search looks at, in order.
pub open spec fn searched(query: Query, index: RepoIndex, cached: Seq<(String, PackageMeta)>) -> Seq<Seq<char>> {
    choose|s: Seq<Seq<char>>| #[trigger]
        strictly_sorted(s) && forall|n: Seq<char>| #[trigger]
            s.contains(n) == (index.packages@.dom().contains(n) && looked_at(
                query.is_tag,
                query.text@,
                n,
                cached_tags(cached, n),
            ))
}

/// The packages of the index that a search looks at, each once and in order, given
/// the metadata that is cached of each.
pub fn names_to_search(query: &Query, index: &RepoIndex, cached: &Vec<(String, PackageMeta)>) -> (r: Vec<String>)
    requires
        index.wf(),
    ensures
        strictly_sorted(strs(r@)),
        forall|n: Seq<char>| #[trigger]
            strs(r@).contains(n) == (index.packages@.dom().contains(n) && looked_at(
                query.is_tag,
                query.text@,
                n,
                cached_tags(cached@, n),
            )),
        strs(r@) == searched(*query, *index, cached@),
{
    let names = index.names();
    let mut out: Vec<String> = Vec::new();
    let mut i: usize = 0;
    while i < names.len()
        invariant
            i <= names@.len(),
            forall|n: Seq<char>| #[trigger]
                strs(out@).contains(n) == (exists|j: int|
                    0 <= j < i && #[trigger] strs(names@)[j] == n && looked_at(
                        query.is_tag,
                        query.text@,
                        n,
                        cached_tags(cached@, n),
                    )),
        decreases names@.len() - i,
    {
        let name = names[i].as_str();
        assert(strs(names@)[i as int] == name@);
        let hit = match find_cached(cached, name) {
            Some(k) => query.is_candidate(name, Some(&cached[k].1)),
            None => query.is_candidate(name, None),
        };
        let ghost before = strs(out@);
        if hit {
            let s = names[i].clone();
            proof {
                strs_push(out@, s);
            }
            out.push(s);
            proof {
                let after = strs(out@);
                assert forall|n: Seq<char>| #[trigger] after.contains(n) == (before.contains(n) || n == name@) by {
                    if before.contains(n) {
                        let a = choose|a: int| 0 <= a < before.len() && before[a] == n;
                        assert(after[a] == n);
                    }
                    assert(after[before.len() as int] == name@);
                    if after.contains(n) {
                        let a = choose|a: int| 0 <= a < after.len() && after[a] == n;
                        if a < before.len() {
                            assert(before[a] == n);
                        }
                    }
                }
            }
        }
        i = i + 1;
    }
    proof {
        assert forall|n: Seq<char>| #[trigger] strs(out@).contains(n) == (index.packages@.dom().contains(n)
            && looked_at(query.is_tag, query.text@, n, cached_tags(cached@, n))) by {
            if index.packages@.dom().contains(n) {
                assert(strs(names@).contains(n));
                let j = choose|j: int| 0 <= j < strs(names@).len() && strs(names@)[j] == n;
                assert(strs(names@)[j] == n);
            }
            if strs(out@).contains(n) {
                let j = choose|j: int|
                    0 <= j < i && #[trigger] strs(names@)[j] == n && looked_at(
                        query.is_tag,
                        query.text@,
                        n,
                        cached_tags(cached@, n),
                    );
                assert(strs(names@).contains(n));
            }
        }
    }
    let r = sort_unique(out);
    proof {
        let s = strs(r@);
        let t = searched(*query, *index, cached@);
        assert(strictly_sorted(s) && forall|n: Seq<char>| #[trigger]
            s.contains(n) == (index.packages@.dom().contains(n) && looked_at(
                query.is_tag,
                query.text@,
                n,
                cached_tags(cached@, n),
            )));
        assert forall|n: Seq<char>| #[trigger] s.contains(n) == t.contains(n) by {}
        strictly_sorted_unique(s, t);
    }
    r
}

fn insert_by_name(v: &mut Vec<PackageMeta>, m: PackageMeta)
    requires
        by_name(metas(old(v)@)),
    ensures
        by_name(metas(final(v)@)),
        metas(final(v)@).to_multiset() == metas(old(v)@).to_multiset().insert(m@),
{
    let ghost before = metas(v@);
    let ghost text = m@;
    let mut i: usize = v.len();
    while i > 0 && !text_at_most(v[i - 1].name.as_str(), m.name.as_str())
        invariant
            i <= v@.len(),
            text == m@,
            before == metas(v@),
            forall|j: int| i <= j < v@.len() ==> text_le(text.name, (#[trigger] before[j]).name),
        decreases i,
    {
        proof {
            text_le_total(v@[i - 1].name@, m.name@);
            assert(before[i - 1] == v@[i - 1]@);
        }
        i = i - 1;
    }
    let ghost place = i as int;
    proof {
        assert(place > 0 ==> text_le(before[place - 1].name, text.name));
        assert forall|j: int| 0 <= j < place implies text_le((#[trigger] before[j]).name, text.name) by {
            if j < place - 1 {
                text_le_transitive(before[j].name, before[place - 1].name, text.name);
            }
        }
        vstd::seq_lib::to_multiset_insert(before, place, text);
    }
    v.insert(i, m);
    proof {
        let after = metas(v@);
        assert(after =~= before.insert(place, text));
        assert forall|a: int, b: int| 0 <= a < b < after.len() implies text_le(
            (#[trigger] after[a]).name,
            (#[trigger] after[b]).name,
        ) by {
            let old_a = if a < place { a } else { a - 1 };
            let old_b = if b < place { b } else { b - 1 };
            if a != place && b != place {
                assert(after[a] == before[old_a]);
                assert(after[b] == before[old_b]);
            }
        }
    }
}

/// The results of a search: what it says of the packages that were looked at,
/// in the order of the names.
pub fn search_lightweight(query: &Query, candidates: &Vec<Candidate>, now: u64) -> (r: Vec<PackageMeta>)
    ensures
        by_name(metas(r@)),
        forall|i: int, j: int|
            0 <= i < j < r@.len() ==> text_le((#[trigger] r@[i]).name@, (#[trigger] r@[j]).name@),
        metas(r@).to_multiset() == search_entries(
            query.is_tag,
            query.text@,
            candidates@,
            now,
        ).to_multiset(),
{
    let mut out: Vec<PackageMeta> = Vec::new();
    let mut i: usize = 0;
    assert(candidates@.take(0) =~= Seq::<Candidate>::empty());
    assert(metas(out@) =~= Seq::<MetaModel>::empty());
    while i < candidates.len()
        invariant
            i <= candidates@.len(),
            by_name(metas(out@)),
            metas(out@).to_multiset() == search_entries(
                query.is_tag,
                query.text@,
                candidates@.take(i as int),
                now,
            ).to_multiset(),
        decreases candidates@.len() - i,
    {
        proof {
            let longer = candidates@.take(i + 1);
            assert(longer.drop_last() =~= candidates@.take(i as int));
            assert(longer.last() == candidates@[i as int]);
        }
        let ghost rest = search_entries(
            query.is_tag,
            query.text@,
            candidates@.take(i as int),
            now,
        );
        match query.entry(&candidates[i], now) {
            Some(m) => {
                proof {
                    vstd::seq_lib::to_multiset_build(rest, m@);
                }
                insert_by_name(&mut out, m);
            },
            None => {},
        }
        i = i + 1;
    }
    assert(candidates@.take(candidates@.len() as int) =~= candidates@);
    proof {
        let s = metas(out@);
        assert forall|i: int, j: int| 0 <= i < j < out@.len() implies text_le(
            (#[trigger] out@[i]).name@,
            (#[trigger] out@[j]).name@,
        ) by {
            assert(s[i].name == out@[i].name@ && s[j].name == out@[j].name@);
        }
    }
    out
}

/// A fresh cache answers a search whether or not the repository was asked.
pub proof fn fresh_cache_decides(is_tag: bool, text: Seq<char>, c: Candidate, d: Candidate, now: u64)
    requires
        c.name == d.name,
        c.cached == d.cached,
        c.local_versions == d.local_versions,
        c.cached is Some,
        !stale(c.cached->0.fetched_at, now),
    ensures
        search_entry(is_tag, text, c, now) == search_entry(is_tag, text, d, now),
{
}

// ---------------------------------------------------------------------------
// Group tags
// ---------------------------------------------------------------------------

/// Whether cached metadata says that a package carries a tag.
pub open spec fn cached_with_tag(cached: Seq<(String, PackageMeta)>, name: Seq<char>, tag: Seq<char>) -> bool {
    exists|i: int|
        0 <= i < cached.len() && (#[trigger] cached[i]).0@ == name && has_tag(
            strs(cached[i].1.tags@),
            tag,
        )
}

/// The packages of the index that carry a tag, in order.
pub open spec fn tagged(index: RepoIndex, cached: Seq<(String, PackageMeta)>, tag: Seq<char>) -> Seq<Seq<char>> {
    choose|s: Seq<Seq<char>>| #[trigger]
        strictly_sorted(s) && forall|n: Seq<char>| #[trigger]
            s.contains(n) == (index.packages@.dom().contains(n) && cached_with_tag(
                cached,
                n,
                lowercase(tag),
            ))
}

/// The packages of the index that carry a tag, in order, given the metadata
/// that is cached of each.
pub fn packages_for_tag(index: &RepoIndex, cached: &Vec<(String, PackageMeta)>, tag: &str) -> (r: Vec<String>)
    requires
        index.wf(),
    ensures
        strictly_sorted(strs(r@)),
        forall|n: Seq<char>| #[trigger]
            strs(r@).contains(n) == (index.packages@.dom().contains(n) && cached_with_tag(
                cached@,
                n,
                lowercase(tag@),
            )),
        strs(r@) == tagged(*index, cached@, tag@),
{
    let wanted = to_lowercase(tag);
    let names = index.names();
    let mut out: Vec<String> = Vec::new();
    let mut i: usize = 0;
    while i < names.len()
        invariant
            i <= names@.len(),
            wanted@ == lowercase(tag@),
            forall|n: Seq<char>| #[trigger]
                strs(out@).contains(n) == (exists|j: int|
                    0 <= j < i && #[trigger] strs(names@)[j] == n && cached_with_tag(
                        cached@,
                        n,
                        wanted@,
                    )),
        decreases names@.len() - i,
    {
        let name = names[i].as_str();
        assert(strs(names@)[i as int] == name@);
        let mut hit = false;
        let mut k: usize = 0;
        while k < cached.len()
            invariant
                k <= cached@.len(),
                hit == (exists|j: int|
                    0 <= j < k && (#[trigger] cached@[j]).0@ == name@ && has_tag(
                        strs(cached@[j].1.tags@),
                        wanted@,
                    )),
            decreases cached@.len() - k,
        {
            if same(cached[k].0.as_str(), name) && carries_tag(&cached[k].1.tags, wanted.as_str()) {
                hit = true;
            }
            k = k + 1;
        }
        assert(hit == cached_with_tag(cached@, name@, wanted@));
        let ghost before = strs(out@);
        if hit {
            let s = names[i].clone();
            proof {
                strs_push(out@, s);
            }
            out.push(s);
            proof {
                let after = strs(out@);
                assert forall|n: Seq<char>| #[trigger] after.contains(n) == (before.contains(n) || n == name@) by {
                    if before.contains(n) {
                        let a = choose|a: int| 0 <= a < before.len() && before[a] == n;
                        assert(after[a] == n);
                    }
                    assert(after[before.len() as int] == name@);
                    if after.contains(n) {
                        let a = choose|a: int| 0 <= a < after.len() && after[a] == n;
                        if a < before.len() {
                            assert(before[a] == n);
                        }
                    }
                }
            }
        }
        i = i + 1;
    }
    proof {
        assert forall|n: Seq<char>| #[trigger] strs(out@).contains(n) == (index.packages@.dom().contains(n)
            && cached_with_tag(cached@, n, wanted@)) by {
            if index.packages@.dom().contains(n) {
                assert(strs(names@).contains(n));
                let j = choose|j: int| 0 <= j < strs(names@).len() && strs(names@)[j] == n;
                assert(strs(names@)[j] == n);
            }
            if strs(out@).contains(n) {
                let j = choose|j: int|
                    0 <= j < i && #[trigger] strs(names@)[j] == n && cached_with_tag(
                        cached@,
                        n,
                        wanted@,
                    );
                assert(strs(names@).contains(n));
            }
        }
    }
    let r = sort_unique(out);
    proof {
        let s = strs(r@);
        let t = tagged(*index, cached@, tag@);
        assert(strictly_sorted(s) && forall|n: Seq<char>| #[trigger]
            s.contains(n) == (index.packages@.dom().contains(n) && cached_with_tag(
                cached@,
                n,
                lowercase(tag@),
            )));
        assert forall|n: Seq<char>| #[trigger] s.contains(n) == t.contains(n) by {}
        strictly_sorted_unique(s, t);
    }
    r
}

/// Whether a tag, in lower case, is carried by a package of the index.
pub open spec fn tag_in_use(index: RepoIndex, cached: Seq<(String, PackageMeta)>, tag: Seq<char>) -> bool {
    exists|i: int|
        0 <= i < cached.len() && index.packages@.dom().contains((#[trigger] cached[i]).0@)
            && has_tag(strs(cached[i].1.tags@), tag)
}

/// The tags that packages of the index carry, in lower case and in order.
pub open spec fn tags_in_use(index: RepoIndex, cached: Seq<(String, PackageMeta)>) -> Seq<Seq<char>> {
    choose|s: Seq<Seq<char>>| #[trigger]
        strictly_sorted(s) && forall|t: Seq<char>| #[trigger]
            s.contains(t) == tag_in_use(index, cached, t)
}

/// The tags that packages of the index carry, in lower case and in order, given
/// the metadata that is cached of each.
pub fn all_tags(index: &RepoIndex, cached: &Vec<(String, PackageMeta)>) -> (r: Vec<String>)
    requires
        index.wf(),
    ensures
        strictly_sorted(strs(r@)),
        forall|t: Seq<char>| #[trigger] strs(r@).contains(t) == tag_in_use(*index, cached@, t),
        strs(r@) == tags_in_use(*index, cached@),
{
    let mut out: Vec<String> = Vec::new();
    let mut i: usize = 0;
    while i < cached.len()
        invariant
            i <= cached@.len(),
            index.wf(),
            forall|t: Seq<char>| #[trigger]
                strs(out@).contains(t) == (exists|j: int|
                    0 <= j < i && index.packages@.dom().contains((#[trigger] cached@[j]).0@)
                        && has_tag(strs(cached@[j].1.tags@), t)),
        decreases cached@.len() - i,
    {
        let ghost first = strs(out@);
        let ghost tags = strs(cached@[i as int].1.tags@);
        let listed = index.url_of(cached[i].0.as_str()).is_some();
        if listed {
            let mut k: usize = 0;
            while k < cached[i].1.tags.len()
                invariant
                    i < cached@.len(),
                    k <= tags.len(),
                    tags == strs(cached@[i as int].1.tags@),
                    forall|t: Seq<char>| #[trigger]
                        strs(out@).contains(t) == (first.contains(t) || exists|a: int|
                            0 <= a < k && lowercase(#[trigger] tags[a]) == t),
                decreases tags.len() - k,
            {
                let s = to_lowercase(cached[i].1.tags[k].as_str());
                let ghost before = strs(out@);
                proof {
                    strs_push(out@, s);
                    assert(tags[k as int] == cached@[i as int].1.tags@[k as int]@);
                }
                out.push(s);
                proof {
                    let after = strs(out@);
                    assert forall|t: Seq<char>| #[trigger] after.contains(t) == (first.contains(t)
                        || exists|a: int| 0 <= a < k + 1 && lowercase(#[trigger] tags[a]) == t) by {
                        if before.contains(t) {
                            let a = choose|a: int| 0 <= a < before.len() && before[a] == t;
                            assert(after[a] == t);
                        }
                        assert(after[before.len() as int] == s@);
                        if after.contains(t) {
                            let a = choose|a: int| 0 <= a < after.len() && after[a] == t;
                            if a < before.len() {
                                assert(before[a] == t);
                                assert(before.contains(t));
                            } else {
                                assert(lowercase(tags[k as int]) == t);
                            }
                        }
                        if first.contains(t) {
                            assert(before.contains(t));
                        }
                        if exists|a: int| 0 <= a < k + 1 && lowercase(#[trigger] tags[a]) == t {
                            let a = choose|a: int| 0 <= a < k + 1 && lowercase(#[trigger] tags[a]) == t;
                            if a < k {
                                assert(before.contains(t));
                            }
                        }
                    }
                }
                k = k + 1;
            }
            proof {
                assert forall|t: Seq<char>| #[trigger] strs(out@).contains(t) == (exists|j: int|
                    0 <= j < i + 1 && index.packages@.dom().contains((#[trigger] cached@[j]).0@)
                        && has_tag(strs(cached@[j].1.tags@), t)) by {
                    if strs(out@).contains(t) && !first.contains(t) {
                        assert(has_tag(tags, t));
                        assert(index.packages@.dom().contains(cached@[i as int].0@));
                    }
                }
            }
        }
        i = i + 1;
    }
    let r = sort_unique(out);
    proof {
        let s = strs(r@);
        let u = tags_in_use(*index, cached@);
        assert(strictly_sorted(s) && forall|t: Seq<char>| #[trigger]
            s.contains(t) == tag_in_use(*index, cached@, t));
        assert forall|t: Seq<char>| #[trigger] s.contains(t) == u.contains(t) by {}
        strictly_sorted_unique(s, u);
    }
    r
}

// ---------------------------------------------------------------------------
// Build instructions
// ---------------------------------------------------------------------------

/// How the files of a package are obtained.
#[derive(Debug)]
pub enum BuildSource {
    /// Downloaded.
    Download { url: String, binary_path: String, strip_components: u32 },
    /// Built from source.
    Build { commands: Vec<String>, output: String },
    /// Shipped with the package.
    Prebuilt,
}

impl Default for BuildSource {
    fn default() -> (r: BuildSource)
        ensures
            r is Prebuilt,
    {
        BuildSource::Prebuilt
    }
}

/// Instructions for building a package.
#[derive(Debug)]
pub struct BuildConfig {
    pub name: String,
    pub source: BuildSource,
    pub build_deps: Vec<String>,
    pub runtime_deps: Vec<String>,
    pub env: NameMap,
    pub install_path: String,
}

impl Default for BuildConfig {
    fn default() -> (r: BuildConfig)
        ensures
            r.name@ == Seq::<char>::empty(),
            r.source is Prebuilt,
            r.build_deps@ == Seq::<String>::empty(),
            r.runtime_deps@ == Seq::<String>::empty(),
            r.env.wf(),
            r.env@ == Map::<Seq<char>, Seq<char>>::empty(),
            r.install_path@ == Seq::<char>::empty(),
    {
        BuildConfig {
            name: String::new(),
            source: BuildSource::Prebuilt,
            build_deps: Vec::new(),
            runtime_deps: Vec::new(),
            env: NameMap::new(),
            install_path: String::new(),
        }
    }
}

// ---------------------------------------------------------------------------
// Metadata of manifests
// ---------------------------------------------------------------------------

/// The metadata that a manifest gives.
pub open spec fn manifest_meta(name: Seq<char>, m: ManifestModel, now: u64) -> MetaModel {
    MetaModel {
        name,
        version: m.version,
        summary: m.summary,
        authors: m.authors,
        license: m.license,
        tags: m.tags,
        available_versions: Seq::empty(),
        fetched_at: now,
    }
}

/// What is told about a package whose manifest is a configuration; if it is none,
/// what its lines tell.
pub open spec fn config_meta(
    name: Seq<char>,
    config: Seq<(Seq<char>, ConfigTree)>,
    content: Seq<char>,
    now: u64,
) -> MetaModel {
    match manifest_of(config, false) {
        Ok(m) => manifest_meta(name, m, now),
        Err(_) => scanned_meta(name, content, now),
    }
}

/// The metadata that the text of a manifest gives: what it says where it can be
/// read as one, else what its lines say.
///
/// What a reference to an environment variable stands for depends on the
/// environment: of a text with such references the metadata is that of its lines,
/// or of what it holds with at most the texts changed that hold references.
pub fn parse_meta_from_content(name: &str, content: &str, now: u64) -> (r: PackageMeta)
    ensures
        ({
            let text = file_text(lines(content@));
            let scanned = scanned_meta(name@, content@, now);
            match hk_parsed(text) {
                Some(t) => if has_lone_quote(text) {
                    r@ == scanned
                } else {
                    &&& no_env_table(t) ==> r@ == (match hk_resolved(t) {
                        Some(u) => config_meta(name@, u, content@, now),
                        None => scanned,
                    })
                    &&& plain_table(t) ==> r@ == config_meta(name@, t, content@, now)
                    &&& r@ == scanned || exists|u: Seq<(Seq<char>, ConfigTree)>| #[trigger]
                        filled_table(t, u) && r@ == config_meta(name@, u, content@, now)
                },
                None => r@ == scanned,
            }
        }),
{
    match Manifest::parse(content, false) {
        Ok(m) => {
            let r = PackageMeta {
                name: name.to_owned(),
                version: m.version.clone(),
                summary: m.summary.clone(),
                authors: m.authors.clone(),
                license: m.license.clone(),
                tags: crate::text::copy_strings(&m.tags),
                available_versions: Vec::new(),
                fetched_at: now,
            };
            assert(r@ =~= manifest_meta(name@, m@, now));
            r
        },
        Err(_) => scan_meta(name, content, now),
    }
}

/// A version of a package in its repository.
#[derive(Debug)]
pub struct PackageVersion {
    pub version: String,
    /// The commit that it is at.
    pub commit: String,
    pub manifest: Manifest,
}

/// A package with the versions in its repository.
#[derive(Debug)]
pub struct RepoPackage {
    pub name: String,
    pub versions: Vec<PackageVersion>,
}

/// `s` with `v` put behind every version at its end that is not newer.
pub open spec fn place_entry(s: Seq<PackageVersion>, v: PackageVersion) -> Seq<PackageVersion>
    decreases s.len(),
{
    if s.len() == 0 || version_rank(s.last().version@, v.version@) != Rank::After {
        s.push(v)
    } else {
        place_entry(s.drop_last(), v).push(s.last())
    }
}

/// The versions in order, oldest first; versions that rank the same keep their
/// places relative to each other.
pub open spec fn entries_sorted(s: Seq<PackageVersion>) -> Seq<PackageVersion>
    decreases s.len(),
{
    if s.len() == 0 {
        s
    } else {
        place_entry(entries_sorted(s.drop_last()), s.last())
    }
}

proof fn place_entry_at(s: Seq<PackageVersion>, v: PackageVersion, i: int)
    requires
        0 <= i <= s.len(),
        forall|j: int|
            i <= j < s.len() ==> version_rank((#[trigger] s[j]).version@, v.version@)
                == Rank::After,
        i > 0 ==> version_rank(s[i - 1].version@, v.version@) != Rank::After,
    ensures
        place_entry(s, v) == s.insert(i, v),
    decreases s.len(),
{
    if i == s.len() {
        assert(s.insert(i, v) =~= s.push(v));
    } else {
        let t = s.drop_last();
        assert(version_rank(s[s.len() - 1].version@, v.version@) == Rank::After);
        assert forall|j: int| i <= j < t.len() implies version_rank(
            (#[trigger] t[j]).version@,
            v.version@,
        ) == Rank::After by {
            assert(t[j] == s[j]);
        }
        place_entry_at(t, v, i);
        assert(t.insert(i, v).push(s.last()) =~= s.insert(i, v));
    }
}

/// The versions in order, oldest first.
pub fn sort_entries(v: Vec<PackageVersion>) -> (r: Vec<PackageVersion>)
    ensures
        r@ == entries_sorted(v@),
        r@.len() == v@.len(),
{
    let ghost all = v@;
    let mut left = v;
    let mut out: Vec<PackageVersion> = Vec::new();
    assert(all.take(0) =~= out@);
    assert(all.skip(0) =~= all);
    while left.len() > 0
        invariant
            left@.len() <= all.len(),
            left@ == all.skip(all.len() - left@.len()),
            out@.len() == all.len() - left@.len(),
            out@ == entries_sorted(all.take(all.len() - left@.len())),
        decreases left@.len(),
    {
        let ghost n = all.len() - left@.len();
        let x = left.remove(0);
        let mut i: usize = out.len();
        while i > 0 && rank_versions(out[i - 1].version.as_str(), x.version.as_str())
            == Rank::After
            invariant
                i <= out@.len(),
                forall|j: int|
                    i <= j < out@.len() ==> version_rank(
                        (#[trigger] out@[j]).version@,
                        x.version@,
                    ) == Rank::After,
            decreases i,
        {
            i = i - 1;
        }
        proof {
            place_entry_at(out@, x, i as int);
            assert(x == all[n]);
            let longer = all.take(n + 1);
            assert(longer.drop_last() =~= all.take(n));
            assert(longer.last() == x);
            assert(left@ =~= all.skip(n + 1));
        }
        out.insert(i, x);
    }
    assert(all.take(all.len() as int) =~= all);
    out
}

/// The versions of a package, oldest first: those that have a tag, or where
/// there are none, the one at the head of the repository.
pub fn index_versions(tagged: Vec<PackageVersion>, head: Option<PackageVersion>) -> (r: Vec<PackageVersion>)
    ensures
        r@ == entries_sorted(
            if tagged@.len() == 0 {
                match head {
                    Some(h) => seq![h],
                    None => Seq::empty(),
                }
            } else {
                tagged@
            },
        ),
{
    let mut all = tagged;
    if all.len() == 0 {
        match head {
            Some(h) => {
                all.push(h);
                assert(all@ =~= seq![h]);
            },
            None => {
                assert(all@ =~= Seq::<PackageVersion>::empty());
            },
        }
    }
    sort_entries(all)
}

/// The newest version of a package: the last of those that have a tag, or where
/// there are none, the one at the head of the repository.
pub fn latest_version(tagged: Vec<PackageVersion>, head: Option<PackageVersion>) -> (r: Option<PackageVersion>)
    ensures
        tagged@.len() > 0 ==> r == Some(entries_sorted(tagged@).last()),
        tagged@.len() == 0 ==> r == head,
{
    if tagged.len() == 0 {
        return head;
    }
    let mut s = sort_entries(tagged);
    s.pop()
}

// ---------------------------------------------------------------------------
// Laws of tags
// ---------------------------------------------------------------------------

/// The version of a tag is the tag without the letters `v` at its start.
pub proof fn version_is_behind_the_v(s: Seq<char>)
    ensures
        tag_version(seq!['v'] + s) == tag_version(s),
        s.len() == 0 || s[0] != 'v' ==> tag_version(s) == s,
{
    let k = CharClass::Is('v');
    let t = seq!['v'] + s;
    assert(t.drop_first() =~= s);
    assert(run(t, k, true) == 1 + run(s, k, true));
    run_bounds(s, k, true);
    assert(t.skip(1 + run(s, k, true)) =~= s.skip(run(s, k, true)));
    if s.len() == 0 || s[0] != 'v' {
        assert(s.skip(0) =~= s);
    }
}

/// The host of an address of the web is what stands between the scheme and the first
/// slash, where nothing stands beside it.
pub proof fn host_stands_behind_the_scheme(host: Seq<char>, path: Seq<char>)
    requires
        forall|i: int|
            0 <= i < host.len() ==> #[trigger] host[i] != '/' && host[i] != '?' && host[i] != '#' && host[i]
                != '@' && host[i] != ':' && host[i] != '[',
    ensures
        hostname("https://"@ + host + "/"@ + path) == host,
        host_part("https://"@ + host + "/"@ + path) == host,
{
    reveal_strlit("https://");
    reveal_strlit("http://");
    reveal_strlit("ssh://");
    reveal_strlit("[");
    reveal_strlit("::");
    reveal_strlit("/");
    let url = "https://"@ + host + "/"@ + path;
    let rest = host.push('/') + path;
    assert(url =~= "https://"@ + rest);
    stripping_goes_on(rest, "https://"@);
    stripping_goes_on(rest, "http://"@);
    stripping_goes_on(rest, "ssh://"@);
    assert(rest[host.len() as int] == '/');
    assert forall|i: int| 0 <= i < host.len() implies #[trigger] rest[i] == host[i] by {}
    if has_prefix(rest, "https://"@) {
        assert(rest.take(8)[5] == ':' && rest.take(8)[0] == 'h');
        assert(rest.take(8)[1] == 't' && rest.take(8)[2] == 't' && rest.take(8)[3] == 'p' && rest.take(8)[4] == 's');
    }
    if has_prefix(rest, "http://"@) {
        assert(rest.take(7)[4] == ':');
        assert(rest.take(7)[0] == 'h' && rest.take(7)[1] == 't' && rest.take(7)[2] == 't' && rest.take(7)[3] == 'p');
    }
    if has_prefix(rest, "ssh://"@) {
        assert(rest.take(6)[3] == ':');
        assert(rest.take(6)[0] == 's' && rest.take(6)[1] == 's' && rest.take(6)[2] == 'h');
    }
    split_first(host, '/', path, CharClass::Is('/'));
    split_extends(host, '?', host, CharClass::Either('?', '#'));
    split_extends(host, '@', host, CharClass::Is('@'));
    split_extends(host, ':', host, CharClass::Is(':'));
    assert(seq![host].last() == host);
    if has_prefix(host, "["@) {
        assert(host.take(1)[0] == '[');
    }
    if has_prefix(host, "::"@) {
        assert(host.take(2)[0] == ':');
    }
    assert(authority(url) == host);
}

/// The machine itself is `localhost`, in letters of either case, and what begins as an
/// address of it does.
pub proof fn what_is_localhost(rest: Seq<char>)
    ensures
        is_localhost("localhost"@),
        is_localhost("LOCALHOST"@),
        is_localhost("127."@ + rest),
        is_localhost("::1"@ + rest),
{
    reveal_strlit("localhost");
    reveal_strlit("LOCALHOST");
    assert(("127."@ + rest).take("127."@.len() as int) =~= "127."@);
    assert(("::1"@ + rest).take("::1"@.len() as int) =~= "::1"@);
}

/// An address is accepted exactly where it has one of the four schemes, does not point to
/// the machine itself, holds no step out of a directory and, on the web, names a host.
pub proof fn which_addresses_are_accepted(url: Seq<char>)
    requires
        trimmed(url) == url,
    ensures
        url_problem(url) is None <==> {
            &&& has_prefix(url, "https://"@) || has_prefix(url, "http://"@) || has_prefix(url, "ssh://"@)
                || has_prefix(url, "git@"@)
            &&& has_prefix(url, "https://"@) || has_prefix(url, "http://"@) ==> host_part(url).len() > 0
                && !is_localhost(host_part(url))
            &&& !is_localhost(hostname(url))
            &&& !occurs(url, "../"@) && !occurs(url, "..\\"@)
        },
{
    reveal_strlit("https://");
    reveal_strlit("http://");
    reveal_strlit("ssh://");
    reveal_strlit("git@");
}

/// An address of a repository of GitHub names its owner and itself, with or without the
/// ending of repositories; and an address of another host names neither.
pub proof fn github_address_names_owner_and_repo(owner: Seq<char>, repo: Seq<char>)
    requires
        owner.len() > 0,
        !owner.contains('/'),
        repo.len() > 0,
        repo.last() != '/',
        !is_white(repo.last()),
        !has_suffix("https://github.com/"@ + owner + "/"@ + repo, ".git"@),
    ensures
        owner_repo("https://github.com/"@ + owner + "/"@ + repo) == Some((owner, repo)),
        owner_repo("https://github.com/"@ + owner + "/"@ + repo + ".git"@) == Some((owner, repo)),
{
    reveal_strlit("https://github.com/");
    reveal_strlit(".git");
    reveal_strlit("/");
    let url = "https://github.com/"@ + owner + "/"@ + repo;
    let long = url + ".git"@;
    what_is_white('h');
    what_is_white('t');
    assert(url[0] == 'h' && url.last() == repo.last());
    assert(long[0] == 'h' && long.last() == 't');
    trimming_takes_white_ends(Seq::empty(), url, Seq::empty());
    trimming_takes_white_ends(Seq::empty(), long, Seq::empty());
    assert(Seq::<char>::empty() + url + Seq::<char>::empty() =~= url);
    assert(Seq::<char>::empty() + long + Seq::<char>::empty() =~= long);
    stripping_goes_on(url, ".git"@);
    assert(url.take(19) =~= "https://github.com/"@);
    let rest = owner.push('/') + repo;
    assert(url.skip(19) =~= rest);
    cut_of_joined(owner, '/', repo);
}

/// Whether versions stand in their order, oldest first.
pub open spec fn oldest_first(s: Seq<PackageVersion>) -> bool {
    forall|i: int, j: int|
        0 <= i < j < s.len() ==> version_rank((#[trigger] s[i]).version@, (#[trigger] s[j]).version@) != Rank::After
}

proof fn entry_placed(s: Seq<PackageVersion>, v: PackageVersion)
    requires
        oldest_first(s),
        numeric(v.version@),
        forall|i: int| 0 <= i < s.len() ==> numeric((#[trigger] s[i]).version@),
    ensures
        oldest_first(place_entry(s, v)),
        place_entry(s, v).len() == s.len() + 1,
        forall|x: PackageVersion| #[trigger] place_entry(s, v).contains(x) <==> x == v || s.contains(x),
    decreases s.len(),
{
    let r = place_entry(s, v);
    if s.len() == 0 || version_rank(s.last().version@, v.version@) != Rank::After {
        assert forall|i: int, j: int| 0 <= i < j < r.len() implies version_rank(
            (#[trigger] r[i]).version@,
            (#[trigger] r[j]).version@,
        ) != Rank::After by {
            assert(r[i] == s[i]);
            if j < s.len() {
                assert(r[j] == s[j]);
            } else if i < s.len() - 1 {
                assert(s[s.len() - 1] == s.last());
                version_rank_transitive(s[i].version@, s.last().version@, v.version@);
            }
        }
        assert forall|x: PackageVersion| #[trigger] r.contains(x) <==> x == v || s.contains(x) by {
            lemma_seq_contains_after_push(s, v, x);
        }
    } else {
        let t = s.drop_last();
        let last = s[s.len() - 1];
        assert forall|i: int, j: int| 0 <= i < j < t.len() implies version_rank(
            (#[trigger] t[i]).version@,
            (#[trigger] t[j]).version@,
        ) != Rank::After by {
            assert(t[i] == s[i] && t[j] == s[j]);
        }
        assert forall|i: int| 0 <= i < t.len() implies numeric((#[trigger] t[i]).version@) by {
            assert(t[i] == s[i]);
        }
        entry_placed(t, v);
        let q = place_entry(t, v);
        assert forall|i: int, j: int| 0 <= i < j < r.len() implies version_rank(
            (#[trigger] r[i]).version@,
            (#[trigger] r[j]).version@,
        ) != Rank::After by {
            assert(r[i] == q[i]);
            if j < q.len() {
                assert(r[j] == q[j]);
            } else {
                assert(q.contains(q[i]));
                version_rank_flips(last.version@, v.version@);
                if q[i] != v {
                    let k = choose|k: int| 0 <= k < t.len() && t[k] == q[i];
                    assert(s[k] == q[i]);
                }
            }
        }
        assert forall|x: PackageVersion| #[trigger] r.contains(x) <==> x == v || s.contains(x) by {
            lemma_seq_contains_after_push(q, last, x);
            assert(s =~= t.push(last));
            lemma_seq_contains_after_push(t, last, x);
        }
    }
}

/// Versions that are all numbers are put in their order, oldest first, and none is lost
/// or added; so the last of them is the newest.
pub proof fn versions_are_put_oldest_first(s: Seq<PackageVersion>, x: PackageVersion)
    requires
        forall|i: int| 0 <= i < s.len() ==> numeric((#[trigger] s[i]).version@),
    ensures
        oldest_first(entries_sorted(s)),
        entries_sorted(s).len() == s.len(),
        entries_sorted(s).contains(x) <==> s.contains(x),
        s.contains(x) ==> version_rank(x.version@, entries_sorted(s).last().version@) != Rank::After,
    decreases s.len(),
{
    if s.len() > 0 {
        let t = s.drop_last();
        let last = s[s.len() - 1];
        assert forall|i: int| 0 <= i < t.len() implies numeric((#[trigger] t[i]).version@) by {
            assert(t[i] == s[i]);
        }
        versions_are_put_oldest_first(t, x);
        let q = entries_sorted(t);
        assert forall|i: int| 0 <= i < q.len() implies numeric((#[trigger] q[i]).version@) by {
            versions_are_put_oldest_first(t, q[i]);
            assert(q.contains(q[i]));
            let k = choose|k: int| 0 <= k < t.len() && t[k] == q[i];
            assert(numeric(t[k].version@));
        }
        entry_placed(q, last);
        assert(s =~= t.push(last));
        lemma_seq_contains_after_push(t, last, x);
        let all = entries_sorted(s);
        assert(last == s.last());
        assert(all == place_entry(q, last));
        if s.contains(x) {
            assert(all.contains(x));
            let k = choose|k: int| 0 <= k < all.len() && all[k] == x;
            assert(all[all.len() - 1] == all.last());
            version_rank_reflexive(x.version@);
        }
    }
}

/// A search for a text finds what has it in its name or summary, and a search for a tag
/// what carries it, whatever the case of the letters; an empty one finds everything. It
/// goes by what is cached while that is fresh, and else by what was fetched, if anything
/// was.
pub proof fn what_a_search_finds(is_tag: bool, text: Seq<char>, c: Candidate, now: u64, m: PackageMeta)
    requires
        (c.cached == Some(m) && (now - m.fetched_at <= 3600 || c.fetched is None)) || (c.fetched == Some(m) && (
        c.cached is None || now - c.cached->0.fetched_at > 3600)),
    ensures
        search_entry(is_tag, text, c, now) == (if text.len() == 0 || (if is_tag {
            exists|i: int| 0 <= i < m.tags@.len() && lowercase((#[trigger] m.tags@[i])@) == text
        } else {
            occurs(lowercase(m.name@), text) || occurs(lowercase(m.summary@), text)
        }) {
            Some(m@)
        } else {
            None
        }),
{
    tags_are_carried(m.tags@, text);
}

proof fn tags_are_carried(tags: Seq<String>, text: Seq<char>)
    ensures
        has_tag(strs(tags), text) <==> exists|i: int|
            0 <= i < tags.len() && lowercase((#[trigger] tags[i])@) == text,
{
    if has_tag(strs(tags), text) {
        let i = choose|i: int| 0 <= i < strs(tags).len() && lowercase(#[trigger] strs(tags)[i]) == text;
        assert(lowercase(tags[i]@) == text);
    }
    if exists|i: int| 0 <= i < tags.len() && lowercase((#[trigger] tags[i])@) == text {
        let i = choose|i: int| 0 <= i < tags.len() && lowercase((#[trigger] tags[i])@) == text;
        assert(lowercase(strs(tags)[i]) == text);
    }
}

/// A package of which nothing is known is found by its name alone, and is not found by a
/// tag.
pub proof fn unknown_packages_are_found_by_name(is_tag: bool, text: Seq<char>, c: Candidate, now: u64)
    requires
        c.cached is None,
        c.fetched is None,
    ensures
        search_entry(is_tag, text, c, now) is Some <==> text.len() == 0 || (!is_tag && occurs(
            lowercase(c.name@),
            text,
        )),
        search_entry(is_tag, text, c, now) matches Some(m) ==> m.name == c.name@ && m.available_versions == strs(
            c.local_versions@,
        ) && m.tags.len() == 0,
{
}

/// The results of a search are what it says of each package that was looked at, in their
/// order.
pub proof fn results_are_the_entries(is_tag: bool, text: Seq<char>, a: Seq<Candidate>, b: Seq<Candidate>, now: u64, m: MetaModel)
    ensures
        search_entries(is_tag, text, a + b, now) == search_entries(is_tag, text, a, now) + search_entries(
            is_tag,
            text,
            b,
            now,
        ),
        search_entries(is_tag, text, a, now).contains(m) <==> exists|i: int|
            0 <= i < a.len() && search_entry(is_tag, text, #[trigger] a[i], now) == Some(m),
    decreases a.len() + b.len(),
{
    if b.len() > 0 {
        results_are_the_entries(is_tag, text, a, b.drop_last(), now, m);
        assert((a + b).drop_last() =~= a + b.drop_last());
        assert((a + b).last() == b.last());
        assert(search_entries(is_tag, text, a + b, now) =~= search_entries(is_tag, text, a, now) + search_entries(
            is_tag,
            text,
            b,
            now,
        ));
    } else {
        assert(a + b =~= a);
        assert(search_entries(is_tag, text, a + b, now) =~= search_entries(is_tag, text, a, now) + search_entries(
            is_tag,
            text,
            b,
            now,
        ));
        if a.len() > 0 {
            let t = a.drop_last();
            let last = a[a.len() - 1];
            results_are_the_entries(is_tag, text, t, b, now, m);
            if let Some(x) = search_entry(is_tag, text, last, now) {
                lemma_seq_contains_after_push(search_entries(is_tag, text, t, now), x, m);
            }
            assert(forall|i: int| 0 <= i < t.len() ==> t[i] == #[trigger] a[i]);
            assert forall|i: int| 0 <= i < t.len() implies #[trigger] t[i] == a[i] by {}
        }
    }
}

/// A package carries a tag where what is cached of it lists the tag, whatever the case of
/// its letters.
pub proof fn what_carries_a_tag(index: RepoIndex, cached: Seq<(String, PackageMeta)>, name: Seq<char>, tag: Seq<char>)
    ensures
        cached_with_tag(cached, name, tag) <==> exists|i: int, j: int|
            0 <= i < cached.len() && 0 <= j < cached[i].1.tags@.len() && cached[i].0@ == name && lowercase(
                (#[trigger] cached[i].1.tags@[j])@,
            ) == tag,
        tag_in_use(index, cached, tag) <==> exists|i: int, j: int|
            0 <= i < cached.len() && 0 <= j < cached[i].1.tags@.len() && index.packages@.dom().contains(
                cached[i].0@,
            ) && lowercase((#[trigger] cached[i].1.tags@[j])@) == tag,
{
    assert forall|i: int| 0 <= i < cached.len() implies has_tag(strs((#[trigger] cached[i]).1.tags@), tag) == (
    exists|j: int| 0 <= j < cached[i].1.tags@.len() && lowercase((#[trigger] cached[i].1.tags@[j])@) == tag) by {
        tags_are_carried(cached[i].1.tags@, tag);
    }
    if cached_with_tag(cached, name, tag) {
        let i = choose|i: int|
            0 <= i < cached.len() && (#[trigger] cached[i]).0@ == name && has_tag(strs(cached[i].1.tags@), tag);
        let j = choose|j: int|
            0 <= j < cached[i].1.tags@.len() && lowercase((#[trigger] cached[i].1.tags@[j])@) == tag;
        assert(lowercase(cached[i].1.tags@[j]@) == tag);
    }
    if exists|i: int, j: int|
        0 <= i < cached.len() && 0 <= j < cached[i].1.tags@.len() && cached[i].0@ == name && lowercase(
            (#[trigger] cached[i].1.tags@[j])@,
        ) == tag {
        let (i, j) = choose|i: int, j: int|
            0 <= i < cached.len() && 0 <= j < cached[i].1.tags@.len() && cached[i].0@ == name && lowercase(
                (#[trigger] cached[i].1.tags@[j])@,
            ) == tag;
        assert(cached[i].0@ == name);
    }
    if tag_in_use(index, cached, tag) {
        let i = choose|i: int|
            0 <= i < cached.len() && index.packages@.dom().contains((#[trigger] cached[i]).0@) && has_tag(
                strs(cached[i].1.tags@),
                tag,
            );
        let j = choose|j: int|
            0 <= j < cached[i].1.tags@.len() && lowercase((#[trigger] cached[i].1.tags@[j])@) == tag;
        assert(lowercase(cached[i].1.tags@[j]@) == tag);
    }
    if exists|i: int, j: int|
        0 <= i < cached.len() && 0 <= j < cached[i].1.tags@.len() && index.packages@.dom().contains(
            cached[i].0@,
        ) && lowercase((#[trigger] cached[i].1.tags@[j])@) == tag {
        let (i, j) = choose|i: int, j: int|
            0 <= i < cached.len() && 0 <= j < cached[i].1.tags@.len() && index.packages@.dom().contains(
                cached[i].0@,
            ) && lowercase((#[trigger] cached[i].1.tags@[j])@) == tag;
        assert(index.packages@.dom().contains(cached[i].0@));
    }
}

/// A search for a tag looks at a package unless what is cached of it lacks the tag; one
/// for a text at each package with the text in its name.
pub proof fn what_a_search_looks_at(name: Seq<char>, text: Seq<char>, cached: Seq<(String, PackageMeta)>, i: int)
    requires
        text.len() > 0,
        0 <= i <= cached.len(),
        forall|j: int| 0 <= j < i ==> (#[trigger] cached[j]).0@ != name,
        i < cached.len() ==> cached[i].0@ == name,
    ensures
        looked_at(true, text, name, cached_tags(cached, name)) <==> i == cached.len() || exists|j: int|
            0 <= j < cached[i].1.tags@.len() && lowercase((#[trigger] cached[i].1.tags@[j])@) == text,
        looked_at(false, text, name, cached_tags(cached, name)) <==> occurs(lowercase(name), text),
{
    cached_tags_are(cached, name, i);
    if i < cached.len() {
        tags_are_carried(cached[i].1.tags@, text);
    }
}

proof fn cached_tags_are(cached: Seq<(String, PackageMeta)>, name: Seq<char>, i: int)
    requires
        0 <= i <= cached.len(),
        forall|j: int| 0 <= j < i ==> (#[trigger] cached[j]).0@ != name,
        i < cached.len() ==> cached[i].0@ == name,
    ensures
        cached_tags(cached, name) == (if i < cached.len() {
            Some(strs(cached[i].1.tags@))
        } else {
            None
        }),
    decreases i,
{
    if i > 0 {
        assert(cached[0].0@ != name);
        let t = cached.drop_first();
        assert forall|j: int| 0 <= j < i - 1 implies (#[trigger] t[j]).0@ != name by {
            assert(t[j] == cached[j + 1]);
        }
        cached_tags_are(t, name, i - 1);
    }
}

/// The value of a line is what stands behind the sign, without white space and without
/// quotation marks around it.
pub proof fn value_stands_behind_the_sign(key: Seq<char>, value: Seq<char>)
    requires
        value.len() > 0,
        !is_white(value[0]),
        !is_white(value.last()),
        value[0] != '"',
    ensures
        hk_value(key + " ="@ + (" "@ + value), key) == Some(value),
        hk_value(key + " ="@ + (" \""@ + value + "\""@), key) == Some(value),
{
    reveal_strlit(" =");
    reveal_strlit(" ");
    reveal_strlit(" \"");
    reveal_strlit("\"");
    what_is_white(' ');
    what_is_white('"');
    let a = key + " ="@ + (" "@ + value);
    let b = key + " ="@ + (" \""@ + value + "\""@);
    let p = key + " ="@;
    assert(a.take(p.len() as int) =~= p && b.take(p.len() as int) =~= p);
    assert(a.skip(p.len() as int) =~= " "@ + value + Seq::<char>::empty());
    let quoted = "\""@ + value + "\""@;
    assert(b.skip(p.len() as int) =~= " "@ + quoted + Seq::<char>::empty());
    trimming_takes_white_ends(" "@, value, Seq::empty());
    assert(quoted[0] == '"' && quoted.last() == '"');
    trimming_takes_white_ends(" "@, quoted, Seq::empty());
    assert(quoted.subrange(1, quoted.len() - 1) =~= value);
}

/// Of the lines that give a value for a key, the last counts.
pub proof fn last_line_counts(all: Seq<Seq<char>>, line: Seq<char>, key: Seq<char>, other: Seq<char>)
    ensures
        scanned(all.push(line), key, other) == (match hk_value(trimmed(line), key) {
            Some(v) => v,
            None => scanned(all, key, other),
        }),
        scanned(Seq::empty(), key, other) == other,
{
    assert(all.push(line).drop_last() =~= all);
}

/// With one more version the last in order is that one, unless the last of the others is
/// newer.
pub proof fn last_with_one_more(s: Seq<PackageVersion>, v: PackageVersion)
    ensures
        entries_sorted(s.push(v)).len() > 0,
        entries_sorted(s.push(v)).last() == (if s.len() > 0 && version_rank(
            entries_sorted(s).last().version@,
            v.version@,
        ) == Rank::After {
            entries_sorted(s).last()
        } else {
            v
        }),
    decreases s.len(),
{
    assert(s.push(v).drop_last() =~= s);
    if s.len() > 0 {
        last_with_one_more(s.drop_last(), s.last());
        assert(s =~= s.drop_last().push(s.last()));
    }
    assert(entries_sorted(s.push(v)) == place_entry(entries_sorted(s), v));
}

/// The directory of a repository in the cache is named after the last part of its address,
/// with or without the ending of repositories, and an underscore stands for each character
/// that is neither a letter, a number, a hyphen nor an underscore.
pub proof fn directory_is_named_after_the_repository(base: Seq<char>, name: Seq<char>, i: int)
    requires
        name.len() > 0,
        !name.contains('/'),
        !has_suffix(base + "/"@ + name, ".git"@),
        0 <= i < name.len(),
    ensures
        url_slug(base + "/"@ + name).len() == 6 + name.len(),
        url_slug(base + "/"@ + name)[6 + i] == (if alphanumeric(name[i]) || name[i] == '-' || name[i] == '_' {
            name[i]
        } else {
            '_'
        }),
        url_slug(base + "/"@ + name + ".git"@) == url_slug(base + "/"@ + name),
        url_slug(base + "/"@ + name + "/"@) == url_slug(base + "/"@ + name),
{
    reveal_strlit("/");
    reveal_strlit(".git");
    reveal_strlit("_meta_");
    assert("/"@ =~= seq!['/']);
    let k = CharClass::Is('/');
    let url = base + "/"@ + name;
    assert(url.last() == name.last());
    assert(name.contains(name[name.len() - 1]));
    stripping_goes_on(url, ".git"@);
    let long = url + ".git"@;
    assert(long.last() == 't');
    trimming_the_end(url, '/', k);
    assert(url + "/"@ =~= url.push('/'));
    assert(url =~= url.drop_last().push(url.last()));
    trimming_the_end(url.drop_last(), url.last(), k);
    assert(long =~= long.drop_last().push('t'));
    trimming_the_end(long.drop_last(), 't', k);
    assert(bare_url(url) == url);
    assert(bare_url(long) == url);
    assert(bare_url(url + "/"@) == url);
    assert forall|j: int| 0 <= j < name.len() implies !k.has(#[trigger] name[j]) by {
        assert(name.contains(name[j]));
    }
    split_extends(base, '/', name, k);
    assert(url =~= base.push('/') + name);
    assert(split_by(url, k).last() == name);
}

/// The metadata of a manifest is what the manifest says.
pub proof fn metadata_is_what_the_manifest_says(name: Seq<char>, m: ManifestModel, now: u64)
    ensures
        ({
            let x = manifest_meta(name, m, now);
            &&& x.name == name && x.version == m.version && x.summary == m.summary
            &&& x.authors == m.authors && x.license == m.license && x.tags == m.tags
            &&& x.fetched_at == now && x.available_versions.len() == 0
        }),
{
}

/// Of a text that is no manifest the metadata is what its lines say, and where they say
/// nothing of the version or the summary, that these are unknown.
pub proof fn metadata_is_what_the_lines_say(name: Seq<char>, content: Seq<char>, now: u64)
    ensures
        ({
            let x = scanned_meta(name, content, now);
            &&& x.name == name && x.fetched_at == now && x.tags.len() == 0
            &&& x.version == scanned(lines(content), "version"@, "unknown"@)
            &&& x.summary == scanned(lines(content), "summary"@, "No description available"@)
            &&& x.authors == scanned(lines(content), "authors"@, Seq::empty())
            &&& x.license == scanned(lines(content), "license"@, Seq::empty())
        }),
{
}

/// Single files of a repository of GitHub are read from the host for raw files, under the
/// same owner and name.
pub proof fn raw_files_have_a_host_of_their_own(rest: Seq<char>)
    requires
        rest.len() > 0,
        rest.last() != '/',
        !has_suffix("https://github.com/"@ + rest, ".git"@),
        !occurs(rest, "https://github.com/"@),
    ensures
        raw_base("https://github.com/"@ + rest) == Some("https://raw.githubusercontent.com/"@ + rest),
        raw_base("https://github.com/"@ + rest + ".git"@) == Some("https://raw.githubusercontent.com/"@ + rest),
{
    reveal_strlit("https://github.com/");
    reveal_strlit("github.com");
    reveal_strlit(".git");
    let host = "https://github.com/"@;
    let by = "https://raw.githubusercontent.com/"@;
    let url = host + rest;
    let long = url + ".git"@;
    let k = CharClass::Is('/');
    assert(url.last() == rest.last());
    assert(url =~= url.drop_last().push(url.last()));
    trimming_the_end(url.drop_last(), url.last(), k);
    assert(long.last() == 't');
    assert(long =~= long.drop_last().push('t'));
    trimming_the_end(long.drop_last(), 't', k);
    stripping_goes_on(url, ".git"@);
    assert(bare_url(url) == url && bare_url(long) == url);
    assert(url.skip(8).take(10) =~= "github.com"@);
    assert(has_prefix(url.skip(8), "github.com"@));
    assert(url.skip(0) =~= url);
    assert(url.take(19) =~= host);
    position_unique(url, host, 0);
    assert(url.take(0) =~= Seq::<char>::empty());
    assert(url.skip(0 + host.len() as int) =~= rest);
    replacing_goes_from_left_to_right(url, host, by);
    replacing_goes_from_left_to_right(rest, host, by);
    assert(Seq::<char>::empty() + by + rest =~= by + rest);
}

/// A refusal names the address and says why it is refused.
pub proof fn refusals_say_why(address: Seq<char>)
    ensures
        url_message(UrlError::Empty, address) == "Repository URL is empty"@,
        url_message(UrlError::NoHostname, address) == "Repository URL '"@ + trimmed(address) + "' has no hostname"@,
        url_message(UrlError::Localhost, address) == "Repository URL '"@ + trimmed(address)
            + "' points to localhost — not allowed"@,
        url_message(UrlError::PathTraversal, address) == "Repository URL '"@ + trimmed(address)
            + "' contains path traversal sequence"@,
        has_prefix(
            url_message(UrlError::UnsupportedScheme, address),
            "Repository URL '"@ + trimmed(address) + "' uses an unsupported scheme."@,
        ),
{
    let p = "Repository URL '"@ + trimmed(address) + "' uses an unsupported scheme."@;
    let long =
        "' uses an unsupported scheme.\nOnly https://, http://, ssh://, git@ are allowed.\nThis prevents accidental access to local paths or unsafe protocols."@;
    reveal_strlit("' uses an unsupported scheme.");
    reveal_strlit(
        "' uses an unsupported scheme.\nOnly https://, http://, ssh://, git@ are allowed.\nThis prevents accidental access to local paths or unsafe protocols.",
    );
    let short = "' uses an unsupported scheme."@;
    assert(long.take(short.len() as int) =~= short);
    let s = url_message(UrlError::UnsupportedScheme, address);
    assert(s == "Repository URL '"@ + trimmed(address) + long);
    assert(s.take(p.len() as int) =~= "Repository URL '"@ + trimmed(address) + long.take(short.len() as int));
}

/// Each address that is refused is complained of, with its package and the reason.
pub proof fn refused_addresses_are_complained_of(pairs: Seq<(Seq<char>, Seq<char>)>, x: Seq<char>)
    ensures
        url_complaints(pairs).contains(x) <==> exists|i: int|
            0 <= i < pairs.len() && url_problem((#[trigger] pairs[i]).1) is Some && x == "  "@ + pairs[i].0 + ": "@
                + url_message(url_problem(pairs[i].1)->0, pairs[i].1),
    decreases pairs.len(),
{
    if pairs.len() > 0 {
        let t = pairs.drop_last();
        let last = pairs[pairs.len() - 1];
        refused_addresses_are_complained_of(t, x);
        if let Some(e) = url_problem(last.1) {
            let line = "  "@ + last.0 + ": "@ + url_message(e, last.1);
            lemma_seq_concat_contains_all_elements(url_complaints(t), seq![line], x);
            assert(seq![line][0] == line);
        }
        assert(forall|i: int| 0 <= i < t.len() ==> t[i] == #[trigger] pairs[i]);
        assert forall|i: int| 0 <= i < t.len() implies #[trigger] t[i] == pairs[i] by {}
    }
}

} // verus!
