//! Installing from the archive that is attached to a release.
use vstd::prelude::*;

use crate::commands::install::{spec_parts, split_spec, what_a_spec_asks_for};
use crate::hash::{checksum, compute_file_hash};
use crate::pattern::{ends_with, has_suffix};
use crate::repo::{
    owner_repo, parse_github_owner_repo, tag_version, version_is_behind_the_v, version_of_tag, GithubAsset, GithubRelease,
};
use crate::text::{cat, cat3, cat5, is_empty_text, is_white, same, split_words, strs, what_is_white, words, words_are_between_white};

verus! {

/// Which release is asked for: the one with the tag behind the first `@`, or
/// the newest where no tag is given.
pub fn release_tag(spec: &str) -> (r: Option<String>)
    ensures
        match r {
            Some(t) => spec_parts(spec@).1 == Some(t@),
            None => spec_parts(spec@).1 is None,
        },
{
    split_spec(spec).1
}

/// The version that a specification asks for: the one that it names, or where
/// it names a release, the one that the tag of the release stands for.
pub open spec fn asked_version(spec: Seq<char>, is_release: bool) -> Option<Seq<char>> {
    match spec_parts(spec).1 {
        Some(t) => Some(
            if is_release {
                tag_version(t)
            } else {
                t
            },
        ),
        None => None,
    }
}

/// The package that a specification asks for, and the version of it.
pub fn asked_for(spec: &str, is_release: bool) -> (r: (String, Option<String>))
    ensures
        r.0@ == spec_parts(spec@).0,
        match r.1 {
            Some(v) => asked_version(spec@, is_release) == Some(v@),
            None => asked_version(spec@, is_release) is None,
        },
{
    let (name, asked) = split_spec(spec);
    let version = match asked {
        Some(t) => {
            if is_release {
                Some(version_of_tag(t.as_str()))
            } else {
                Some(t)
            }
        },
        None => None,
    };
    (name, version)
}

/// The owner and the name of the repository of a package, whose address must be
/// one of GitHub.
pub fn release_repository(pkg_name: &str, url: &str) -> (r: Result<(String, String), String>)
    ensures
        match r {
            Ok((owner, repo)) => owner_repo(url@) == Some((owner@, repo@)),
            Err(m) => owner_repo(url@) is None && m@
                == "--release requires a github.com repo URL in repo.json for '"@ + pkg_name@
                + "' (got: "@ + url@ + ")"@,
        },
{
    match parse_github_owner_repo(url) {
        Some(p) => Ok(p),
        None => Err(
            cat5("--release requires a github.com repo URL in repo.json for '", pkg_name, "' (got: ", url, ")"),
        ),
    }
}

/// The position of the first of the files that is a package archive.
pub open spec fn archive_position(assets: Seq<GithubAsset>) -> Option<int>
    decreases assets.len(),
{
    if assets.len() == 0 {
        None
    } else if has_suffix(assets[0].name@, ".hpm"@) {
        Some(0)
    } else {
        match archive_position(assets.drop_first()) {
            Some(i) => Some(i + 1),
            None => None,
        }
    }
}

/// The position of the first of the files that has a name.
pub open spec fn named_position(assets: Seq<GithubAsset>, name: Seq<char>) -> Option<int>
    decreases assets.len(),
{
    if assets.len() == 0 {
        None
    } else if assets[0].name@ == name {
        Some(0)
    } else {
        match named_position(assets.drop_first(), name) {
            Some(i) => Some(i + 1),
            None => None,
        }
    }
}

/// The files of a release that matter, by their positions.
#[derive(Clone, Copy, PartialEq, Eq, Structural, Debug)]
pub struct ReleaseFiles {
    pub archive: usize,
    pub checksum: Option<usize>,
    pub signature: Option<usize>,
}

fn find_archive(assets: &Vec<GithubAsset>) -> (r: Option<usize>)
    ensures
        match r {
            Some(i) => i < assets@.len() && archive_position(assets@) == Some(i as int),
            None => archive_position(assets@) is None,
        },
{
    let mut i: usize = 0;
    assert(assets@.skip(0) =~= assets@);
    while i < assets.len()
        invariant
            i <= assets@.len(),
            match archive_position(assets@.skip(i as int)) {
                Some(k) => archive_position(assets@) == Some(k + i),
                None => archive_position(assets@) is None,
            },
        decreases assets@.len() - i,
    {
        assert(assets@.skip(i as int)[0] == assets@[i as int]);
        assert(assets@.skip(i as int).drop_first() =~= assets@.skip(i + 1));
        if ends_with(assets[i].name.as_str(), ".hpm") {
            return Some(i);
        }
        i = i + 1;
    }
    None
}

fn find_named(assets: &Vec<GithubAsset>, name: &str) -> (r: Option<usize>)
    ensures
        match r {
            Some(i) => i < assets@.len() && named_position(assets@, name@) == Some(i as int),
            None => named_position(assets@, name@) is None,
        },
{
    let mut i: usize = 0;
    assert(assets@.skip(0) =~= assets@);
    while i < assets.len()
        invariant
            i <= assets@.len(),
            match named_position(assets@.skip(i as int), name@) {
                Some(k) => named_position(assets@, name@) == Some(k + i),
                None => named_position(assets@, name@) is None,
            },
        decreases assets@.len() - i,
    {
        assert(assets@.skip(i as int)[0] == assets@[i as int]);
        assert(assets@.skip(i as int).drop_first() =~= assets@.skip(i + 1));
        if same(assets[i].name.as_str(), name) {
            return Some(i);
        }
        i = i + 1;
    }
    None
}

/// A position as a mathematical value.
pub open spec fn maybe_position(p: Option<usize>) -> Option<int> {
    match p {
        Some(i) => Some(i as int),
        None => None,
    }
}

/// The text for a release without an archive.
pub open spec fn no_archive(tag: Seq<char>, owner: Seq<char>, repo: Seq<char>) -> Seq<char> {
    "Release '"@ + tag + "' of "@ + owner + "/"@ + repo
        + " has no .hpm asset.\n  The maintainer needs to run `hpm build --output name.hpm` and attach it to the Release."@
}

/// Finds the archive of a release, and the checksum and the signature that
/// belong to it.
pub fn release_files(release: &GithubRelease, owner: &str, repo: &str) -> (r: Result<ReleaseFiles, String>)
    ensures
        match r {
            Ok(f) => {
                &&& f.archive < release.assets@.len()
                &&& archive_position(release.assets@) == Some(f.archive as int)
                &&& maybe_position(f.checksum) == named_position(
                    release.assets@,
                    release.assets@[f.archive as int].name@ + ".sha256"@,
                )
                &&& maybe_position(f.signature) == named_position(
                    release.assets@,
                    release.assets@[f.archive as int].name@ + ".sig"@,
                )
            },
            Err(m) => archive_position(release.assets@) is None && m@ == no_archive(
                release.tag_name@,
                owner@,
                repo@,
            ),
        },
{
    match find_archive(&release.assets) {
        Some(archive) => {
            let name = release.assets[archive].name.as_str();
            let sha = cat(name, ".sha256");
            let sig = cat(name, ".sig");
            Ok(
                ReleaseFiles {
                    archive,
                    checksum: find_named(&release.assets, sha.as_str()),
                    signature: find_named(&release.assets, sig.as_str()),
                },
            )
        },
        None => {
            let mut m = cat5("Release '", release.tag_name.as_str(), "' of ", owner, "/");
            m.append(repo);
            m.append(" has no .hpm asset.\n  The maintainer needs to run `hpm build --output name.hpm` and attach it to the Release.");
            Err(m)
        },
    }
}

/// The first word of a text, or nothing.
pub open spec fn leading_word(s: Seq<char>) -> Seq<char> {
    if words(s).len() == 0 {
        Seq::empty()
    } else {
        words(s)[0]
    }
}

fn leading_word_of(s: &str) -> (r: String)
    ensures
        r@ == leading_word(s@),
{
    let w = split_words(s);
    if w.len() > 0 {
        assert(strs(w@)[0] == w@[0]@);
        return w[0].clone();
    }
    let e = String::new();
    assert(e@ =~= Seq::<char>::empty());
    e
}

/// The text for an archive that does not have its published checksum.
pub open spec fn wrong_checksum(name: Seq<char>, expected: Seq<char>, actual: Seq<char>) -> Seq<char> {
    "Checksum mismatch for "@ + name + "!\n  expected: "@ + expected + "\n  actual:   "@ + actual
        + "\n  Refusing to install a package whose contents don't match its published checksum."@
}

/// Checks an archive against its published checksum, which is the first word of
/// `published`. Returns what is said where none is published. A file without
/// words decides nothing.
pub fn check_archive(name: &str, data: &Vec<u8>, published: &Option<String>) -> (r: Result<Option<String>, String>)
    ensures
        match published {
            Some(text) => {
                let expected = leading_word(text@);
                if expected.len() > 0 && expected != checksum(data@) {
                    r matches Err(m) && m@ == wrong_checksum(name@, expected, checksum(data@))
                } else {
                    r matches Ok(None)
                }
            },
            None => r matches Ok(Some(note)) && note@ == "No .sha256 asset alongside "@ + name@
                + " — integrity not verified."@,
        },
{
    match published {
        Some(text) => {
            let expected = leading_word_of(text.as_str());
            let actual = compute_file_hash(data);
            if !is_empty_text(expected.as_str()) && !same(expected.as_str(), actual.as_str()) {
                let mut m = cat5("Checksum mismatch for ", name, "!\n  expected: ", expected.as_str(), "\n  actual:   ");
                m.append(actual.as_str());
                m.append("\n  Refusing to install a package whose contents don't match its published checksum.");
                return Err(m);
            }
            Ok(None)
        },
        None => Ok(Some(cat3("No .sha256 asset alongside ", name, " — integrity not verified."))),
    }
}

/// What came of checking a signature.
#[derive(Debug)]
pub enum SignatureCheck {
    /// There is none.
    Absent,
    /// It is good, and this key made it.
    Good(String),
    /// It is not good, for this reason.
    Bad(String),
}

/// Decides whether an archive may be installed, given what came of checking its
/// signature. Returns what is said of it.
pub fn signature_verdict(name: &str, check: &SignatureCheck, require_signed: bool) -> (r: Result<String, String>)
    ensures
        match check {
            SignatureCheck::Good(signer) => r matches Ok(note) && note@
                == "GPG signature OK, signed by: "@ + signer@,
            SignatureCheck::Bad(why) => r matches Err(m) && m@
                == "GPG signature verification FAILED for "@ + name@ + ": "@ + why@
                + "\n  Refusing to install a package whose signature doesn't check out."@,
            SignatureCheck::Absent => if require_signed {
                r matches Err(m) && m@ == "--require-signed was given, but "@ + name@
                    + " has no .sig asset attached to this release.\n  Refusing to install an unsigned package."@
            } else {
                r matches Ok(note) && note@ == "No .sig asset alongside "@ + name@
                    + " — not GPG-signed, authenticity not verified."@
            },
        },
{
    match check {
        SignatureCheck::Good(signer) => Ok(cat("GPG signature OK, signed by: ", signer.as_str())),
        SignatureCheck::Bad(why) => Err(
            cat5(
                "GPG signature verification FAILED for ",
                name,
                ": ",
                why.as_str(),
                "\n  Refusing to install a package whose signature doesn't check out.",
            ),
        ),
        SignatureCheck::Absent => if require_signed {
            Err(
                cat3(
                    "--require-signed was given, but ",
                    name,
                    " has no .sig asset attached to this release.\n  Refusing to install an unsigned package.",
                ),
            )
        } else {
            Ok(cat3("No .sig asset alongside ", name, " — not GPG-signed, authenticity not verified."))
        },
    }
}

// ---------------------------------------------------------------------------
// Laws
// ---------------------------------------------------------------------------

/// The archive of a release is the first of its files whose name ends in `.hpm`; there is
/// none exactly where no name does.
pub proof fn archive_is_the_first(assets: Seq<GithubAsset>)
    ensures
        match archive_position(assets) {
            Some(i) => 0 <= i < assets.len() && has_suffix(assets[i].name@, ".hpm"@) && forall|j: int|
                0 <= j < i ==> !has_suffix((#[trigger] assets[j]).name@, ".hpm"@),
            None => forall|j: int| 0 <= j < assets.len() ==> !has_suffix((#[trigger] assets[j]).name@, ".hpm"@),
        },
    decreases assets.len(),
{
    if assets.len() > 0 && !has_suffix(assets[0].name@, ".hpm"@) {
        let t = assets.drop_first();
        archive_is_the_first(t);
        assert(forall|j: int| 0 < j < assets.len() ==> #[trigger] assets[j] == t[j - 1]);
    }
}

/// A file of a release is found under its name, the first where several have it; there is
/// none exactly where no file has the name.
pub proof fn file_is_the_first_of_its_name(assets: Seq<GithubAsset>, name: Seq<char>)
    ensures
        match named_position(assets, name) {
            Some(i) => 0 <= i < assets.len() && assets[i].name@ == name && forall|j: int|
                0 <= j < i ==> (#[trigger] assets[j]).name@ != name,
            None => forall|j: int| 0 <= j < assets.len() ==> (#[trigger] assets[j]).name@ != name,
        },
    decreases assets.len(),
{
    if assets.len() > 0 && assets[0].name@ != name {
        let t = assets.drop_first();
        file_is_the_first_of_its_name(t, name);
        assert(forall|j: int| 0 < j < assets.len() ==> #[trigger] assets[j] == t[j - 1]);
    }
}

/// A release asked for by its tag is the version behind the `v` of the tag; a version that
/// is asked for is that version.
pub proof fn release_is_asked_for_by_tag(name: Seq<char>, tag: Seq<char>)
    requires
        !name.contains('@'),
        tag.len() == 0 || tag[0] != 'v',
    ensures
        asked_version(name + "@"@ + (seq!['v'] + tag), true) == Some(tag),
        asked_version(name + "@"@ + tag, true) == Some(tag),
        asked_version(name + "@"@ + (seq!['v'] + tag), false) == Some(seq!['v'] + tag),
        asked_version(name, true) is None,
        asked_version(name, false) is None,
{
    what_a_spec_asks_for(name, seq!['v'] + tag);
    what_a_spec_asks_for(name, tag);
    version_is_behind_the_v(tag);
}

/// The published checksum is the first word of its file, whatever follows it.
pub proof fn checksum_is_the_first_word(sum: Seq<char>, rest: Seq<char>)
    requires
        sum.len() > 0,
        forall|i: int| 0 <= i < sum.len() ==> !is_white(#[trigger] sum[i]),
    ensures
        leading_word(sum) == sum,
        leading_word(sum.push(' ') + rest) == sum,
        leading_word(sum.push('\n') + rest) == sum,
        leading_word(Seq::empty()).len() == 0,
{
    what_is_white(' ');
    what_is_white('\n');
    words_are_between_white(sum, ' ', rest);
    words_are_between_white(sum, '\n', rest);
    assert((seq![sum] + words(rest))[0] == sum);
}

} // verus!
