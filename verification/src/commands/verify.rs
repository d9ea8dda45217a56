//! Checking that an installed package is what was installed, and who signed it.
use vstd::prelude::*;

use crate::hash::{checksum, compute_dir_hash, joined};
use crate::pattern::{has_prefix, starts_with};
use crate::state::{join_pkg_ver, pkg_key, State};
use crate::text::{can_shorten, cat, cat3, join_strings, join_with, push_text, same, shorten, shortened, strs, substring, to_chars};

verus! {

// ---------------------------------------------------------------------------
// Contents
// ---------------------------------------------------------------------------

/// The checksum that is recorded of the version of a package that is in use.
pub fn expected_checksum(state: &State, package: &str, current: &Option<String>) -> (r: Result<String, String>)
    requires
        state.wf(),
    ensures
        match current {
            None => r matches Err(m) && m@ == "Package '"@ + package@ + "' not installed"@,
            Some(v) => if state.packages@.dom().contains((package@, v@)) {
                r matches Ok(s) && s@ == state.packages@[(package@, v@)].checksum
            } else {
                r matches Err(m) && m@ == "No checksum in state for "@ + pkg_key(package@, v@)
            },
        },
{
    match current {
        None => Err(cat3("Package '", package, "' not installed")),
        Some(v) => match state.packages.get(package, v.as_str()) {
            Some(info) => Ok(info.checksum.clone()),
            None => {
                let key = join_pkg_ver(package, v.as_str());
                Err(cat("No checksum in state for ", key.as_str()))
            },
        },
    }
}

/// What came of checking the contents of a package.
#[derive(Debug)]
pub enum ContentCheck {
    /// They are what was installed; this much of the checksum is shown.
    Same(String),
    /// They are not; this much of the recorded and the computed one is shown.
    Different { stored: String, computed: String },
}

/// Compares the files of a package with the checksum that is recorded.
pub fn check_contents(files: &Vec<Vec<u8>>, expected: &str) -> (r: ContentCheck)
    requires
        can_shorten(expected@, 16, 16),
    ensures
        match r {
            ContentCheck::Same(s) => checksum(joined(files@)) == expected@ && s@ == expected@.take(32),
            ContentCheck::Different { stored, computed } => {
                &&& checksum(joined(files@)) != expected@
                &&& stored@ == shortened(expected@, 16, 16, Seq::empty())
                &&& computed@ == checksum(joined(files@)).take(16)
            },
        },
{
    let actual = compute_dir_hash(files);
    let v = to_chars(actual.as_str());
    proof {
        reveal_strlit("");
        assert(""@ =~= Seq::<char>::empty());
    }
    if same(actual.as_str(), expected) {
        let s = substring(&v, 0, 32);
        assert(s@ =~= expected@.take(32));
        ContentCheck::Same(s)
    } else {
        let computed = substring(&v, 0, 16);
        assert(computed@ =~= actual@.take(16));
        ContentCheck::Different { stored: shorten(expected, 16, 16, ""), computed }
    }
}

/// The text for a package whose contents are not what was installed.
pub fn contents_failure(package: &str, version: &str) -> (r: String)
    ensures
        r@ == "Content checksum verification failed for "@ + pkg_key(package@, version@),
{
    let key = join_pkg_ver(package, version);
    cat("Content checksum verification failed for ", key.as_str())
}

// ---------------------------------------------------------------------------
// Signatures
// ---------------------------------------------------------------------------

/// What to do about the signature of a manifest.
#[derive(Clone, Copy, PartialEq, Eq, Structural, Debug)]
pub enum SignatureStep {
    /// There is none.
    NotSigned,
    /// There is one, but not what it signs.
    ManifestMissing,
    /// Check it.
    Check,
}

/// Decides what to do about the signature of a manifest.
pub fn signature_step(signature_exists: bool, manifest_exists: bool) -> (r: SignatureStep)
    ensures
        r == (if !signature_exists {
            SignatureStep::NotSigned
        } else if !manifest_exists {
            SignatureStep::ManifestMissing
        } else {
            SignatureStep::Check
        }),
{
    if !signature_exists {
        SignatureStep::NotSigned
    } else if !manifest_exists {
        SignatureStep::ManifestMissing
    } else {
        SignatureStep::Check
    }
}

/// What is known of one signature.
#[derive(Debug)]
pub struct SignatureFacts {
    /// The fingerprint of the key, if it is known.
    pub fingerprint: Option<String>,
    pub key_revoked: bool,
    pub key_expired: bool,
    pub signature_expired: bool,
    pub key_missing: bool,
    pub is_bad: bool,
    pub system_error: bool,
}

/// The fingerprint of a signature's key, as it is shown.
pub open spec fn fingerprint_text(f: SignatureFacts) -> Seq<char> {
    match f.fingerprint {
        Some(s) => s@,
        None => "unknown fingerprint"@,
    }
}

/// Why a signature cannot be trusted.
pub open spec fn distrust(f: SignatureFacts) -> Option<Seq<char>> {
    let fp = fingerprint_text(f);
    if f.key_revoked {
        Some(
            "Signing key "@ + fp
                + " has been REVOKED by its owner.\n    This usually means the key was compromised or retired — do not trust this package."@,
        )
    } else if f.key_expired {
        Some(
            "Signing key "@ + fp
                + " has EXPIRED.\n    The signature can't be trusted until the packager publishes a new key/signature."@,
        )
    } else if f.signature_expired {
        Some(
            "Signature itself has EXPIRED (key "@ + fp
                + " is fine, but this specific signature had a validity period).\n    Ask the packager to re-sign."@,
        )
    } else if f.key_missing {
        Some(
            "Signing key "@ + fp + " not in trusted keyring.\n    Add: hpm verify --import-key "@ + fp,
        )
    } else if f.is_bad {
        Some("BAD signature — package may be tampered with!"@)
    } else if f.system_error {
        Some(
            "GPG reported a system error while checking this signature — treating as untrusted."@,
        )
    } else {
        None
    }
}

/// Why the first signature that cannot be trusted cannot be.
pub open spec fn first_distrust(s: Seq<SignatureFacts>) -> Option<Seq<char>>
    decreases s.len(),
{
    if s.len() == 0 {
        None
    } else {
        match first_distrust(s.drop_last()) {
            Some(m) => Some(m),
            None => distrust(s.last()),
        }
    }
}

/// The fingerprints of the keys of signatures.
pub open spec fn signers(s: Seq<SignatureFacts>) -> Seq<Seq<char>> {
    s.map_values(|f: SignatureFacts| fingerprint_text(f))
}

fn fingerprint_of(f: &SignatureFacts) -> (r: String)
    ensures
        r@ == fingerprint_text(*f),
{
    match &f.fingerprint {
        Some(s) => s.clone(),
        None => "unknown fingerprint".to_owned(),
    }
}

fn why_not(f: &SignatureFacts) -> (r: Option<String>)
    ensures
        match r {
            Some(m) => distrust(*f) == Some(m@),
            None => distrust(*f) is None,
        },
{
    let fp = fingerprint_of(f);
    let fp = fp.as_str();
    if f.key_revoked {
        Some(cat3("Signing key ", fp, " has been REVOKED by its owner.\n    This usually means the key was compromised or retired — do not trust this package."))
    } else if f.key_expired {
        Some(cat3("Signing key ", fp, " has EXPIRED.\n    The signature can't be trusted until the packager publishes a new key/signature."))
    } else if f.signature_expired {
        Some(cat3("Signature itself has EXPIRED (key ", fp, " is fine, but this specific signature had a validity period).\n    Ask the packager to re-sign."))
    } else if f.key_missing {
        let mut s = cat3("Signing key ", fp, " not in trusted keyring.\n    Add: hpm verify --import-key ");
        s.append(fp);
        Some(s)
    } else if f.is_bad {
        Some("BAD signature — package may be tampered with!".to_owned())
    } else if f.system_error {
        Some("GPG reported a system error while checking this signature — treating as untrusted.".to_owned())
    } else {
        None
    }
}

/// Decides whether signatures can be trusted: there is one, and nothing speaks
/// against any. Returns who signed. That a key is among the trusted ones is all
/// the trust that is asked for.
pub fn verify_gpg_signature(signatures: &Vec<SignatureFacts>) -> (r: Result<String, String>)
    ensures
        match first_distrust(signatures@) {
            Some(m) => r matches Err(e) && e@ == m,
            None => if signatures@.len() == 0 {
                r matches Err(e) && e@ == "No valid signatures found"@
            } else {
                r matches Ok(s) && s@ == join_with(signers(signatures@), ", "@)
            },
        },
{
    let mut who: Vec<String> = Vec::new();
    let ghost all = signers(signatures@);
    let mut i: usize = 0;
    assert(signatures@.take(0) =~= Seq::<SignatureFacts>::empty());
    assert(strs(who@) =~= all.take(0));
    while i < signatures.len()
        invariant
            i <= signatures@.len(),
            all == signers(signatures@),
            first_distrust(signatures@.take(i as int)) is None,
            strs(who@) == all.take(i as int),
        decreases signatures@.len() - i,
    {
        proof {
            let longer = signatures@.take(i + 1);
            assert(longer.drop_last() =~= signatures@.take(i as int));
            assert(longer.last() == signatures@[i as int]);
        }
        match why_not(&signatures[i]) {
            Some(m) => {
                proof {
                    first_distrust_stays(signatures@, i + 1);
                }
                return Err(m);
            },
            None => {},
        }
        let fp = fingerprint_of(&signatures[i]);
        assert(all.take(i + 1) =~= all.take(i as int) + seq![fp@]);
        push_text(&mut who, fp);
        i = i + 1;
    }
    assert(signatures@.take(signatures@.len() as int) =~= signatures@);
    assert(all.take(all.len() as int) =~= all);
    if signatures.len() == 0 {
        return Err("No valid signatures found".to_owned());
    }
    Ok(join_strings(&who, ", "))
}

proof fn first_distrust_stays(s: Seq<SignatureFacts>, n: int)
    requires
        0 <= n <= s.len(),
        first_distrust(s.take(n)) is Some,
    ensures
        first_distrust(s) == first_distrust(s.take(n)),
    decreases s.len() - n,
{
    if n == s.len() {
        assert(s.take(n) =~= s);
    } else {
        let longer = s.take(n + 1);
        assert(longer.drop_last() =~= s.take(n));
        first_distrust_stays(s, n + 1);
    }
}

/// Which keys are trusted.
#[derive(Clone, Copy, PartialEq, Eq, Structural, Debug)]
pub enum Keyring {
    System,
    User,
    Neither,
}

/// Where the keys are that are trusted: those of the system, or else those of
/// the user.
pub fn keyring_to_use(system_exists: bool, user_exists: bool) -> (r: Keyring)
    ensures
        r == (if system_exists {
            Keyring::System
        } else if user_exists {
            Keyring::User
        } else {
            Keyring::Neither
        }),
{
    if system_exists {
        Keyring::System
    } else if user_exists {
        Keyring::User
    } else {
        Keyring::Neither
    }
}

/// The address of a key that is no file: the address itself, or that of a key
/// server where the key is looked for.
pub fn key_address(source: &str) -> (r: String)
    ensures
        r@ == (if has_prefix(source@, "http"@) {
            source@
        } else {
            "https://keyserver.ubuntu.com/pks/lookup?op=get&search="@ + source@
        }),
{
    if starts_with(source, "http") {
        source.to_owned()
    } else {
        cat("https://keyserver.ubuntu.com/pks/lookup?op=get&search=", source)
    }
}

// ---------------------------------------------------------------------------
// Laws
// ---------------------------------------------------------------------------

/// A signature of a key that was revoked is never trusted, whatever other
/// signatures are there.
pub proof fn revoked_is_never_trusted(s: Seq<SignatureFacts>, i: int)
    requires
        0 <= i < s.len(),
        s[i].key_revoked,
    ensures
        first_distrust(s) is Some,
{
    let t = s.take(i + 1);
    assert(t.last() == s[i]);
    assert(first_distrust(t) is Some);
    first_distrust_stays(s, i + 1);
}

/// Signatures are trusted exactly where nothing speaks against any: no key is revoked,
/// expired or missing, and no signature is expired, bad or could not be checked.
pub proof fn trusted_only_when_nothing_is_wrong(s: Seq<SignatureFacts>)
    ensures
        first_distrust(s) is None <==> forall|i: int|
            0 <= i < s.len() ==> !(#[trigger] s[i]).key_revoked && !s[i].key_expired && !s[i].signature_expired
                && !s[i].key_missing && !s[i].is_bad && !s[i].system_error,
    decreases s.len(),
{
    if s.len() > 0 {
        let t = s.drop_last();
        trusted_only_when_nothing_is_wrong(t);
        assert(forall|i: int| 0 <= i < t.len() ==> #[trigger] s[i] == t[i]);
        assert(s[s.len() - 1] == s.last());
        if first_distrust(s) is None {
            assert(first_distrust(t) is None);
        }
        if forall|i: int|
            0 <= i < s.len() ==> !(#[trigger] s[i]).key_revoked && !s[i].key_expired && !s[i].signature_expired
                && !s[i].key_missing && !s[i].is_bad && !s[i].system_error {
            assert forall|i: int| 0 <= i < t.len() implies !(#[trigger] t[i]).key_revoked && !t[i].key_expired
                && !t[i].signature_expired && !t[i].key_missing && !t[i].is_bad && !t[i].system_error by {
                assert(t[i] == s[i]);
            }
        }
    }
}

/// Where a signature is the first that cannot be trusted, the reason is that of it.
pub proof fn first_reason_is_told(s: Seq<SignatureFacts>, i: int)
    requires
        0 <= i < s.len(),
        distrust(s[i]) is Some,
        forall|j: int| 0 <= j < i ==> distrust(#[trigger] s[j]) is None,
    ensures
        first_distrust(s) == distrust(s[i]),
    decreases s.len(),
{
    let t = s.drop_last();
    if i < t.len() {
        assert(t[i] == s[i]);
        assert forall|j: int| 0 <= j < i implies distrust(#[trigger] t[j]) is None by {
            assert(t[j] == s[j]);
        }
        first_reason_is_told(t, i);
    } else {
        nothing_told(t);
    }
}

proof fn nothing_told(s: Seq<SignatureFacts>)
    requires
        forall|j: int| 0 <= j < s.len() ==> distrust(#[trigger] s[j]) is None,
    ensures
        first_distrust(s) is None,
    decreases s.len(),
{
    if s.len() > 0 {
        let t = s.drop_last();
        assert(distrust(s[s.len() - 1]) is None);
        assert forall|j: int| 0 <= j < t.len() implies distrust(#[trigger] t[j]) is None by {
            assert(t[j] == s[j]);
        }
        nothing_told(t);
    }
}

/// The reason names the key, and says what is wrong with it; that a key was revoked goes
/// before that it expired, and that before what is wrong with the signature.
pub proof fn reasons_name_the_key(f: SignatureFacts, fp: Seq<char>)
    requires
        f.fingerprint matches Some(s) && s@ == fp,
    ensures
        f.key_revoked ==> (distrust(f) matches Some(m) && has_prefix(
            m,
            "Signing key "@ + fp + " has been REVOKED by its owner."@,
        )),
        !f.key_revoked && f.key_expired ==> (distrust(f) matches Some(m) && has_prefix(
            m,
            "Signing key "@ + fp + " has EXPIRED."@,
        )),
        !f.key_revoked && !f.key_expired && !f.signature_expired && f.key_missing ==> (distrust(f) matches Some(m)
            && has_prefix(m, "Signing key "@ + fp + " not in trusted keyring."@)),
        !f.key_revoked && !f.key_expired && !f.signature_expired && !f.key_missing && f.is_bad ==> distrust(f) == Some(
            "BAD signature — package may be tampered with!"@,
        ),
        signers(seq![f]) == seq![fp],
{
    reveal_strlit(" has been REVOKED by its owner.");
    reveal_strlit(
        " has been REVOKED by its owner.\n    This usually means the key was compromised or retired — do not trust this package.",
    );
    reveal_strlit(" has EXPIRED.");
    reveal_strlit(
        " has EXPIRED.\n    The signature can't be trusted until the packager publishes a new key/signature.",
    );
    reveal_strlit(" not in trusted keyring.");
    reveal_strlit(" not in trusted keyring.\n    Add: hpm verify --import-key ");
    let a = "Signing key "@ + fp;
    begins_with(
        a,
        " has been REVOKED by its owner."@,
        " has been REVOKED by its owner.\n    This usually means the key was compromised or retired — do not trust this package."@,
        Seq::empty(),
    );
    begins_with(
        a,
        " has EXPIRED."@,
        " has EXPIRED.\n    The signature can't be trusted until the packager publishes a new key/signature."@,
        Seq::empty(),
    );
    begins_with(a, " not in trusted keyring."@, " not in trusted keyring.\n    Add: hpm verify --import-key "@, fp);
    assert(a
        + " has been REVOKED by its owner.\n    This usually means the key was compromised or retired — do not trust this package."@
        + Seq::<char>::empty() =~= a
        + " has been REVOKED by its owner.\n    This usually means the key was compromised or retired — do not trust this package."@);
    assert(a
        + " has EXPIRED.\n    The signature can't be trusted until the packager publishes a new key/signature."@
        + Seq::<char>::empty() =~= a
        + " has EXPIRED.\n    The signature can't be trusted until the packager publishes a new key/signature."@);
    assert(signers(seq![f]) =~= seq![fp]);
}

proof fn begins_with(a: Seq<char>, short: Seq<char>, long: Seq<char>, behind: Seq<char>)
    requires
        short.len() <= long.len(),
        forall|i: int| 0 <= i < short.len() ==> short[i] == #[trigger] long[i],
    ensures
        has_prefix(a + long + behind, a + short),
{
    assert((a + long + behind).take((a + short).len() as int) =~= a + short);
}

} // verus!
