//! Manifests: what a package says of itself.
use vstd::prelude::*;
use vstd::seq_lib::lemma_seq_concat_contains_all_elements;
use indexmap::IndexMap;

use crate::config::{map_get, map_insert, map_new, map_pairs, pair_index_is, pair_put, pair_value, put_value_is_found, value_is_that_of_the_first, filled_table, hk_resolved, no_env_table, plain_table, read_config, table_tree, table_tree_at, ConfigError, ConfigTree, ConfigValue, file_text, hk_parsed, has_lone_quote};
use crate::text::{is_empty_text, is_white, lines, push_text, run, run_unique, same, split_by, split_class, strs, strs_push, trim, trim_class, trim_white, trimmed, trimming_takes_white_ends, CharClass};

verus! {

// ---------------------------------------------------------------------------
// Values of a configuration
// ---------------------------------------------------------------------------

/// The text of a value, if it is a text, a number or a flag.
pub open spec fn as_text(v: ConfigTree) -> Option<Seq<char>> {
    match v {
        ConfigTree::Text(s) => Some(s),
        ConfigTree::Number(s) => Some(s),
        ConfigTree::Flag(b) => Some(
            if b {
                "true"@
            } else {
                "false"@
            },
        ),
        _ => None,
    }
}

/// The entries of a value, if it is a table.
pub open spec fn as_table(v: ConfigTree) -> Option<Seq<(Seq<char>, ConfigTree)>> {
    match v {
        ConfigTree::Table(t) => Some(t),
        _ => None,
    }
}

/// Whether a value stands for nothing: an empty text, or a flag that is off.
pub open spec fn stands_for_nothing(v: ConfigTree) -> bool {
    match v {
        ConfigTree::Text(s) => s.len() == 0,
        ConfigTree::Flag(b) => !b,
        _ => false,
    }
}

/// The text under a key.
pub open spec fn text_under(t: Seq<(Seq<char>, ConfigTree)>, key: Seq<char>) -> Option<Seq<char>> {
    match pair_value(t, key) {
        Some(v) => as_text(v),
        None => None,
    }
}

/// The text under a key, or none.
pub open spec fn text_or_empty(t: Seq<(Seq<char>, ConfigTree)>, key: Seq<char>) -> Seq<char> {
    match text_under(t, key) {
        Some(s) => s,
        None => Seq::empty(),
    }
}

/// Whether there is a flag under a key and it is on.
pub open spec fn flag_under(t: Seq<(Seq<char>, ConfigTree)>, key: Seq<char>) -> bool {
    pair_value(t, key) == Some(ConfigTree::Flag(true))
}

/// The table under a key.
pub open spec fn table_under(
    t: Seq<(Seq<char>, ConfigTree)>,
    key: Seq<char>,
) -> Option<Seq<(Seq<char>, ConfigTree)>> {
    match pair_value(t, key) {
        Some(v) => as_table(v),
        None => None,
    }
}

/// The keys of a table whose values are texts or stand for nothing.
pub open spec fn item_keys(t: Seq<(Seq<char>, ConfigTree)>) -> Seq<Seq<char>>
    decreases t.len(),
{
    if t.len() == 0 {
        Seq::empty()
    } else {
        let rest = item_keys(t.drop_last());
        if stands_for_nothing(t.last().1) || t.last().1 is Text {
            rest + seq![t.last().0]
        } else {
            rest
        }
    }
}

/// The pieces of a list that is written as one text, without the white space
/// and the quotation marks round them, and without the empty ones.
pub open spec fn list_items(pieces: Seq<Seq<char>>) -> Seq<Seq<char>>
    decreases pieces.len(),
{
    if pieces.len() == 0 {
        Seq::empty()
    } else {
        let rest = list_items(pieces.drop_last());
        let item = trim(trimmed(pieces.last()), CharClass::Is('"'));
        if item.len() > 0 {
            rest + seq![item]
        } else {
            rest
        }
    }
}

/// The items of a list that is written as a text with commas.
pub open spec fn text_items(s: Seq<char>) -> Seq<Seq<char>> {
    let t = trimmed(s);
    if t.len() == 0 || t == "[]"@ || t == "{}"@ {
        Seq::empty()
    } else {
        list_items(split_by(s, CharClass::Is(',')))
    }
}

/// The items of the list under a key: the keys of a table, or the pieces of a text.
pub open spec fn list_under(t: Seq<(Seq<char>, ConfigTree)>, key: Seq<char>) -> Seq<Seq<char>> {
    match pair_value(t, key) {
        None => Seq::empty(),
        Some(v) => match as_table(v) {
            Some(m) => item_keys(m),
            None => match as_text(v) {
                Some(s) => text_items(s),
                None => Seq::empty(),
            },
        },
    }
}

fn find<'a>(t: &'a Vec<(String, ConfigValue)>, key: &str) -> (r: Option<&'a ConfigValue>)
    ensures
        match r {
            Some(v) => pair_value(table_tree(t@), key@) == Some(v.tree()),
            None => pair_value(table_tree(t@), key@) is None,
        },
{
    let mut i: usize = 0;
    proof {
        table_tree_at(t@);
    }
    while i < t.len()
        invariant
            i <= t@.len(),
            table_tree(t@).len() == t@.len(),
            forall|j: int|
                0 <= j < t@.len() ==> #[trigger] table_tree(t@)[j] == (t@[j].0@, t@[j].1.tree()),
            forall|j: int| 0 <= j < i ==> (#[trigger] table_tree(t@)[j]).0 != key@,
        decreases t@.len() - i,
    {
        assert(table_tree(t@)[i as int] == (t@[i as int].0@, t@[i as int].1.tree()));
        if same(t[i].0.as_str(), key) {
            proof {
                pair_index_is(table_tree(t@), key@, i as int);
            }
            return Some(&t[i].1);
        }
        i = i + 1;
    }
    proof {
        pair_index_is(table_tree(t@), key@, i as int);
    }
    None
}

fn value_text(v: &ConfigValue) -> (r: Option<String>)
    ensures
        match r {
            Some(s) => as_text(v.tree()) == Some(s@),
            None => as_text(v.tree()) is None,
        },
{
    match v {
        ConfigValue::Text(s) => Some(s.clone()),
        ConfigValue::Number(s) => Some(s.clone()),
        ConfigValue::Flag(b) => Some(
            if *b {
                "true".to_owned()
            } else {
                "false".to_owned()
            },
        ),
        _ => None,
    }
}

fn value_table(v: &ConfigValue) -> (r: Option<&Vec<(String, ConfigValue)>>)
    ensures
        match r {
            Some(t) => as_table(v.tree()) == Some(table_tree(t@)),
            None => as_table(v.tree()) is None,
        },
{
    match v {
        ConfigValue::Table(t) => Some(t),
        _ => None,
    }
}

fn is_empty_value(v: &ConfigValue) -> (r: bool)
    ensures
        r == stands_for_nothing(v.tree()),
{
    match v {
        ConfigValue::Text(s) => is_empty_text(s.as_str()),
        ConfigValue::Flag(b) => !*b,
        _ => false,
    }
}

fn get_str(t: &Vec<(String, ConfigValue)>, key: &str) -> (r: Option<String>)
    ensures
        match r {
            Some(s) => text_under(table_tree(t@), key@) == Some(s@),
            None => text_under(table_tree(t@), key@) is None,
        },
{
    match find(t, key) {
        Some(v) => value_text(v),
        None => None,
    }
}

fn get_str_or_empty(t: &Vec<(String, ConfigValue)>, key: &str) -> (r: String)
    ensures
        r@ == text_or_empty(table_tree(t@), key@),
{
    match get_str(t, key) {
        Some(s) => s,
        None => {
            let e = String::new();
            assert(e@ =~= Seq::<char>::empty());
            e
        },
    }
}

fn get_bool(t: &Vec<(String, ConfigValue)>, key: &str) -> (r: bool)
    ensures
        r == flag_under(table_tree(t@), key@),
{
    match find(t, key) {
        Some(ConfigValue::Flag(b)) => *b,
        _ => false,
    }
}

fn get_table<'a>(t: &'a Vec<(String, ConfigValue)>, key: &str) -> (r: Option<&'a Vec<(String, ConfigValue)>>)
    ensures
        match r {
            Some(m) => table_under(table_tree(t@), key@) == Some(table_tree(m@)),
            None => table_under(table_tree(t@), key@) is None,
        },
{
    match find(t, key) {
        Some(v) => value_table(v),
        None => None,
    }
}

fn table_items(t: &Vec<(String, ConfigValue)>, any_text: bool) -> (r: Vec<String>)
    ensures
        strs(r@) == (if any_text {
            item_keys(table_tree(t@))
        } else {
            empty_keys(table_tree(t@))
        }),
{
    let mut out: Vec<String> = Vec::new();
    let mut i: usize = 0;
    let ghost s = table_tree(t@);
    proof {
        table_tree_at(t@);
        assert(s.take(0) =~= Seq::<(Seq<char>, ConfigTree)>::empty());
        assert(strs(out@) =~= Seq::<Seq<char>>::empty());
    }
    while i < t.len()
        invariant
            i <= t@.len(),
            s == table_tree(t@),
            s.len() == t@.len(),
            forall|j: int| 0 <= j < t@.len() ==> #[trigger] s[j] == (t@[j].0@, t@[j].1.tree()),
            strs(out@) == (if any_text {
                item_keys(s.take(i as int))
            } else {
                empty_keys(s.take(i as int))
            }),
        decreases t@.len() - i,
    {
        let v = &t[i].1;
        proof {
            let longer = s.take(i + 1);
            assert(longer.drop_last() =~= s.take(i as int));
            assert(longer.last() == s[i as int]);
        }
        let text = match v {
            ConfigValue::Text(_) => any_text,
            _ => false,
        };
        if text || is_empty_value(v) {
            push_text(&mut out, t[i].0.clone());
        }
        i = i + 1;
    }
    assert(s.take(s.len() as int) =~= s);
    out
}

/// The keys of a table whose values stand for nothing.
pub open spec fn empty_keys(t: Seq<(Seq<char>, ConfigTree)>) -> Seq<Seq<char>>
    decreases t.len(),
{
    if t.len() == 0 {
        Seq::empty()
    } else {
        let rest = empty_keys(t.drop_last());
        if stands_for_nothing(t.last().1) {
            rest + seq![t.last().0]
        } else {
            rest
        }
    }
}

fn items_of_text(s: &str) -> (r: Vec<String>)
    ensures
        strs(r@) == text_items(s@),
{
    let mut out: Vec<String> = Vec::new();
    assert(strs(out@) =~= Seq::<Seq<char>>::empty());
    let t = trim_white(s);
    if is_empty_text(t.as_str()) || same(t.as_str(), "[]") || same(t.as_str(), "{}") {
        return out;
    }
    let pieces = split_class(s, CharClass::Is(','));
    let mut i: usize = 0;
    let ghost p = strs(pieces@);
    assert(p.take(0) =~= Seq::<Seq<char>>::empty());
    while i < pieces.len()
        invariant
            i <= pieces@.len(),
            p == strs(pieces@),
            strs(out@) == list_items(p.take(i as int)),
        decreases pieces@.len() - i,
    {
        let a = trim_white(pieces[i].as_str());
        let b = trim_class(a.as_str(), CharClass::Is('"'));
        proof {
            let longer = p.take(i + 1);
            assert(longer.drop_last() =~= p.take(i as int));
            assert(longer.last() == pieces@[i as int]@);
        }
        if !is_empty_text(b.as_str()) {
            push_text(&mut out, b);
        }
        i = i + 1;
    }
    assert(p.take(p.len() as int) =~= p);
    out
}

fn get_string_list(t: &Vec<(String, ConfigValue)>, key: &str) -> (r: Vec<String>)
    ensures
        strs(r@) == list_under(table_tree(t@), key@),
{
    let empty: Vec<String> = Vec::new();
    assert(strs(empty@) =~= Seq::<Seq<char>>::empty());
    match find(t, key) {
        None => empty,
        Some(v) => match value_table(v) {
            Some(m) => table_items(m, true),
            None => match value_text(v) {
                Some(s) => items_of_text(s.as_str()),
                None => empty,
            },
        },
    }
}

// ---------------------------------------------------------------------------
// The architecture
// ---------------------------------------------------------------------------

/// Whether a declared architecture is that of a machine. Nothing and `any` are
/// every machine's.
pub open spec fn arch_fits(declared: Seq<char>, current: Seq<char>) -> bool {
    ||| declared.len() == 0
    ||| declared == "any"@
    ||| declared == "x86_64"@ && current == "x86_64"@
    ||| declared == "aarch64"@ && current == "aarch64"@
    ||| declared == "armhf"@ && current == "arm"@
    ||| declared == "i386"@ && current == "x86"@
}

/// Checks that a declared architecture is that of the machine.
pub fn check_arch_compatibility(declared: &str, current: &str) -> (r: Result<(), String>)
    ensures
        match r {
            Ok(_) => arch_fits(declared@, current@),
            Err(m) => !arch_fits(declared@, current@) && m@
                == "Architecture mismatch: package requires '"@ + declared@ + "' but running on '"@
                + current@
                + "'.\nIf this is a cross-arch install, use hpm install --force-arch to override."@,
        },
{
    if is_empty_text(declared) || same(declared, "any") || (same(declared, "x86_64") && same(
        current,
        "x86_64",
    )) || (same(declared, "aarch64") && same(current, "aarch64")) || (same(declared, "armhf")
        && same(current, "arm")) || (same(declared, "i386") && same(current, "x86")) {
        return Ok(());
    }
    let mut m = "Architecture mismatch: package requires '".to_owned();
    m.append(declared);
    m.append("' but running on '");
    m.append(current);
    m.append("'.\nIf this is a cross-arch install, use hpm install --force-arch to override.");
    Err(m)
}

/// Whether a text is an architecture that a package may declare.
pub open spec fn known_arch(arch: Seq<char>) -> bool {
    arch == "x86_64"@ || arch == "aarch64"@ || arch == "armhf"@ || arch == "i386"@ || arch
        == "any"@
}

/// Whether a text is an architecture that a package may declare.
pub fn is_known_arch(arch: &str) -> (r: bool)
    ensures
        r == known_arch(arch@),
{
    same(arch, "x86_64") || same(arch, "aarch64") || same(arch, "armhf") || same(arch, "i386")
        || same(arch, "any")
}

/// An architecture that fits some machine, and is not empty, is a known one.
pub proof fn fitting_arch_is_known(declared: Seq<char>, current: Seq<char>)
    requires
        arch_fits(declared, current),
        declared.len() > 0,
    ensures
        known_arch(declared),
{
}

// ---------------------------------------------------------------------------
// The manifest
// ---------------------------------------------------------------------------

/// How a package is built.
#[derive(Debug)]
pub struct BuildInfo {
    pub commands: Vec<String>,
    pub deb_deps: Vec<String>,
}

/// What a package needs to run.
#[derive(Debug)]
pub struct RuntimeInfo {
    pub deb_deps: Vec<String>,
}

/// How a package appears on the desktop.
#[derive(Debug)]
pub struct DesktopInfo {
    pub display_name: String,
    pub icon: String,
    pub categories: String,
    pub comment: String,
    pub nodisplay: bool,
    pub desktop_file: String,
    pub mime_types: String,
    pub keywords: String,
}

/// What a package may do.
#[derive(Debug)]
pub struct Sandbox {
    pub network: bool,
    pub filesystem: Vec<String>,
    pub gui: bool,
    pub dev: bool,
    pub full_gui: bool,
    /// Whether its hooks may use the network.
    pub hooks_network: bool,
}

/// What a package says of itself.
#[derive(Debug)]
pub struct Manifest {
    pub name: String,
    pub version: String,
    pub authors: String,
    pub license: String,
    pub summary: String,
    pub long: String,
    pub system_specs: IndexMap<String, String>,
    pub deps: IndexMap<String, String>,
    pub tags: Vec<String>,
    pub bins: Vec<String>,
    pub bin_paths: IndexMap<String, String>,
    pub sandbox: Sandbox,
    pub sandbox_disabled: bool,
    pub install_commands: Vec<String>,
    pub build: BuildInfo,
    pub runtime: RuntimeInfo,
    pub desktop: DesktopInfo,
    pub is_gui: bool,
    pub conflicts: Vec<String>,
    pub arch: String,
    /// Whether there is a directory of hooks.
    pub has_hooks: bool,
}

/// How a package appears on the desktop, as a mathematical value.
#[verifier::ext_equal]
pub struct DesktopModel {
    pub display_name: Seq<char>,
    pub icon: Seq<char>,
    pub categories: Seq<char>,
    pub comment: Seq<char>,
    pub nodisplay: bool,
    pub desktop_file: Seq<char>,
    pub mime_types: Seq<char>,
    pub keywords: Seq<char>,
}

/// What a package may do, as a mathematical value.
#[verifier::ext_equal]
pub struct SandboxModel {
    pub network: bool,
    pub filesystem: Seq<Seq<char>>,
    pub gui: bool,
    pub dev: bool,
    pub full_gui: bool,
    pub hooks_network: bool,
}

/// What a package says of itself, as a mathematical value.
#[verifier::ext_equal]
pub struct ManifestModel {
    pub name: Seq<char>,
    pub version: Seq<char>,
    pub authors: Seq<char>,
    pub license: Seq<char>,
    pub summary: Seq<char>,
    pub long: Seq<char>,
    pub system_specs: Seq<(Seq<char>, Seq<char>)>,
    pub deps: Seq<(Seq<char>, Seq<char>)>,
    pub tags: Seq<Seq<char>>,
    pub bins: Seq<Seq<char>>,
    pub bin_paths: Seq<(Seq<char>, Seq<char>)>,
    pub sandbox: SandboxModel,
    pub sandbox_disabled: bool,
    pub install_commands: Seq<Seq<char>>,
    pub build_commands: Seq<Seq<char>>,
    pub build_deb_deps: Seq<Seq<char>>,
    pub runtime_deb_deps: Seq<Seq<char>>,
    pub desktop: DesktopModel,
    pub is_gui: bool,
    pub conflicts: Seq<Seq<char>>,
    pub arch: Seq<char>,
    pub has_hooks: bool,
}

impl View for DesktopInfo {
    type V = DesktopModel;

    open spec fn view(&self) -> DesktopModel {
        DesktopModel {
            display_name: self.display_name@,
            icon: self.icon@,
            categories: self.categories@,
            comment: self.comment@,
            nodisplay: self.nodisplay,
            desktop_file: self.desktop_file@,
            mime_types: self.mime_types@,
            keywords: self.keywords@,
        }
    }
}

impl View for Sandbox {
    type V = SandboxModel;

    open spec fn view(&self) -> SandboxModel {
        SandboxModel {
            network: self.network,
            filesystem: strs(self.filesystem@),
            gui: self.gui,
            dev: self.dev,
            full_gui: self.full_gui,
            hooks_network: self.hooks_network,
        }
    }
}

impl View for Manifest {
    type V = ManifestModel;

    open spec fn view(&self) -> ManifestModel {
        ManifestModel {
            name: self.name@,
            version: self.version@,
            authors: self.authors@,
            license: self.license@,
            summary: self.summary@,
            long: self.long@,
            system_specs: map_pairs(self.system_specs),
            deps: map_pairs(self.deps),
            tags: strs(self.tags@),
            bins: strs(self.bins@),
            bin_paths: map_pairs(self.bin_paths),
            sandbox: self.sandbox@,
            sandbox_disabled: self.sandbox_disabled,
            install_commands: strs(self.install_commands@),
            build_commands: strs(self.build.commands@),
            build_deb_deps: strs(self.build.deb_deps@),
            runtime_deb_deps: strs(self.runtime.deb_deps@),
            desktop: self.desktop@,
            is_gui: self.is_gui,
            conflicts: strs(self.conflicts@),
            arch: self.arch@,
            has_hooks: self.has_hooks,
        }
    }
}

/// Why a configuration is no manifest.
#[derive(Clone, Copy, PartialEq, Eq, Structural, Debug)]
pub enum ManifestProblem {
    MissingMetadata,
    InvalidMetadata,
    MissingName,
    MissingVersion,
}

/// Why a manifest cannot be read.
#[derive(Debug)]
pub enum ManifestError {
    /// Its text cannot be read.
    Config(ConfigError),
    /// Its text can be read, but is no manifest.
    Problem(ManifestProblem),
}

/// The text of a problem.
pub fn problem_message(p: ManifestProblem) -> (r: &'static str)
    ensures
        r@ == (match p {
            ManifestProblem::MissingMetadata => "Missing [metadata] section"@,
            ManifestProblem::InvalidMetadata => "Invalid [metadata] section"@,
            ManifestProblem::MissingName => "Missing name"@,
            ManifestProblem::MissingVersion => "Missing version"@,
        }),
{
    match p {
        ManifestProblem::MissingMetadata => "Missing [metadata] section",
        ManifestProblem::InvalidMetadata => "Invalid [metadata] section",
        ManifestProblem::MissingName => "Missing name",
        ManifestProblem::MissingVersion => "Missing version",
    }
}

/// An empty table in place of one that is missing.
pub open spec fn section(
    config: Seq<(Seq<char>, ConfigTree)>,
    name: Seq<char>,
) -> Seq<(Seq<char>, ConfigTree)> {
    match table_under(config, name) {
        Some(t) => t,
        None => Seq::empty(),
    }
}

/// All keys of a table.
pub open spec fn all_keys(t: Seq<(Seq<char>, ConfigTree)>) -> Seq<Seq<char>> {
    t.map_values(|p: (Seq<char>, ConfigTree)| p.0)
}

/// The entries of a table that have a text, put in one after the other; those
/// with an empty text left out where `nonempty`, and the key `except` left out.
pub open spec fn text_entries(
    t: Seq<(Seq<char>, ConfigTree)>,
    nonempty: bool,
    except: Option<Seq<char>>,
) -> Seq<(Seq<char>, Seq<char>)>
    decreases t.len(),
{
    if t.len() == 0 {
        Seq::empty()
    } else {
        let rest = text_entries(t.drop_last(), nonempty, except);
        let (k, v) = t.last();
        match as_text(v) {
            Some(s) => if (nonempty && s.len() == 0) || except == Some(k) {
                rest
            } else {
                pair_put(rest, k, s)
            },
            None => rest,
        }
    }
}

/// How a section says that a package appears on the desktop.
pub open spec fn desktop_of(t: Seq<(Seq<char>, ConfigTree)>) -> DesktopModel {
    DesktopModel {
        display_name: text_or_empty(t, "display_name"@),
        icon: text_or_empty(t, "icon"@),
        categories: text_or_empty(t, "categories"@),
        comment: text_or_empty(t, "comment"@),
        nodisplay: flag_under(t, "nodisplay"@),
        desktop_file: text_or_empty(t, "desktop_file"@),
        mime_types: text_or_empty(t, "mime_types"@),
        keywords: text_or_empty(t, "keywords"@),
    }
}

/// What a section says that a package may do.
pub open spec fn sandbox_of(t: Seq<(Seq<char>, ConfigTree)>, gui: bool) -> SandboxModel {
    SandboxModel {
        network: flag_under(t, "network"@),
        filesystem: list_under(t, "filesystem"@),
        gui: flag_under(t, "gui"@) || gui,
        dev: flag_under(t, "dev"@),
        full_gui: flag_under(t, "full_gui"@),
        hooks_network: flag_under(t, "hooks_network"@),
    }
}

/// The manifest that a configuration is.
pub open spec fn manifest_of(config: Seq<(Seq<char>, ConfigTree)>, has_hooks: bool) -> Result<ManifestModel, ManifestProblem> {
    let meta = section(config, "metadata"@);
    let description = section(config, "description"@);
    let specs = section(config, "specs"@);
    let sandbox = section(config, "sandbox"@);
    let bins = section(meta, "bins"@);
    let gui = flag_under(meta, "gui"@);
    let system_specs = text_entries(specs, false, Some("dependencies"@));
    let own_arch = text_or_empty(meta, "arch"@);
    match pair_value(config, "metadata"@) {
        None => Err(ManifestProblem::MissingMetadata),
        Some(v) => if as_table(v) is None {
            Err(ManifestProblem::InvalidMetadata)
        } else if text_under(meta, "name"@) is None {
            Err(ManifestProblem::MissingName)
        } else if text_under(meta, "version"@) is None {
            Err(ManifestProblem::MissingVersion)
        } else {
            Ok(
                ManifestModel {
                    name: text_or_empty(meta, "name"@),
                    version: text_or_empty(meta, "version"@),
                    authors: text_or_empty(meta, "authors"@),
                    license: text_or_empty(meta, "license"@),
                    summary: text_or_empty(description, "summary"@),
                    long: text_or_empty(description, "long"@),
                    system_specs,
                    deps: text_entries(section(specs, "dependencies"@), false, None),
                    tags: list_under(meta, "tags"@),
                    bins: all_keys(bins),
                    bin_paths: text_entries(bins, true, None),
                    sandbox: sandbox_of(sandbox, gui),
                    sandbox_disabled: flag_under(sandbox, "disabled"@),
                    install_commands: list_under(section(config, "install"@), "commands"@),
                    build_commands: list_under(section(config, "build"@), "commands"@),
                    build_deb_deps: list_under(section(config, "build"@), "deb_deps"@),
                    runtime_deb_deps: list_under(section(config, "runtime"@), "deb_deps"@),
                    desktop: desktop_of(section(config, "desktop"@)),
                    is_gui: gui,
                    conflicts: empty_keys(section(config, "conflicts"@)),
                    arch: if own_arch.len() == 0 {
                        match pair_value(system_specs, "arch"@) {
                            Some(a) => a,
                            None => Seq::empty(),
                        }
                    } else {
                        own_arch
                    },
                    has_hooks,
                },
            )
        },
    }
}

fn keys_of(t: &Vec<(String, ConfigValue)>) -> (r: Vec<String>)
    ensures
        strs(r@) == all_keys(table_tree(t@)),
{
    let mut out: Vec<String> = Vec::new();
    let mut i: usize = 0;
    let ghost s = table_tree(t@);
    proof {
        table_tree_at(t@);
        assert(strs(out@) =~= all_keys(s).take(0));
    }
    while i < t.len()
        invariant
            i <= t@.len(),
            s == table_tree(t@),
            s.len() == t@.len(),
            forall|j: int| 0 <= j < t@.len() ==> #[trigger] s[j] == (t@[j].0@, t@[j].1.tree()),
            strs(out@) == all_keys(s).take(i as int),
        decreases t@.len() - i,
    {
        let k = t[i].0.clone();
        proof {
            assert(s[i as int].0 == k@);
            assert(all_keys(s).take(i + 1) =~= all_keys(s).take(i as int).push(k@));
            strs_push(out@, k);
        }
        out.push(k);
        i = i + 1;
    }
    assert(all_keys(s).take(s.len() as int) =~= all_keys(s));
    out
}

fn texts_of(t: &Vec<(String, ConfigValue)>, nonempty: bool, skip_deps: bool) -> (r: IndexMap<String, String>)
    ensures
        map_pairs(r) == text_entries(
            table_tree(t@),
            nonempty,
            if skip_deps {
                Some("dependencies"@)
            } else {
                None
            },
        ),
{
    let mut out = map_new();
    let mut i: usize = 0;
    let ghost s = table_tree(t@);
    let ghost except = if skip_deps {
        Some("dependencies"@)
    } else {
        None
    };
    proof {
        table_tree_at(t@);
        assert(s.take(0) =~= Seq::<(Seq<char>, ConfigTree)>::empty());
    }
    while i < t.len()
        invariant
            i <= t@.len(),
            s == table_tree(t@),
            s.len() == t@.len(),
            except == (if skip_deps {
                Some("dependencies"@)
            } else {
                None
            }),
            forall|j: int| 0 <= j < t@.len() ==> #[trigger] s[j] == (t@[j].0@, t@[j].1.tree()),
            map_pairs(out) == text_entries(s.take(i as int), nonempty, except),
        decreases t@.len() - i,
    {
        proof {
            let longer = s.take(i + 1);
            assert(longer.drop_last() =~= s.take(i as int));
            assert(longer.last() == s[i as int]);
        }
        match value_text(&t[i].1) {
            Some(v) => {
                let skipped = skip_deps && same(t[i].0.as_str(), "dependencies");
                if !(nonempty && is_empty_text(v.as_str())) && !skipped {
                    map_insert(&mut out, t[i].0.clone(), v);
                }
            },
            None => {},
        }
        i = i + 1;
    }
    assert(s.take(s.len() as int) =~= s);
    out
}

fn read_desktop(t: &Vec<(String, ConfigValue)>) -> (r: DesktopInfo)
    ensures
        r@ == desktop_of(table_tree(t@)),
{
    DesktopInfo {
        display_name: get_str_or_empty(t, "display_name"),
        icon: get_str_or_empty(t, "icon"),
        categories: get_str_or_empty(t, "categories"),
        comment: get_str_or_empty(t, "comment"),
        nodisplay: get_bool(t, "nodisplay"),
        desktop_file: get_str_or_empty(t, "desktop_file"),
        mime_types: get_str_or_empty(t, "mime_types"),
        keywords: get_str_or_empty(t, "keywords"),
    }
}

fn read_sandbox(t: &Vec<(String, ConfigValue)>, gui: bool) -> (r: Sandbox)
    ensures
        r@ == sandbox_of(table_tree(t@), gui),
{
    Sandbox {
        network: get_bool(t, "network"),
        filesystem: get_string_list(t, "filesystem"),
        gui: get_bool(t, "gui") || gui,
        dev: get_bool(t, "dev"),
        full_gui: get_bool(t, "full_gui"),
        hooks_network: get_bool(t, "hooks_network"),
    }
}

fn get_section<'a>(t: &'a Vec<(String, ConfigValue)>, key: &str, empty: &'a Vec<(String, ConfigValue)>) -> (r: &'a Vec<(String, ConfigValue)>)
    requires
        empty@.len() == 0,
    ensures
        table_tree(r@) == section(table_tree(t@), key@),
{
    assert(table_tree(empty@) =~= Seq::<(Seq<char>, ConfigTree)>::empty());
    match get_table(t, key) {
        Some(m) => m,
        None => empty,
    }
}

/// Whether a result is the manifest that a configuration is, or what is wrong with
/// it as one.
pub open spec fn is_manifest_of(
    r: Result<Manifest, ManifestError>,
    config: Seq<(Seq<char>, ConfigTree)>,
    has_hooks: bool,
) -> bool {
    match r {
        Ok(m) => manifest_of(config, has_hooks) == Ok::<ManifestModel, ManifestProblem>(m@),
        Err(ManifestError::Problem(p)) => manifest_of(config, has_hooks) == Err::<
            ManifestModel,
            ManifestProblem,
        >(p),
        Err(ManifestError::Config(_)) => false,
    }
}

impl Manifest {
    /// The manifest that a configuration is.
    #[verifier::rlimit(60)]
    pub fn from_config(config: &Vec<(String, ConfigValue)>, has_hooks: bool) -> (r: Result<Manifest, ManifestProblem>)
        ensures
            match r {
                Ok(m) => manifest_of(table_tree(config@), has_hooks) == Ok::<ManifestModel, ManifestProblem>(m@),
                Err(p) => manifest_of(table_tree(config@), has_hooks) == Err::<ManifestModel, ManifestProblem>(p),
            },
    {
        let empty: Vec<(String, ConfigValue)> = Vec::new();
        let meta = match find(config, "metadata") {
            None => {
                return Err(ManifestProblem::MissingMetadata);
            },
            Some(v) => match value_table(v) {
                None => {
                    return Err(ManifestProblem::InvalidMetadata);
                },
                Some(t) => t,
            },
        };
        let name = match get_str(meta, "name") {
            None => {
                return Err(ManifestProblem::MissingName);
            },
            Some(s) => s,
        };
        let version = match get_str(meta, "version") {
            None => {
                return Err(ManifestProblem::MissingVersion);
            },
            Some(s) => s,
        };
        let description = get_section(config, "description", &empty);
        let specs = get_section(config, "specs", &empty);
        let dep_table = get_section(specs, "dependencies", &empty);
        let sandbox = get_section(config, "sandbox", &empty);
        let install = get_section(config, "install", &empty);
        let build = get_section(config, "build", &empty);
        let runtime = get_section(config, "runtime", &empty);
        let desktop = get_section(config, "desktop", &empty);
        let conflicts = get_section(config, "conflicts", &empty);
        let bins = get_section(meta, "bins", &empty);
        let gui = get_bool(meta, "gui");
        let system_specs = texts_of(specs, false, true);
        let own_arch = get_str_or_empty(meta, "arch");
        let arch = if is_empty_text(own_arch.as_str()) {
            match map_get(&system_specs, "arch") {
                Some(a) => a.clone(),
                None => String::new(),
            }
        } else {
            own_arch
        };
        let m = Manifest {
            name,
            version,
            authors: get_str_or_empty(meta, "authors"),
            license: get_str_or_empty(meta, "license"),
            summary: get_str_or_empty(description, "summary"),
            long: get_str_or_empty(description, "long"),
            system_specs,
            deps: texts_of(dep_table, false, false),
            tags: get_string_list(meta, "tags"),
            bins: keys_of(bins),
            bin_paths: texts_of(bins, true, false),
            sandbox: read_sandbox(sandbox, gui),
            sandbox_disabled: get_bool(sandbox, "disabled"),
            install_commands: get_string_list(install, "commands"),
            build: BuildInfo {
                commands: get_string_list(build, "commands"),
                deb_deps: get_string_list(build, "deb_deps"),
            },
            runtime: RuntimeInfo { deb_deps: get_string_list(runtime, "deb_deps") },
            desktop: read_desktop(desktop),
            is_gui: gui,
            conflicts: table_items(conflicts, false),
            arch,
            has_hooks,
        };
        assert(Ok::<ManifestModel, ManifestProblem>(m@) == manifest_of(table_tree(config@), has_hooks));
        Ok(m)
    }

    /// Reads the text of a manifest.
    ///
    /// What a reference to an environment variable stands for depends on the
    /// environment: a text with such references gives the manifest of what it
    /// holds, with at most the texts changed that hold references.
    pub fn parse(content: &str, has_hooks: bool) -> (r: Result<Manifest, ManifestError>)
        ensures
            ({
                let text = file_text(lines(content@));
                if has_lone_quote(text) {
                    r matches Err(ManifestError::Config(ConfigError::LoneQuote))
                } else {
                    match hk_parsed(text) {
                        None => r matches Err(ManifestError::Config(ConfigError::Unreadable(_))),
                        Some(t) => {
                            &&& no_env_table(t) ==> match hk_resolved(t) {
                                Some(u) => is_manifest_of(r, u, has_hooks),
                                None => r matches Err(ManifestError::Config(ConfigError::Unresolved(_))),
                            }
                            &&& plain_table(t) ==> is_manifest_of(r, t, has_hooks)
                            &&& match r {
                                Err(ManifestError::Config(e)) => e is Unresolved,
                                _ => exists|u: Seq<(Seq<char>, ConfigTree)>| #[trigger]
                                    filled_table(t, u) && is_manifest_of(r, u, has_hooks),
                            }
                        },
                    }
                }
            }),
    {
        match read_config(content) {
            Err(e) => Err(ManifestError::Config(e)),
            Ok(config) => match Manifest::from_config(&config, has_hooks) {
                Ok(m) => Ok(m),
                Err(p) => Err(ManifestError::Problem(p)),
            },
        }
    }

    /// Whether the package has a window.
    pub fn has_window(&self) -> (r: bool)
        ensures
            r == (self@.is_gui || self@.sandbox.gui || self@.sandbox.full_gui),
    {
        self.is_gui || self.sandbox.gui || self.sandbox.full_gui
    }
}

/// A manifest that calls itself one with a window has its sandbox opened for
/// one, and a manifest without a sandbox section has nothing else opened.
pub proof fn sandbox_defaults_closed(config: Seq<(Seq<char>, ConfigTree)>, has_hooks: bool)
    ensures
        match manifest_of(config, has_hooks) {
            Ok(m) => {
                &&& m.is_gui ==> m.sandbox.gui
                &&& table_under(config, "sandbox"@) is None ==> !m.sandbox.network && !m.sandbox.dev
                    && !m.sandbox.full_gui && !m.sandbox.hooks_network && !m.sandbox_disabled
                    && m.sandbox.gui == m.is_gui && m.sandbox.filesystem
                    == Seq::<Seq<char>>::empty()
            },
            Err(_) => true,
        },
{
}

/// A package that declares nothing, or `any`, fits every machine; one that declares an
/// architecture fits the machines of that only, which go by another name for two of them.
pub proof fn which_machines_fit(declared: Seq<char>, current: Seq<char>)
    ensures
        declared.len() == 0 || declared == "any"@ ==> arch_fits(declared, current),
        declared == "x86_64"@ ==> (arch_fits(declared, current) <==> current == "x86_64"@),
        declared == "aarch64"@ ==> (arch_fits(declared, current) <==> current == "aarch64"@),
        declared == "armhf"@ ==> (arch_fits(declared, current) <==> current == "arm"@),
        declared == "i386"@ ==> (arch_fits(declared, current) <==> current == "x86"@),
        declared.len() > 0 && declared != "any"@ && declared != "x86_64"@ && declared != "aarch64"@ && declared
            != "armhf"@ && declared != "i386"@ ==> !arch_fits(declared, current),
{
    reveal_strlit("any");
    reveal_strlit("x86_64");
    reveal_strlit("aarch64");
    reveal_strlit("armhf");
    reveal_strlit("i386");
    assert("any"@.len() == 3 && "x86_64"@.len() == 6 && "aarch64"@.len() == 7 && "armhf"@.len() == 5
        && "i386"@.len() == 4);
}

/// A configuration is a manifest exactly where it has a table of metadata in which there
/// are a name and a version.
pub proof fn what_is_a_manifest(config: Seq<(Seq<char>, ConfigTree)>, has_hooks: bool)
    ensures
        match manifest_of(config, has_hooks) {
            Ok(m) => pair_value(config, "metadata"@) matches Some(ConfigTree::Table(t)) && text_under(t, "name"@)
                == Some(m.name) && text_under(t, "version"@) == Some(m.version) && m.has_hooks == has_hooks,
            Err(ManifestProblem::MissingMetadata) => pair_value(config, "metadata"@) is None,
            Err(ManifestProblem::InvalidMetadata) => pair_value(config, "metadata"@) matches Some(v) && !(
            v is Table),
            Err(ManifestProblem::MissingName) => pair_value(config, "metadata"@) matches Some(
                ConfigTree::Table(t),
            ) && text_under(t, "name"@) is None,
            Err(ManifestProblem::MissingVersion) => pair_value(config, "metadata"@) matches Some(
                ConfigTree::Table(t),
            ) && text_under(t, "name"@) is Some && text_under(t, "version"@) is None,
        },
{
}

/// What a value is as text: a text or a number is what is written, a flag is its word, and
/// a list or a table is none.
pub proof fn what_is_read_as_text(t: Seq<(Seq<char>, ConfigTree)>, key: Seq<char>, s: Seq<char>)
    ensures
        pair_value(t, key) == Some(ConfigTree::Text(s)) ==> text_under(t, key) == Some(s) && text_or_empty(t, key)
            == s,
        pair_value(t, key) == Some(ConfigTree::Number(s)) ==> text_under(t, key) == Some(s),
        pair_value(t, key) == Some(ConfigTree::Flag(true)) ==> text_under(t, key) == Some("true"@) && flag_under(
            t,
            key,
        ),
        pair_value(t, key) == Some(ConfigTree::Flag(false)) ==> text_under(t, key) == Some("false"@)
            && !flag_under(t, key),
        pair_value(t, key) is None ==> text_under(t, key) is None && text_or_empty(t, key).len() == 0
            && !flag_under(t, key),
        pair_value(t, key) matches Some(ConfigTree::Table(_)) ==> text_under(t, key) is None && !flag_under(t, key),
{
}

/// Where the fields of a manifest are read from.
pub proof fn where_the_fields_stand(
    config: Seq<(Seq<char>, ConfigTree)>,
    has_hooks: bool,
    meta: Seq<(Seq<char>, ConfigTree)>,
    m: ManifestModel,
)
    requires
        manifest_of(config, has_hooks) == Ok::<ManifestModel, ManifestProblem>(m),
        pair_value(config, "metadata"@) == Some(ConfigTree::Table(meta)),
    ensures
        m.authors == text_or_empty(meta, "authors"@) && m.license == text_or_empty(meta, "license"@),
        m.tags == list_under(meta, "tags"@) && m.is_gui == flag_under(meta, "gui"@),
        pair_value(config, "description"@) matches Some(ConfigTree::Table(t)) ==> m.summary == text_or_empty(
            t,
            "summary"@,
        ) && m.long == text_or_empty(t, "long"@),
        pair_value(config, "sandbox"@) matches Some(ConfigTree::Table(t)) ==> {
            &&& m.sandbox.network == flag_under(t, "network"@) && m.sandbox.dev == flag_under(t, "dev"@)
            &&& m.sandbox.full_gui == flag_under(t, "full_gui"@)
            &&& m.sandbox.hooks_network == flag_under(t, "hooks_network"@)
            &&& m.sandbox.filesystem == list_under(t, "filesystem"@)
            &&& m.sandbox.gui == (flag_under(t, "gui"@) || flag_under(meta, "gui"@))
            &&& m.sandbox_disabled == flag_under(t, "disabled"@)
        },
        pair_value(config, "install"@) matches Some(ConfigTree::Table(t)) ==> m.install_commands == list_under(
            t,
            "commands"@,
        ),
        pair_value(config, "build"@) matches Some(ConfigTree::Table(t)) ==> m.build_commands == list_under(
            t,
            "commands"@,
        ) && m.build_deb_deps == list_under(t, "deb_deps"@),
        pair_value(config, "runtime"@) matches Some(ConfigTree::Table(t)) ==> m.runtime_deb_deps == list_under(
            t,
            "deb_deps"@,
        ),
        pair_value(config, "desktop"@) matches Some(ConfigTree::Table(t)) ==> {
            &&& m.desktop.display_name == text_or_empty(t, "display_name"@)
            &&& m.desktop.icon == text_or_empty(t, "icon"@)
            &&& m.desktop.categories == text_or_empty(t, "categories"@)
            &&& m.desktop.comment == text_or_empty(t, "comment"@)
            &&& m.desktop.nodisplay == flag_under(t, "nodisplay"@)
            &&& m.desktop.desktop_file == text_or_empty(t, "desktop_file"@)
            &&& m.desktop.mime_types == text_or_empty(t, "mime_types"@)
            &&& m.desktop.keywords == text_or_empty(t, "keywords"@)
        },
        text_or_empty(meta, "arch"@).len() > 0 ==> m.arch == text_or_empty(meta, "arch"@),
{
}

/// Each key of the table of programs is a program of the package.
pub proof fn programs_are_the_keys(
    config: Seq<(Seq<char>, ConfigTree)>,
    has_hooks: bool,
    meta: Seq<(Seq<char>, ConfigTree)>,
    bins: Seq<(Seq<char>, ConfigTree)>,
    m: ManifestModel,
    i: int,
)
    requires
        manifest_of(config, has_hooks) == Ok::<ManifestModel, ManifestProblem>(m),
        pair_value(config, "metadata"@) == Some(ConfigTree::Table(meta)),
        pair_value(meta, "bins"@) == Some(ConfigTree::Table(bins)),
        0 <= i < bins.len(),
    ensures
        m.bins.len() == bins.len(),
        m.bins[i] == bins[i].0,
{
}

proof fn text_entries_hold(t: Seq<(Seq<char>, ConfigTree)>, nonempty: bool, except: Option<Seq<char>>, k: Seq<char>)
    requires
        forall|i: int, j: int| 0 <= i < j < t.len() ==> (#[trigger] t[i]).0 != (#[trigger] t[j]).0,
    ensures
        pair_value(text_entries(t, nonempty, except), k) == (match text_under(t, k) {
            Some(s) => if (nonempty && s.len() == 0) || except == Some(k) {
                None
            } else {
                Some(s)
            },
            None => None,
        }),
    decreases t.len(),
{
    if t.len() == 0 {
        pair_index_is(t, k, 0);
        pair_index_is(text_entries(t, nonempty, except), k, 0);
    } else {
        let u = t.drop_last();
        let last = t[t.len() - 1];
        assert forall|i: int, j: int| 0 <= i < j < u.len() implies (#[trigger] u[i]).0 != (#[trigger] u[j]).0 by {
            assert(t[i].0 != t[j].0);
        }
        text_entries_hold(u, nonempty, except, k);
        let rest = text_entries(u, nonempty, except);
        value_is_that_of_the_first(t, k);
        value_is_that_of_the_first(u, k);
        if last.0 == k {
            assert forall|j: int| 0 <= j < t.len() - 1 implies (#[trigger] t[j]).0 != k by {
                assert(t[j].0 != t[t.len() - 1].0);
            }
            pair_index_is(t, k, t.len() - 1);
            assert forall|j: int| 0 <= j < u.len() implies (#[trigger] u[j]).0 != k by {
                assert(t[j] == u[j]);
            }
            pair_index_is(u, k, u.len() as int);
            if let Some(s) = as_text(last.1) {
                assert(k.push('x').len() != k.len());
                put_value_is_found(rest, k, s, k.push('x'));
            }
        } else {
            let i: int = match pair_value(u, k) {
                Some(v) => choose|i: int|
                    0 <= i < u.len() && #[trigger] u[i] == (k, v) && forall|j: int|
                        0 <= j < i ==> (#[trigger] u[j]).0 != k,
                None => t.len() as int,
            };
            assert forall|j: int| 0 <= j < i implies (#[trigger] t[j]).0 != k by {
                if j < u.len() {
                    assert(t[j] == u[j]);
                }
            }
            if i < u.len() {
                assert(t[i] == u[i]);
                pair_index_is(u, k, i);
            }
            pair_index_is(t, k, i);
            assert(text_under(t, k) == text_under(u, k));
            if let Some(s) = as_text(last.1) {
                put_value_is_found(rest, last.0, s, k);
            }
        }
    }
}

/// Each key of the table of dependencies that has a text is a dependency with that text as
/// its requirement, and nothing else is one; no key stands there twice.
pub proof fn dependencies_are_the_entries(
    config: Seq<(Seq<char>, ConfigTree)>,
    has_hooks: bool,
    specs: Seq<(Seq<char>, ConfigTree)>,
    deps: Seq<(Seq<char>, ConfigTree)>,
    m: ManifestModel,
    k: Seq<char>,
)
    requires
        manifest_of(config, has_hooks) == Ok::<ManifestModel, ManifestProblem>(m),
        pair_value(config, "specs"@) == Some(ConfigTree::Table(specs)),
        pair_value(specs, "dependencies"@) == Some(ConfigTree::Table(deps)),
        forall|i: int, j: int| 0 <= i < j < deps.len() ==> (#[trigger] deps[i]).0 != (#[trigger] deps[j]).0,
    ensures
        pair_value(m.deps, k) == text_under(deps, k),
{
    text_entries_hold(deps, false, None, k);
}

/// A program has the place that its key gives as a text, unless that is empty; no key
/// stands there twice.
pub proof fn places_of_programs_are_the_entries(
    config: Seq<(Seq<char>, ConfigTree)>,
    has_hooks: bool,
    meta: Seq<(Seq<char>, ConfigTree)>,
    bins: Seq<(Seq<char>, ConfigTree)>,
    m: ManifestModel,
    k: Seq<char>,
)
    requires
        manifest_of(config, has_hooks) == Ok::<ManifestModel, ManifestProblem>(m),
        pair_value(config, "metadata"@) == Some(ConfigTree::Table(meta)),
        pair_value(meta, "bins"@) == Some(ConfigTree::Table(bins)),
        forall|i: int, j: int| 0 <= i < j < bins.len() ==> (#[trigger] bins[i]).0 != (#[trigger] bins[j]).0,
    ensures
        pair_value(m.bin_paths, k) == (match text_under(bins, k) {
            Some(s) => if s.len() == 0 {
                None
            } else {
                Some(s)
            },
            None => None,
        }),
{
    text_entries_hold(bins, true, None, k);
}

/// The conflicts are the keys of their table whose values stand for nothing, and no other
/// keys are.
pub proof fn conflicts_are_the_empty_keys(
    config: Seq<(Seq<char>, ConfigTree)>,
    has_hooks: bool,
    t: Seq<(Seq<char>, ConfigTree)>,
    m: ManifestModel,
    k: Seq<char>,
)
    requires
        manifest_of(config, has_hooks) == Ok::<ManifestModel, ManifestProblem>(m),
        pair_value(config, "conflicts"@) == Some(ConfigTree::Table(t)),
    ensures
        m.conflicts.contains(k) <==> exists|i: int|
            0 <= i < t.len() && (#[trigger] t[i]).0 == k && (t[i].1 == ConfigTree::Flag(false) || (
            t[i].1 matches ConfigTree::Text(s) && s.len() == 0)),
{
    keys_hold(t, k);
}

proof fn keys_hold(t: Seq<(Seq<char>, ConfigTree)>, k: Seq<char>)
    ensures
        empty_keys(t).contains(k) <==> exists|i: int|
            0 <= i < t.len() && (#[trigger] t[i]).0 == k && (t[i].1 == ConfigTree::Flag(false) || (
            t[i].1 matches ConfigTree::Text(s) && s.len() == 0)),
        item_keys(t).contains(k) <==> exists|i: int|
            0 <= i < t.len() && (#[trigger] t[i]).0 == k && (t[i].1 == ConfigTree::Flag(false) || t[i].1 is Text),
    decreases t.len(),
{
    if t.len() > 0 {
        let u = t.drop_last();
        let last = t[t.len() - 1];
        keys_hold(u, k);
        lemma_seq_concat_contains_all_elements(empty_keys(u), seq![last.0], k);
        lemma_seq_concat_contains_all_elements(item_keys(u), seq![last.0], k);
        assert(seq![last.0][0] == last.0);
        assert(forall|i: int| 0 <= i < u.len() ==> u[i] == #[trigger] t[i]);
        assert forall|i: int| 0 <= i < u.len() implies #[trigger] u[i] == t[i] by {}
    }
}

/// The items of a list that is a table are its keys whose values are texts or flags that
/// are off.
pub proof fn items_of_a_table(
    t: Seq<(Seq<char>, ConfigTree)>,
    key: Seq<char>,
    u: Seq<(Seq<char>, ConfigTree)>,
    k: Seq<char>,
)
    requires
        pair_value(t, key) == Some(ConfigTree::Table(u)),
    ensures
        list_under(t, key).contains(k) <==> exists|i: int|
            0 <= i < u.len() && (#[trigger] u[i]).0 == k && (u[i].1 == ConfigTree::Flag(false) || u[i].1 is Text),
{
    keys_hold(u, k);
}

/// The items of a list that is a text stand between its commas: a word before the first
/// comma is an item, and the items of the rest follow.
pub proof fn items_stand_between_commas(a: Seq<char>, b: Seq<char>)
    requires
        a.len() > 0,
        forall|i: int| 0 <= i < a.len() ==> #[trigger] a[i] != ',' && a[i] != '"' && !is_white(a[i]),
    ensures
        list_items(split_by(a.push(',') + b, CharClass::Is(','))) == seq![a] + list_items(
            split_by(b, CharClass::Is(',')),
        ),
        list_items(split_by(a, CharClass::Is(','))) == seq![a],
{
    let k = CharClass::Is(',');
    let s = a.push(',') + b;
    run_unique(s, k, false, a.len() as int);
    run_unique(a, k, false, a.len() as int);
    assert(s.take(a.len() as int) =~= a);
    assert(s.skip(a.len() as int + 1) =~= b);
    let rest = split_by(b, k);
    assert(split_by(s, k) == seq![a] + rest);
    word_is_an_item(a, rest);
    word_is_an_item(a, Seq::empty());
    assert(seq![a] + Seq::<Seq<char>>::empty() =~= seq![a]);
    assert(seq![a] + list_items(Seq::<Seq<char>>::empty()) =~= seq![a]);
}

proof fn word_is_an_item(a: Seq<char>, rest: Seq<Seq<char>>)
    requires
        a.len() > 0,
        forall|i: int| 0 <= i < a.len() ==> #[trigger] a[i] != ',' && a[i] != '"' && !is_white(a[i]),
    ensures
        list_items(seq![a] + rest) == seq![a] + list_items(rest),
    decreases rest.len(),
{
    if rest.len() == 0 {
        assert(seq![a] + rest =~= seq![a]);
        trimming_takes_white_ends(Seq::empty(), a, Seq::empty());
        assert(Seq::<char>::empty() + a + Seq::<char>::empty() =~= a);
        let k = CharClass::Is('"');
        assert(run(a, k, true) == 0);
        assert(a.skip(0) =~= a);
        assert(trim(a, k) == a);
        assert(seq![a].drop_last() =~= Seq::<Seq<char>>::empty());
        assert(seq![a].last() == a);
        assert(list_items(Seq::<Seq<char>>::empty()) =~= Seq::<Seq<char>>::empty());
        assert(trim(trimmed(seq![a].last()), k) == a);
        assert(list_items(seq![a]) == list_items(seq![a].drop_last()) + seq![a]);
        assert(list_items(seq![a]) =~= seq![a]);
        assert(seq![a] + list_items(rest) =~= seq![a]);
    } else {
        let all = seq![a] + rest;
        word_is_an_item(a, rest.drop_last());
        assert(all.drop_last() =~= seq![a] + rest.drop_last());
        assert(all.last() == rest.last());
        assert(list_items(all) =~= seq![a] + list_items(rest));
    }
}

} // verus!
