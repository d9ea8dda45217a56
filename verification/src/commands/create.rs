//! Starting a new package.
use vstd::prelude::*;

use crate::commands::desktop::{capitalise, capitalised, or_else, to_uppercase, uppercase};
use crate::commands::diff::{flag_text, flag_word};
use crate::commands::packing::{has_only_name_chars, only_name_chars};
use crate::number::{number_of, parse_number};
use crate::pattern::{has_prefix, starts_with};
use crate::text::{cat, cat3, cat5, is_empty_text, lowercase, same, strs, to_chars, to_lowercase, trim_white, trimmed};

verus! {

// ---------------------------------------------------------------------------
// Answers
// ---------------------------------------------------------------------------

/// The answer to a question, or what stands for no answer.
pub fn prompt_answer(input: &str, default: &Option<String>) -> (r: String)
    ensures
        r@ == or_else(
            trimmed(input@),
            match default {
                Some(d) => d@,
                None => ""@,
            },
        ),
{
    let t = trim_white(input);
    if is_empty_text(t.as_str()) {
        match default {
            Some(d) => d.clone(),
            None => "".to_owned(),
        }
    } else {
        t
    }
}

/// The answer to a question that is answered with yes or no.
pub fn prompt_bool_answer(input: &str, default: bool) -> (r: bool)
    ensures
        ({
            let a = lowercase(trimmed(input@));
            r == (if a == "y"@ || a == "yes"@ {
                true
            } else if a == "n"@ || a == "no"@ {
                false
            } else {
                default
            })
        }),
{
    let t = trim_white(input);
    let a = to_lowercase(t.as_str());
    if same(a.as_str(), "y") || same(a.as_str(), "yes") {
        true
    } else if same(a.as_str(), "n") || same(a.as_str(), "no") {
        false
    } else {
        default
    }
}

/// The choice that an answer makes, by its position: the default where it is no
/// number or no position.
pub fn prompt_choice_answer(input: &str, count: usize, default: usize) -> (r: usize)
    requires
        default < count,
    ensures
        r == (match number_of(trimmed(input@), usize::MAX as nat) {
            Some(n) => if n < count {
                n as int
            } else {
                default as int
            },
            None => default as int,
        }),
        r < count,
{
    let t = trim_white(input);
    match parse_number(t.as_str(), usize::MAX as u64) {
        Some(n) => if n < count as u64 {
            n as usize
        } else {
            default
        },
        None => default,
    }
}

/// What is wrong with the name of a package.
pub open spec fn name_problem(name: Seq<char>) -> Option<Seq<char>> {
    if name.len() == 0 {
        Some("Package name cannot be empty"@)
    } else if !only_name_chars(name) {
        Some(
            "Package name '"@ + name
                + "' contains invalid characters.\nOnly letters, digits, hyphens and underscores are allowed."@,
        )
    } else if has_prefix(name, "-"@) || has_prefix(name, "_"@) {
        Some("Package name must start with a letter or digit"@)
    } else {
        None
    }
}

/// Checks the name of a package.
pub fn validate_pkg_name(name: &str) -> (r: Result<(), String>)
    ensures
        match r {
            Ok(_) => name_problem(name@) is None,
            Err(m) => name_problem(name@) == Some(m@),
        },
{
    if is_empty_text(name) {
        return Err("Package name cannot be empty".to_owned());
    }
    if !has_only_name_chars(name) {
        return Err(
            cat3(
                "Package name '",
                name,
                "' contains invalid characters.\nOnly letters, digits, hyphens and underscores are allowed.",
            ),
        );
    }
    if starts_with(name, "-") || starts_with(name, "_") {
        return Err("Package name must start with a letter or digit".to_owned());
    }
    Ok(())
}

// ---------------------------------------------------------------------------
// What is created
// ---------------------------------------------------------------------------

/// How the program of a new package is obtained.
#[derive(Clone, Copy, PartialEq, Eq, Structural, Debug)]
pub enum NewBuild {
    /// There is no program.
    Nothing,
    /// It is among the contents.
    Prebuilt,
    /// It is downloaded.
    Download,
    /// It is built from source.
    Source,
}

/// What is asked of a new package.
#[derive(Debug)]
pub struct NewPackage {
    pub name: String,
    pub version: String,
    pub authors: String,
    pub license: String,
    pub summary: String,
    pub long: String,
    /// The name of its program; empty where it has none.
    pub bin: String,
    pub is_gui: bool,
    pub needs_network: bool,
    pub categories: String,
    pub build: NewBuild,
}

/// The licenses to choose from.
pub open spec fn licenses() -> Seq<Seq<char>> {
    seq!["MIT"@, "GPL-2.0"@, "GPL-3.0"@, "Apache-2.0"@, "BSD-2-Clause"@, "custom"@]
}

/// The kinds of packages to choose from.
pub open spec fn kinds() -> Seq<Seq<char>> {
    seq!["CLI application"@, "GUI application"@, "Library / tool (no binary)"@, "Custom"@]
}

/// The ways to obtain a program to choose from.
pub open spec fn sources() -> Seq<Seq<char>> {
    seq![
        "Already in contents/ (prebuilt)"@,
        "Download from URL (GitHub Releases etc.)"@,
        "Build from source (cargo / make / cmake)"@,
    ]
}

/// The licenses to choose from.
pub fn license_choices() -> (r: Vec<String>)
    ensures
        strs(r@) == licenses(),
        r@.len() == 6,
{
    let mut v: Vec<String> = Vec::new();
    v.push("MIT".to_owned());
    v.push("GPL-2.0".to_owned());
    v.push("GPL-3.0".to_owned());
    v.push("Apache-2.0".to_owned());
    v.push("BSD-2-Clause".to_owned());
    v.push("custom".to_owned());
    assert(strs(v@) =~= licenses());
    v
}

/// The kinds of packages to choose from.
pub fn kind_choices() -> (r: Vec<String>)
    ensures
        strs(r@) == kinds(),
        r@.len() == 4,
{
    let mut v: Vec<String> = Vec::new();
    v.push("CLI application".to_owned());
    v.push("GUI application".to_owned());
    v.push("Library / tool (no binary)".to_owned());
    v.push("Custom".to_owned());
    assert(strs(v@) =~= kinds());
    v
}

/// The ways to obtain a program to choose from.
pub fn source_choices() -> (r: Vec<String>)
    ensures
        strs(r@) == sources(),
        r@.len() == 3,
{
    let mut v: Vec<String> = Vec::new();
    v.push("Already in contents/ (prebuilt)".to_owned());
    v.push("Download from URL (GitHub Releases etc.)".to_owned());
    v.push("Build from source (cargo / make / cmake)".to_owned());
    assert(strs(v@) =~= sources());
    v
}

/// Whether a package of a kind, by its position among them, has windows.
pub fn kind_is_gui(kind: usize) -> (r: bool)
    ensures
        r == (kind == 1),
{
    kind == 1
}

/// Whether a package of a kind, by its position among them, has a program.
pub fn kind_has_program(kind: usize) -> (r: bool)
    ensures
        r == (kind != 2),
{
    kind != 2
}

/// What was answered to the questions about a new package. Choices are given by
/// their positions.
#[derive(Debug)]
pub struct Answers {
    pub name: String,
    pub version: String,
    pub authors: String,
    pub license: usize,
    pub summary: String,
    pub long: String,
    pub kind: usize,
    /// The name of the program; asked only where there is one.
    pub bin: String,
    /// How the program is obtained; asked only where there is one.
    pub source: usize,
    /// Asked only of a package with windows.
    pub needs_network: bool,
    /// Asked only of a package with windows.
    pub categories: String,
}

/// How a program is obtained, by the choice that is made.
pub open spec fn chosen_build(has_program: bool, source: int) -> NewBuild {
    if !has_program {
        NewBuild::Nothing
    } else if source == 0 {
        NewBuild::Prebuilt
    } else if source == 1 {
        NewBuild::Download
    } else {
        NewBuild::Source
    }
}

/// The package that is asked for. What is asked only of some packages counts for
/// no others.
pub fn new_package(a: Answers) -> (r: NewPackage)
    requires
        a.license < licenses().len(),
    ensures
        r.name == a.name,
        r.version == a.version,
        r.authors == a.authors,
        r.license@ == licenses()[a.license as int],
        r.summary == a.summary,
        r.long == a.long,
        r.bin@ == (if a.kind != 2 {
            a.bin@
        } else {
            ""@
        }),
        r.is_gui == (a.kind == 1),
        r.needs_network == (a.kind == 1 && a.needs_network),
        r.categories@ == (if a.kind == 1 {
            a.categories@
        } else {
            ""@
        }),
        r.build == chosen_build(a.kind != 2, a.source as int),
{
    let licenses = license_choices();
    let license = licenses[a.license].clone();
    assert(strs(licenses@)[a.license as int] == licenses@[a.license as int]@);
    let is_gui = kind_is_gui(a.kind);
    let has_program = kind_has_program(a.kind);
    let build = if !has_program {
        NewBuild::Nothing
    } else if a.source == 0 {
        NewBuild::Prebuilt
    } else if a.source == 1 {
        NewBuild::Download
    } else {
        NewBuild::Source
    };
    NewPackage {
        name: a.name,
        version: a.version,
        authors: a.authors,
        license,
        summary: a.summary,
        long: a.long,
        bin: if has_program {
            a.bin
        } else {
            "".to_owned()
        },
        is_gui,
        needs_network: is_gui && a.needs_network,
        categories: if is_gui {
            a.categories
        } else {
            "".to_owned()
        },
        build,
    }
}

/// The line about the program of a new package.
pub open spec fn bins_line(p: NewPackage) -> Seq<char> {
    if p.bin@.len() == 0 {
        Seq::empty()
    } else if p.build == NewBuild::Prebuilt {
        "-> bins."@ + p.bin@ + " => \"bin/"@ + p.bin@ + "\"\n"@
    } else {
        "-> bins."@ + p.bin@ + " => \"\"\n"@
    }
}

/// The first part of the manifest of a new package.
pub open spec fn metadata_text(p: NewPackage) -> Seq<char> {
    "! "@ + p.name@ + "\n! Generated by hpm create\n\n[metadata]\n-> name    => "@ + p.name@
        + "\n-> version => "@ + p.version@ + "\n-> authors => "@ + p.authors@ + "\n-> license => "@
        + p.license@ + "\n"@ + (if p.is_gui {
        "-> gui     => true\n"@
    } else {
        Seq::empty()
    }) + bins_line(p)
}

/// The part of the manifest of a new package that every package has.
pub open spec fn sections_text(p: NewPackage) -> Seq<char> {
    "\n[description]\n-> summary => "@ + p.summary@ + "\n-> long    => "@ + p.long@
        + "\n\n[sandbox]\n-> network  => "@ + flag_text(p.needs_network) + "\n-> gui      => "@
        + flag_text(p.is_gui)
        + "\n-> full_gui => false\n-> dev      => false\n-> disabled => false\n-> filesystem => {}\n\n[build]\n-> commands => {}\n-> deb_deps => {}\n\n[runtime]\n-> deb_deps => {}\n"@
}

/// The part of the manifest of a new package with windows.
pub open spec fn desktop_text(p: NewPackage) -> Seq<char> {
    if p.is_gui {
        "\n[desktop]\n-> display_name => "@ + capitalised(p.name@) + "\n-> icon         => icons/"@
            + p.name@ + ".svg\n-> categories   => "@ + or_else(p.categories@, "Utility;"@)
            + "\n-> comment      => "@ + p.summary@ + "\n"@
    } else {
        Seq::empty()
    }
}

fn bins_entry(p: &NewPackage) -> (r: String)
    ensures
        r@ == bins_line(*p),
{
    if is_empty_text(p.bin.as_str()) {
        let e = String::new();
        assert(e@ =~= Seq::<char>::empty());
        e
    } else if p.build == NewBuild::Prebuilt {
        cat5("-> bins.", p.bin.as_str(), " => \"bin/", p.bin.as_str(), "\"\n")
    } else {
        cat3("-> bins.", p.bin.as_str(), " => \"\"\n")
    }
}

fn metadata_section(p: &NewPackage) -> (r: String)
    ensures
        r@ == metadata_text(*p),
{
    let mut s = cat5(
        "! ",
        p.name.as_str(),
        "\n! Generated by hpm create\n\n[metadata]\n-> name    => ",
        p.name.as_str(),
        "\n-> version => ",
    );
    s.append(p.version.as_str());
    s.append("\n-> authors => ");
    s.append(p.authors.as_str());
    s.append("\n-> license => ");
    s.append(p.license.as_str());
    s.append("\n");
    if p.is_gui {
        s.append("-> gui     => true\n");
    } else {
        assert(s@ + Seq::<char>::empty() =~= s@);
    }
    let bins = bins_entry(p);
    s.append(bins.as_str());
    s
}

fn other_sections(p: &NewPackage) -> (r: String)
    ensures
        r@ == sections_text(*p),
{
    let mut s = cat5(
        "\n[description]\n-> summary => ",
        p.summary.as_str(),
        "\n-> long    => ",
        p.long.as_str(),
        "\n\n[sandbox]\n-> network  => ",
    );
    s.append(flag_word(p.needs_network));
    s.append("\n-> gui      => ");
    s.append(flag_word(p.is_gui));
    s.append("\n-> full_gui => false\n-> dev      => false\n-> disabled => false\n-> filesystem => {}\n\n[build]\n-> commands => {}\n-> deb_deps => {}\n\n[runtime]\n-> deb_deps => {}\n");
    s
}

fn desktop_section(p: &NewPackage) -> (r: String)
    ensures
        r@ == desktop_text(*p),
{
    if !p.is_gui {
        let e = String::new();
        assert(e@ =~= Seq::<char>::empty());
        return e;
    }
    let display = capitalise(p.name.as_str());
    let mut s = cat5(
        "\n[desktop]\n-> display_name => ",
        display.as_str(),
        "\n-> icon         => icons/",
        p.name.as_str(),
        ".svg\n-> categories   => ",
    );
    if is_empty_text(p.categories.as_str()) {
        s.append("Utility;");
    } else {
        s.append(p.categories.as_str());
    }
    s.append("\n-> comment      => ");
    s.append(p.summary.as_str());
    s.append("\n");
    s
}

/// The manifest of a new package.
pub fn generate_info_hk(p: &NewPackage) -> (r: String)
    ensures
        r@ == metadata_text(*p) + sections_text(*p) + desktop_text(*p),
{
    let a = metadata_section(p);
    let b = other_sections(p);
    let c = desktop_section(p);
    cat3(a.as_str(), b.as_str(), c.as_str())
}

/// The build instructions of a new package.
pub open spec fn build_toml_text(p: NewPackage) -> Seq<char> {
    if p.build == NewBuild::Download {
            "! build.toml for "@ + p.name@
                + "\ntype         = \"download\"\nurl          = \"https://github.com/YOUR_USER/"@
                + p.name@ + "/releases/download/v{version}/"@ + p.name@
                + "-linux-x86_64\"\ninstall_path = \"bin/"@ + p.bin@ + "\"\nruntime_deps = []\n"@
        } else {
            "! build.toml for "@ + p.name@
                + "\ntype         = \"build\"\ncommands     = [\"cargo build --release\"]\noutput       = \"target/release/"@
                + p.bin@ + "\"\ninstall_path = \"bin/"@ + p.bin@
                + "\"\nbuild_deps   = [\"build-essential\"]\nruntime_deps = []\n"@
        }
}

/// The build instructions of a new package whose program is not among its
/// contents.
pub fn generate_build_toml(p: &NewPackage) -> (r: String)
    ensures
        r@ == build_toml_text(*p),
{
    if p.build == NewBuild::Download {
        let mut s = cat5(
            "! build.toml for ",
            p.name.as_str(),
            "\ntype         = \"download\"\nurl          = \"https://github.com/YOUR_USER/",
            p.name.as_str(),
            "/releases/download/v{version}/",
        );
        s.append(p.name.as_str());
        s.append("-linux-x86_64\"\ninstall_path = \"bin/");
        s.append(p.bin.as_str());
        s.append("\"\nruntime_deps = []\n");
        s
    } else {
        let mut s = cat5(
            "! build.toml for ",
            p.name.as_str(),
            "\ntype         = \"build\"\ncommands     = [\"cargo build --release\"]\noutput       = \"target/release/",
            p.bin.as_str(),
            "\"\ninstall_path = \"bin/",
        );
        s.append(p.bin.as_str());
        s.append("\"\nbuild_deps   = [\"build-essential\"]\nruntime_deps = []\n");
        s
    }
}

/// The description that goes with a new package.
pub open spec fn readme_text(p: NewPackage) -> Seq<char> {
    "# "@ + p.name@ + "\n\n"@ + p.summary@
            + "\n\n## Installation\n\n```sh\nsudo hpm install "@ + p.name@
            + "\n```\n\n## Usage\n\n```sh\n"@ + p.name@ + (if p.is_gui {
            " &"@
        } else {
            " --help"@
        }) + "\n```\n\n## Authors\n\n"@ + p.authors@ + "\n\n## License\n\n"@ + p.license@ + "\n"@
}

/// The description that goes with a new package.
pub fn generate_readme(p: &NewPackage) -> (r: String)
    ensures
        r@ == readme_text(*p),
{
    let mut s = cat5(
        "# ",
        p.name.as_str(),
        "\n\n",
        p.summary.as_str(),
        "\n\n## Installation\n\n```sh\nsudo hpm install ",
    );
    s.append(p.name.as_str());
    s.append("\n```\n\n## Usage\n\n```sh\n");
    s.append(p.name.as_str());
    if p.is_gui {
        s.append(" &");
    } else {
        s.append(" --help");
    }
    s.append("\n```\n\n## Authors\n\n");
    s.append(p.authors.as_str());
    s.append("\n\n## License\n\n");
    s.append(p.license.as_str());
    s.append("\n");
    s
}

/// The script that stands for a program.
pub open spec fn program_text(name: Seq<char>) -> Seq<char> {
    "#!/bin/sh\n# "@ + name + " — replace with actual binary\necho 'Hello from "@ + name
            + "!'\n"@
}

/// The script that stands for a program until there is one.
pub fn placeholder_program(name: &str) -> (r: String)
    ensures
        r@ == program_text(name@),
{
    cat5("#!/bin/sh\n# ", name, " — replace with actual binary\necho 'Hello from ", name, "!'\n")
}

/// The letter on the icon of a new package.
pub open spec fn initial(name: Seq<char>) -> char {
    if name.len() == 0 {
        '?'
    } else {
        uppercase(name[0])[0]
    }
}

/// The icon of a new package.
pub open spec fn icon_text(name: Seq<char>) -> Seq<char> {
    "<svg xmlns=\"http://www.w3.org/2000/svg\" viewBox=\"0 0 64 64\">\n  <rect width=\"64\" height=\"64\" rx=\"12\" fill=\"#ff2040\"/>\n  <text x=\"32\" y=\"42\" font-size=\"28\" text-anchor=\"middle\" fill=\"white\" font-family=\"sans-serif\">"@
            + seq![initial(name)] + "</text>\n</svg>"@
}

/// The icon of a new package.
pub fn placeholder_icon(name: &str) -> (r: String)
    ensures
        r@ == icon_text(name@),
{
    let v = to_chars(name);
    let mut s = "<svg xmlns=\"http://www.w3.org/2000/svg\" viewBox=\"0 0 64 64\">\n  <rect width=\"64\" height=\"64\" rx=\"12\" fill=\"#ff2040\"/>\n  <text x=\"32\" y=\"42\" font-size=\"28\" text-anchor=\"middle\" fill=\"white\" font-family=\"sans-serif\">".to_owned();
    let ghost first = s@;
    if v.len() == 0 {
        s.push('?');
    } else {
        let u = to_uppercase(v[0]);
        let w = to_chars(u.as_str());
        s.push(w[0]);
    }
    assert(s@ =~= first + seq![initial(name@)]);
    s.append("</text>\n</svg>");
    s
}

/// The files that are left out of the repository of a new package.
pub open spec fn gitignore_text() -> Seq<char> {
    "target/\n*.o\n*.so\n*.tmp\n.staging-*\n"@
}

/// The files that are left out of the repository of a new package.
pub fn gitignore() -> (r: &'static str)
    ensures
        r@ == gitignore_text(),
{
    "target/\n*.o\n*.so\n*.tmp\n.staging-*\n"
}

/// How the files of the repository of a new package are treated.
pub open spec fn gitattributes_text() -> Seq<char> {
    "contents/bin/* text eol=lf\n"@
}

/// How the files of the repository of a new package are treated.
pub fn gitattributes() -> (r: &'static str)
    ensures
        r@ == gitattributes_text(),
{
    "contents/bin/* text eol=lf\n"
}

/// Whether build instructions are written for a new package.
pub fn needs_build_toml(build: NewBuild) -> (r: bool)
    ensures
        r == (build == NewBuild::Download || build == NewBuild::Source),
{
    build == NewBuild::Download || build == NewBuild::Source
}

/// The checks that run where the repository of a new package is kept.
pub open spec fn workflow_text() -> Seq<char> {
    "name: Validate HPM Package\non:\n  push:\n    branches: [main]\n    tags: ['v*']\n  pull_request:\n    branches: [main]\n\njobs:\n  validate:\n    runs-on: ubuntu-latest\n    steps:\n      - uses: actions/checkout@v4\n\n      - name: Check info.hk exists\n        run: test -f info.hk || (echo \"ERROR: info.hk missing\"; exit 1)\n\n      - name: Check version matches tag\n        if: startsWith(github.ref, 'refs/tags/')\n        run: |\n          TAG=\"${GITHUB_REF_NAME#v}\"\n          HK_VER=$(grep -E '-> version =>' info.hk | head -1 | sed 's/.*=> //' | tr -d ' ')\n          [ \"$TAG\" = \"$HK_VER\" ] || (echo \"ERROR: tag $TAG != info.hk $HK_VER\"; exit 1)\n\n      - name: Check package source exists\n        run: |\n          [ -d contents ] || [ -f build.toml ] || (echo \"ERROR: need contents/ or build.toml\"; exit 1)\n\n      - name: Check binaries are executable\n        run: |\n          for f in contents/bin/*; do\n            [ -f \"$f\" ] && [ ! -x \"$f\" ] && echo \"WARNING: $f not executable (git update-index --chmod=+x $f)\"\n          done\n          exit 0\n"@
}

/// The checks that run where the repository of a new package is kept.
pub fn generate_ci_workflow() -> (r: &'static str)
    ensures
        r@ == workflow_text(),
{
    "name: Validate HPM Package\non:\n  push:\n    branches: [main]\n    tags: ['v*']\n  pull_request:\n    branches: [main]\n\njobs:\n  validate:\n    runs-on: ubuntu-latest\n    steps:\n      - uses: actions/checkout@v4\n\n      - name: Check info.hk exists\n        run: test -f info.hk || (echo \"ERROR: info.hk missing\"; exit 1)\n\n      - name: Check version matches tag\n        if: startsWith(github.ref, 'refs/tags/')\n        run: |\n          TAG=\"${GITHUB_REF_NAME#v}\"\n          HK_VER=$(grep -E '-> version =>' info.hk | head -1 | sed 's/.*=> //' | tr -d ' ')\n          [ \"$TAG\" = \"$HK_VER\" ] || (echo \"ERROR: tag $TAG != info.hk $HK_VER\"; exit 1)\n\n      - name: Check package source exists\n        run: |\n          [ -d contents ] || [ -f build.toml ] || (echo \"ERROR: need contents/ or build.toml\"; exit 1)\n\n      - name: Check binaries are executable\n        run: |\n          for f in contents/bin/*; do\n            [ -f \"$f\" ] && [ ! -x \"$f\" ] && echo \"WARNING: $f not executable (git update-index --chmod=+x $f)\"\n          done\n          exit 0\n"
}

// ---------------------------------------------------------------------------
// The files
// ---------------------------------------------------------------------------

/// A file of a new package.
#[derive(Debug)]
pub struct NewFile {
    /// Its path in the directory of the package.
    pub path: String,
    pub content: String,
    pub executable: bool,
    /// Whether it is left alone where it is there already.
    pub keep: bool,
}

/// A file of a new package, as a mathematical value.
#[verifier::ext_equal]
pub struct FileModel {
    pub path: Seq<char>,
    pub content: Seq<char>,
    pub executable: bool,
    pub keep: bool,
}

impl View for NewFile {
    type V = FileModel;

    open spec fn view(&self) -> FileModel {
        FileModel {
            path: self.path@,
            content: self.content@,
            executable: self.executable,
            keep: self.keep,
        }
    }
}

/// Files as mathematical values.
pub open spec fn file_models(v: Seq<NewFile>) -> Seq<FileModel> {
    v.map_values(|f: NewFile| f@)
}

/// A file that is written whether it is there or not.
pub open spec fn plain_file(path: Seq<char>, content: Seq<char>) -> FileModel {
    FileModel { path, content, executable: false, keep: false }
}

/// A file that is there only under a condition.
pub open spec fn file_if(condition: bool, f: FileModel) -> Seq<FileModel> {
    if condition {
        seq![f]
    } else {
        Seq::empty()
    }
}

/// The files of a new package.
pub open spec fn files_of(p: NewPackage) -> Seq<FileModel> {
    file_if(
        p.build == NewBuild::Prebuilt && p.bin@.len() > 0,
        FileModel {
            path: "contents/bin/"@ + p.bin@,
            content: program_text(p.name@),
            executable: true,
            keep: true,
        },
    ) + file_if(
        p.build != NewBuild::Nothing && p.is_gui,
        FileModel {
            path: "contents/icons/"@ + p.name@ + ".svg"@,
            content: icon_text(p.name@),
            executable: false,
            keep: true,
        },
    ) + seq![plain_file("info.hk"@, metadata_text(p) + sections_text(p) + desktop_text(p))] + file_if(
        p.build == NewBuild::Download || p.build == NewBuild::Source,
        plain_file("build.toml"@, build_toml_text(p)),
    ) + seq![
        plain_file("README.md"@, readme_text(p)),
        plain_file(".gitignore"@, gitignore_text()),
    ] + file_if(
        p.build != NewBuild::Nothing && p.bin@.len() > 0,
        plain_file(".gitattributes"@, gitattributes_text()),
    ) + seq![plain_file(".github/workflows/hpm-validate.yml"@, workflow_text())]
}

fn push_file(out: &mut Vec<NewFile>, path: &str, content: String)
    ensures
        file_models(final(out)@) == file_models(old(out)@) + seq![plain_file(path@, content@)],
{
    let ghost before = out@;
    let f = NewFile { path: path.to_owned(), content, executable: false, keep: false };
    out.push(f);
    assert(file_models(out@) =~= file_models(before) + seq![f@]);
}

fn push_kept_file(out: &mut Vec<NewFile>, path: String, content: String, executable: bool)
    ensures
        file_models(final(out)@) == file_models(old(out)@) + seq![
            (FileModel { path: path@, content: content@, executable, keep: true }),
        ],
{
    let ghost before = out@;
    let f = NewFile { path, content, executable, keep: true };
    out.push(f);
    assert(file_models(out@) =~= file_models(before) + seq![f@]);
}

/// The files of a new package, in the order in which they are written.
pub fn package_files(p: &NewPackage) -> (r: Vec<NewFile>)
    ensures
        file_models(r@) == files_of(*p),
{
    let mut out: Vec<NewFile> = Vec::new();
    let has_program = p.build != NewBuild::Nothing;
    let has_name = !is_empty_text(p.bin.as_str());
    if p.build == NewBuild::Prebuilt && has_name {
        let path = cat("contents/bin/", p.bin.as_str());
        push_kept_file(&mut out, path, placeholder_program(p.name.as_str()), true);
    }
    if has_program && p.is_gui {
        let path = cat3("contents/icons/", p.name.as_str(), ".svg");
        push_kept_file(&mut out, path, placeholder_icon(p.name.as_str()), false);
    }
    push_file(&mut out, "info.hk", generate_info_hk(p));
    if needs_build_toml(p.build) {
        push_file(&mut out, "build.toml", generate_build_toml(p));
    }
    push_file(&mut out, "README.md", generate_readme(p));
    push_file(&mut out, ".gitignore", gitignore().to_owned());
    if has_program && has_name {
        push_file(&mut out, ".gitattributes", gitattributes().to_owned());
    }
    push_file(&mut out, ".github/workflows/hpm-validate.yml", generate_ci_workflow().to_owned());
    assert(file_models(out@) =~= files_of(*p));
    out
}

// ---------------------------------------------------------------------------
// Laws
// ---------------------------------------------------------------------------

/// A name can be given to a package exactly where it is made of letters, digits, hyphens
/// and underscores and begins with a letter or a digit.
pub proof fn which_names_can_be_given(name: Seq<char>)
    ensures
        name_problem(name) is None <==> name.len() > 0 && name[0] != '-' && name[0] != '_' && forall|i: int|
            0 <= i < name.len() ==> {
                let c = #[trigger] name[i];
                ('a' <= c && c <= 'z') || ('A' <= c && c <= 'Z') || ('0' <= c && c <= '9') || c == '-' || c == '_'
            },
{
    reveal_strlit("-");
    reveal_strlit("_");
    if name.len() > 0 {
        assert(name.take(1)[0] == name[0]);
        if name[0] == '-' {
            assert(name.take(1) =~= "-"@);
        }
        if name[0] == '_' {
            assert(name.take(1) =~= "_"@);
        }
    }
}

/// A new package gets a manifest, a description, the checks and the list of what is left
/// out; build instructions exactly where its program is downloaded or built; and a script
/// in place of its program exactly where that is among its contents.
pub proof fn what_a_new_package_gets(p: NewPackage, i: int)
    requires
        0 <= i < files_of(p).len(),
    ensures
        ({
            let s = files_of(p);
            &&& exists|j: int| 0 <= j < s.len() && (#[trigger] s[j]).path == "info.hk"@
            &&& exists|j: int| 0 <= j < s.len() && (#[trigger] s[j]).path == "README.md"@
            &&& exists|j: int| 0 <= j < s.len() && (#[trigger] s[j]).path == ".gitignore"@
            &&& p.build == NewBuild::Download || p.build == NewBuild::Source ==> exists|j: int|
                0 <= j < s.len() && (#[trigger] s[j]).path == "build.toml"@ && s[j].content == build_toml_text(p)
            &&& s[i].executable ==> p.build == NewBuild::Prebuilt && s[i].path == "contents/bin/"@ + p.bin@
            &&& s[i].keep ==> s[i].path == "contents/bin/"@ + p.bin@ || s[i].path == "contents/icons/"@ + p.name@
                + ".svg"@
            &&& !s[i].keep ==> !s[i].executable
            &&& p.build == NewBuild::Prebuilt && p.bin@.len() > 0 ==> s[0].executable && s[0].keep && s[0].path
                == "contents/bin/"@ + p.bin@
        }),
{
    let s = files_of(p);
    let a = file_if(
        p.build == NewBuild::Prebuilt && p.bin@.len() > 0,
        FileModel {
            path: "contents/bin/"@ + p.bin@,
            content: program_text(p.name@),
            executable: true,
            keep: true,
        },
    );
    let b = file_if(
        p.build != NewBuild::Nothing && p.is_gui,
        FileModel {
            path: "contents/icons/"@ + p.name@ + ".svg"@,
            content: icon_text(p.name@),
            executable: false,
            keep: true,
        },
    );
    let d = file_if(
        p.build == NewBuild::Download || p.build == NewBuild::Source,
        plain_file("build.toml"@, build_toml_text(p)),
    );
    let k: int = (a.len() + b.len()) as int;
    assert(s[k].path == "info.hk"@);
    if d.len() > 0 {
        assert(s[k + 1].path == "build.toml"@ && s[k + 1].content == build_toml_text(p));
    }
    let l: int = k + 1 + d.len();
    assert(s[l].path == "README.md"@);
    assert(s[l + 1].path == ".gitignore"@);
    if a.len() > 0 {
        assert(s[0] == a[0]);
    }
    if i < a.len() {
        assert(s[i] == a[i]);
    } else if i < k {
        assert(s[i] == b[i - a.len()]);
    } else {
        assert(!s[i].executable && !s[i].keep);
    }
}

/// How a program is obtained is what was chosen; a package without a program obtains none.
pub proof fn choice_decides_the_build(source: int)
    ensures
        chosen_build(false, source) == NewBuild::Nothing,
        chosen_build(true, 0) == NewBuild::Prebuilt,
        chosen_build(true, 1) == NewBuild::Download,
        chosen_build(true, 2) == NewBuild::Source,
{
}

} // verus!
