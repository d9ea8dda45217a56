//! How programs appear on the desktop.
use vstd::prelude::*;
use vstd::seq_lib::{lemma_seq_concat_contains_all_elements, lemma_seq_contains_after_push};

use crate::commands::placing::{bin_name_for_pkg, file_name, main_bin, name_is_behind_the_last_slash};
use crate::manifest::Manifest;
use crate::paths::{join, joined};
use crate::pattern::{has_prefix, occurs, starts_with, stripping_goes_on, strip_prefixes, trim_start_text};
use crate::text::{cat, cat3, cat5, is_empty_text, is_white, join_strings, join_with, lines, push_text, run, run_bounds, same, split_by, split_class, split_extends, split_lines, split_words, strs, substring, to_chars, what_is_white, words, words_are_between_white, CharClass};

verus! {

// ---------------------------------------------------------------------------
// Names
// ---------------------------------------------------------------------------

/// The text of a character in upper case, as `char::to_uppercase` gives it.
pub uninterp spec fn uppercase(c: char) -> Seq<char>;

/// `char::to_uppercase`: the character in upper case, which is one character or
/// more; a function of the character alone.
#[verifier::external_body]
pub(crate) fn to_uppercase(c: char) -> (r: String)
    ensures
        r@ == uppercase(c),
        r@.len() >= 1,
{
    c.to_uppercase().to_string()
}

/// A name with its first character in upper case.
pub open spec fn capitalised(name: Seq<char>) -> Seq<char> {
    if name.len() == 0 {
        name
    } else {
        uppercase(name[0]) + name.skip(1)
    }
}

/// A name with its first character in upper case.
pub fn capitalise(name: &str) -> (r: String)
    ensures
        r@ == capitalised(name@),
        name@.len() > 0 ==> r@ == uppercase(name@[0]) + name@.skip(1),
        name@.len() == 0 ==> r@ == name@,
{
    let v = to_chars(name);
    if v.len() == 0 {
        return name.to_owned();
    }
    let first = to_uppercase(v[0]);
    let rest = substring(&v, 1, v.len());
    assert(rest@ =~= name@.skip(1));
    cat(first.as_str(), rest.as_str())
}

/// The one text, or another where it is empty.
pub open spec fn or_else(s: Seq<char>, other: Seq<char>) -> Seq<char> {
    if s.len() == 0 {
        other
    } else {
        s
    }
}

fn text_or(s: &str, other: &str) -> (r: String)
    ensures
        r@ == or_else(s@, other@),
{
    if is_empty_text(s) {
        other.to_owned()
    } else {
        s.to_owned()
    }
}

// ---------------------------------------------------------------------------
// Entries
// ---------------------------------------------------------------------------

/// The command that starts a program of a package.
pub open spec fn start_command(exe: Seq<char>, pkg: Seq<char>, bin: Seq<char>) -> Seq<char> {
    exe + " run "@ + pkg + " "@ + bin
}

/// A line with a key and its value, if the value is not empty.
pub open spec fn line_unless_empty(key: Seq<char>, value: Seq<char>) -> Seq<char> {
    if value.len() == 0 {
        Seq::empty()
    } else {
        key + value + "\n"@
    }
}

/// The desktop entry of a package that brings none.
pub open spec fn entry_text(manifest: Manifest, pkg: Seq<char>, exe: Seq<char>, icon: Seq<char>) -> Seq<char> {
    let d = manifest.desktop;
    "[Desktop Entry]\nType=Application\nName="@ + or_else(d.display_name@, capitalised(pkg))
        + "\nComment="@ + or_else(d.comment@, manifest.summary@) + "\nExec="@ + start_command(
        exe,
        pkg,
        main_bin(strs(manifest.bins@), pkg),
    ) + " %F\nCategories="@ + or_else(d.categories@, "Utility;"@) + "\nTerminal="@ + (if manifest.is_gui {
        "false"@
    } else {
        "true"@
    }) + "\n"@ + line_unless_empty("Icon="@, icon) + (if d.nodisplay {
        "NoDisplay=true\n"@
    } else {
        Seq::empty()
    }) + line_unless_empty("MimeType="@, d.mime_types@) + line_unless_empty("Keywords="@, d.keywords@)
}

fn append_unless_empty(out: &mut String, key: &str, value: &str)
    ensures
        final(out)@ == old(out)@ + line_unless_empty(key@, value@),
{
    if is_empty_text(value) {
        assert(out@ + Seq::<char>::empty() =~= out@);
    } else {
        let line = cat3(key, value, "\n");
        out.append(line.as_str());
    }
}

fn command_text(exe: &str, pkg: &str, bin: &str) -> (r: String)
    ensures
        r@ == start_command(exe@, pkg@, bin@),
{
    cat5(exe, " run ", pkg, " ", bin)
}

/// The desktop entry of a package that brings none. `icon` is the name of its
/// icon, or empty.
pub fn desktop_entry(manifest: &Manifest, pkg_name: &str, exe: &str, icon: &str) -> (r: String)
    ensures
        r@ == entry_text(*manifest, pkg_name@, exe@, icon@),
{
    let capital = capitalise(pkg_name);
    let name = text_or(manifest.desktop.display_name.as_str(), capital.as_str());
    let comment = text_or(manifest.desktop.comment.as_str(), manifest.summary.as_str());
    let categories = text_or(manifest.desktop.categories.as_str(), "Utility;");
    let bin = bin_name_for_pkg(manifest, pkg_name);
    let command = command_text(exe, pkg_name, bin.as_str());
    let mut s = cat5(
        "[Desktop Entry]\nType=Application\nName=",
        name.as_str(),
        "\nComment=",
        comment.as_str(),
        "\nExec=",
    );
    s.append(command.as_str());
    s.append(" %F\nCategories=");
    s.append(categories.as_str());
    s.append("\nTerminal=");
    if manifest.is_gui {
        s.append("false");
    } else {
        s.append("true");
    }
    s.append("\n");
    append_unless_empty(&mut s, "Icon=", icon);
    if manifest.desktop.nodisplay {
        s.append("NoDisplay=true\n");
    } else {
        assert(s@ + Seq::<char>::empty() =~= s@);
    }
    append_unless_empty(&mut s, "MimeType=", manifest.desktop.mime_types.as_str());
    append_unless_empty(&mut s, "Keywords=", manifest.desktop.keywords.as_str());
    s
}

/// The words that stand for what a program is started with.
pub open spec fn field_codes(w: Seq<Seq<char>>) -> Seq<Seq<char>>
    decreases w.len(),
{
    if w.len() == 0 {
        Seq::empty()
    } else {
        let rest = field_codes(w.drop_last());
        if has_prefix(w.last(), "%"@) {
            rest + seq![w.last()]
        } else {
            rest
        }
    }
}

/// The words behind the first.
pub open spec fn behind_first(w: Seq<Seq<char>>) -> Seq<Seq<char>> {
    if w.len() == 0 {
        w
    } else {
        w.skip(1)
    }
}

/// A line of a desktop entry, with the command in it put in the place of the
/// one that is there. What stands for files and addresses stays.
pub open spec fn patched_line(line: Seq<char>, command: Seq<char>) -> Seq<char> {
    if has_prefix(line, "Exec="@) {
        let codes = field_codes(behind_first(words(strip_prefixes(line, "Exec="@))));
        let suffix = join_with(codes, " "@);
        if suffix.len() == 0 {
            "Exec="@ + command
        } else {
            "Exec="@ + command + " "@ + suffix
        }
    } else {
        line
    }
}

/// Lines of a desktop entry with another command.
pub open spec fn patched_lines(all: Seq<Seq<char>>, command: Seq<char>) -> Seq<Seq<char>> {
    all.map_values(|l: Seq<char>| patched_line(l, command))
}

/// A desktop entry with another command.
pub open spec fn patched(content: Seq<char>, command: Seq<char>) -> Seq<char> {
    join_with(patched_lines(lines(content), command), "\n"@) + "\n"@
}

fn codes_of(w: &Vec<String>) -> (r: Vec<String>)
    ensures
        strs(r@) == field_codes(behind_first(strs(w@))),
{
    let mut out: Vec<String> = Vec::new();
    let ghost all = behind_first(strs(w@));
    assert(all.take(0) =~= Seq::<Seq<char>>::empty());
    assert(strs(out@) =~= Seq::<Seq<char>>::empty());
    if w.len() == 0 {
        return out;
    }
    let mut i: usize = 1;
    while i < w.len()
        invariant
            1 <= i <= w@.len(),
            all == strs(w@).skip(1),
            strs(out@) == field_codes(all.take(i - 1)),
        decreases w@.len() - i,
    {
        proof {
            let longer = all.take(i as int);
            assert(longer.drop_last() =~= all.take(i - 1));
            assert(longer.last() == w@[i as int]@);
        }
        if starts_with(w[i].as_str(), "%") {
            push_text(&mut out, w[i].clone());
        }
        i = i + 1;
    }
    assert(all.take(all.len() as int) =~= all);
    out
}

fn patch_line(line: &str, command: &str) -> (r: String)
    ensures
        r@ == patched_line(line@, command@),
{
    if starts_with(line, "Exec=") {
        proof {
            reveal_strlit("Exec=");
        }
        let rest = trim_start_text(line, "Exec=");
        let w = split_words(rest.as_str());
        let codes = codes_of(&w);
        let suffix = join_strings(&codes, " ");
        if is_empty_text(suffix.as_str()) {
            cat("Exec=", command)
        } else {
            let mut s = cat3("Exec=", command, " ");
            s.append(suffix.as_str());
            s
        }
    } else {
        line.to_owned()
    }
}

/// Puts the command that starts the package's program into a desktop entry that
/// the package brings.
pub fn patch_desktop_exec(content: &str, exe: &str, pkg_name: &str, manifest: &Manifest) -> (r: String)
    ensures
        r@ == patched(
            content@,
            start_command(exe@, pkg_name@, main_bin(strs(manifest.bins@), pkg_name@)),
        ),
{
    let bin = bin_name_for_pkg(manifest, pkg_name);
    let command = command_text(exe, pkg_name, bin.as_str());
    let all = split_lines(content);
    let mut out: Vec<String> = Vec::new();
    let mut i: usize = 0;
    let ghost want = patched_lines(lines(content@), command@);
    assert(strs(out@) =~= want.take(0));
    while i < all.len()
        invariant
            i <= all@.len(),
            strs(all@) == lines(content@),
            want == patched_lines(lines(content@), command@),
            strs(out@) == want.take(i as int),
        decreases all@.len() - i,
    {
        let line = patch_line(all[i].as_str(), command.as_str());
        proof {
            assert(strs(all@)[i as int] == all@[i as int]@);
            assert(want[i as int] == line@);
            assert(want.take(i + 1) =~= want.take(i as int) + seq![line@]);
        }
        push_text(&mut out, line);
        i = i + 1;
    }
    assert(want.take(want.len() as int) =~= want);
    let body = join_strings(&out, "\n");
    cat(body.as_str(), "\n")
}

/// Where a desktop entry comes from.
#[derive(Debug)]
pub enum EntrySource {
    /// From a file of the package.
    File(String),
    /// It is written.
    Written,
}

// ---------------------------------------------------------------------------
// Files
// ---------------------------------------------------------------------------

/// The extension of a file name: what is behind its last dot, unless the only
/// dot is at its start.
pub open spec fn extension(path: Seq<char>) -> Option<Seq<char>> {
    let parts = split_by(file_name(path), CharClass::Is('.'));
    if parts.len() < 2 || (parts.len() == 2 && parts[0].len() == 0) || file_name(path) == ".."@ {
        None
    } else {
        Some(parts.last())
    }
}

fn extension_of(path: &str) -> (r: Option<String>)
    ensures
        match r {
            Some(e) => extension(path@) == Some(e@),
            None => extension(path@) is None,
        },
{
    let parts = split_class(path, CharClass::Is('/'));
    assert(strs(parts@).len() == parts@.len());
    assert(strs(parts@).last() == parts@.last()@);
    let name = parts[parts.len() - 1].as_str();
    let pieces = split_class(name, CharClass::Is('.'));
    assert(strs(pieces@).len() == pieces@.len());
    assert(strs(pieces@)[0] == pieces@[0]@);
    assert(strs(pieces@).last() == pieces@.last()@);
    if pieces.len() < 2 || (pieces.len() == 2 && is_empty_text(pieces[0].as_str())) || same(name, "..") {
        None
    } else {
        Some(pieces[pieces.len() - 1].clone())
    }
}

/// The first of the files that has an extension.
pub open spec fn first_with_extension(files: Seq<Seq<char>>, ext: Seq<char>) -> Option<Seq<char>>
    decreases files.len(),
{
    if files.len() == 0 {
        None
    } else if extension(files[0]) == Some(ext) {
        Some(files[0])
    } else {
        first_with_extension(files.drop_first(), ext)
    }
}

/// The first of the files of a package that has an extension.
pub fn find_file_by_ext(files: &Vec<String>, ext: &str) -> (r: Option<String>)
    ensures
        match r {
            Some(p) => first_with_extension(strs(files@), ext@) == Some(p@),
            None => first_with_extension(strs(files@), ext@) is None,
        },
{
    let mut i: usize = 0;
    let ghost all = strs(files@);
    assert(all.skip(0) =~= all);
    while i < files.len()
        invariant
            i <= files@.len(),
            all == strs(files@),
            first_with_extension(all, ext@) == first_with_extension(all.skip(i as int), ext@),
        decreases files@.len() - i,
    {
        assert(all.skip(i as int)[0] == files@[i as int]@);
        assert(all.skip(i as int).drop_first() =~= all.skip(i + 1));
        match extension_of(files[i].as_str()) {
            Some(e) => {
                if same(e.as_str(), ext) {
                    return Some(files[i].clone());
                }
            },
            None => {},
        }
        i = i + 1;
    }
    None
}

/// Where the desktop entry of a package comes from: the file that its manifest
/// names, if there is one; else the first file that is one; else it is written.
pub fn entry_source(manifest: &Manifest, named_exists: bool, files: &Vec<String>) -> (r: EntrySource)
    ensures
        match r {
            EntrySource::File(p) => if manifest.desktop.desktop_file@.len() > 0 && named_exists {
                p@ == manifest.desktop.desktop_file@
            } else {
                first_with_extension(strs(files@), "desktop"@) == Some(p@)
            },
            EntrySource::Written => !(manifest.desktop.desktop_file@.len() > 0 && named_exists)
                && first_with_extension(strs(files@), "desktop"@) is None,
        },
{
    if !is_empty_text(manifest.desktop.desktop_file.as_str()) && named_exists {
        return EntrySource::File(manifest.desktop.desktop_file.clone());
    }
    match find_file_by_ext(files, "desktop") {
        Some(p) => EntrySource::File(p),
        None => EntrySource::Written,
    }
}

// ---------------------------------------------------------------------------
// Icons
// ---------------------------------------------------------------------------

/// The places where the icon of a package is looked for first.
pub open spec fn icon_places(pkg: Seq<char>) -> Seq<Seq<char>> {
    seq!["icons/"@ + pkg + ".png"@, "icons/"@ + pkg + ".svg"@, pkg + ".png"@]
}

/// The places where the icon of a package is looked for first.
pub fn icon_candidates(pkg_name: &str) -> (r: Vec<String>)
    ensures
        strs(r@) == icon_places(pkg_name@),
        r@.len() == 3,
{
    let mut v: Vec<String> = Vec::new();
    v.push(cat3("icons/", pkg_name, ".png"));
    v.push(cat3("icons/", pkg_name, ".svg"));
    v.push(cat(pkg_name, ".png"));
    assert(strs(v@) =~= icon_places(pkg_name@));
    v
}

/// The icon of a package: the one that its manifest names, if it is there; where
/// none is named, one of the places, or else the first `png` or `svg` file.
pub open spec fn icon_place(
    named: Seq<char>,
    named_exists: bool,
    pkg: Seq<char>,
    present: (bool, bool, bool),
    files: Seq<Seq<char>>,
) -> Option<Seq<char>> {
    if named.len() > 0 {
        if named_exists {
            Some(named)
        } else {
            None
        }
    } else if present.0 {
        Some(icon_places(pkg)[0])
    } else if present.1 {
        Some(icon_places(pkg)[1])
    } else if present.2 {
        Some(icon_places(pkg)[2])
    } else {
        match first_with_extension(files, "png"@) {
            Some(p) => Some(p),
            None => first_with_extension(files, "svg"@),
        }
    }
}

/// Finds the icon of a package. `present` tells which of the places where it is
/// looked for first are there.
pub fn icon_source(
    manifest: &Manifest,
    named_exists: bool,
    pkg_name: &str,
    present: (bool, bool, bool),
    files: &Vec<String>,
) -> (r: Option<String>)
    ensures
        match r {
            Some(p) => icon_place(
                manifest.desktop.icon@,
                named_exists,
                pkg_name@,
                present,
                strs(files@),
            ) == Some(p@),
            None => icon_place(
                manifest.desktop.icon@,
                named_exists,
                pkg_name@,
                present,
                strs(files@),
            ) is None,
        },
{
    if !is_empty_text(manifest.desktop.icon.as_str()) {
        if named_exists {
            return Some(manifest.desktop.icon.clone());
        }
        return None;
    }
    let places = icon_candidates(pkg_name);
    proof {
        assert(strs(places@)[0] == places@[0]@);
        assert(strs(places@)[1] == places@[1]@);
        assert(strs(places@)[2] == places@[2]@);
    }
    if present.0 {
        return Some(places[0].clone());
    }
    if present.1 {
        return Some(places[1].clone());
    }
    if present.2 {
        return Some(places[2].clone());
    }
    match find_file_by_ext(files, "png") {
        Some(p) => Some(p),
        None => find_file_by_ext(files, "svg"),
    }
}

/// The extension of an icon's file; `png` where it has none.
pub open spec fn icon_extension(path: Seq<char>) -> Seq<char> {
    match extension(path) {
        Some(e) => e,
        None => "png"@,
    }
}

/// Where the icon of a package goes: `svg` files among those that scale, others
/// among those of one size and among the pictures that have no theme.
pub fn icon_targets(source: &str, pkg_name: &str, icon_dir: &str, pixmap_dir: &str) -> (r: Vec<String>)
    ensures
        strs(r@) == (if icon_extension(source@) == "svg"@ {
            seq![joined(joined(icon_dir@, "scalable/apps"@), pkg_name@ + ".svg"@)]
        } else {
            seq![
                joined(
                    joined(icon_dir@, "256x256/apps"@),
                    pkg_name@ + "."@ + icon_extension(source@),
                ),
                joined(pixmap_dir@, pkg_name@ + "."@ + icon_extension(source@)),
            ]
        }),
{
    let ext = match extension_of(source) {
        Some(e) => e,
        None => "png".to_owned(),
    };
    let mut v: Vec<String> = Vec::new();
    if same(ext.as_str(), "svg") {
        let dir = join(icon_dir, "scalable/apps");
        let name = cat(pkg_name, ".svg");
        v.push(join(dir.as_str(), name.as_str()));
        assert(strs(v@) =~= seq![joined(joined(icon_dir@, "scalable/apps"@), pkg_name@ + ".svg"@)]);
    } else {
        let dir = join(icon_dir, "256x256/apps");
        let name = cat3(pkg_name, ".", ext.as_str());
        v.push(join(dir.as_str(), name.as_str()));
        v.push(join(pixmap_dir, name.as_str()));
        assert(strs(v@) =~= seq![
            joined(joined(icon_dir@, "256x256/apps"@), pkg_name@ + "."@ + icon_extension(source@)),
            joined(pixmap_dir@, pkg_name@ + "."@ + icon_extension(source@)),
        ]);
    }
    v
}

// ---------------------------------------------------------------------------
// Laws
// ---------------------------------------------------------------------------

/// The words that stand for what a program is started with are those that begin with a
/// percent sign, in their order.
pub proof fn codes_begin_with_percent(a: Seq<Seq<char>>, b: Seq<Seq<char>>, w: Seq<char>)
    ensures
        field_codes(a + b) == field_codes(a) + field_codes(b),
        field_codes(a).contains(w) <==> a.contains(w) && w.len() > 0 && w[0] == '%',
    decreases a.len() + b.len(),
{
    reveal_strlit("%");
    if b.len() > 0 {
        codes_begin_with_percent(a, b.drop_last(), w);
        assert((a + b).drop_last() =~= a + b.drop_last());
        assert((a + b).last() == b.last());
        assert(field_codes(a + b) =~= field_codes(a) + field_codes(b));
    } else {
        assert(a + b =~= a);
        assert(field_codes(a + b) =~= field_codes(a) + field_codes(b));
        if a.len() > 0 {
            let t = a.drop_last();
            let last = a.last();
            codes_begin_with_percent(t, b, w);
            assert(a =~= t.push(last));
            lemma_seq_contains_after_push(t, last, w);
            lemma_seq_concat_contains_all_elements(field_codes(t), seq![last], w);
            assert(seq![last][0] == last);
            if last.len() > 0 {
                assert(last.take(1)[0] == last[0]);
                if last[0] == '%' {
                    assert(last.take(1) =~= "%"@);
                }
            }
        }
    }
}

/// Of an entry that a package brings only the lines with commands change: each starts the
/// program by way of the package, with the same words for what it is started with.
pub proof fn only_commands_are_patched(all: Seq<Seq<char>>, command: Seq<char>, i: int, program: Seq<char>, args: Seq<char>)
    requires
        0 <= i < all.len(),
    ensures
        patched_lines(all, command).len() == all.len(),
        !has_prefix(all[i], "Exec="@) ==> patched_lines(all, command)[i] == all[i],
        all[i] == "Exec="@ + (program.push(' ') + args) && program.len() > 0 && (forall|j: int|
            0 <= j < program.len() ==> !is_white(#[trigger] program[j])) && !has_prefix(program.push(' ') + args, "Exec="@)
            && field_codes(words(args)).len() == 0 ==> patched_lines(all, command)[i] == "Exec="@ + command,
        all[i] == "Exec="@ + (program.push(' ') + args) && program.len() > 0 && (forall|j: int|
            0 <= j < program.len() ==> !is_white(#[trigger] program[j])) && !has_prefix(program.push(' ') + args, "Exec="@)
            && field_codes(words(args)).len() > 0 ==> patched_lines(all, command)[i] == "Exec="@ + command + " "@
            + join_with(field_codes(words(args)), " "@),
{
    let rest = program.push(' ') + args;
    let line = "Exec="@ + rest;
    if all[i] == line && program.len() > 0 && (forall|j: int|
        0 <= j < program.len() ==> !is_white(#[trigger] program[j])) && !has_prefix(rest, "Exec="@) {
        reveal_strlit("Exec=");
        assert(line.take(5) =~= "Exec="@);
        stripping_goes_on(rest, "Exec="@);
        what_is_white(' ');
        words_are_between_white(program, ' ', args);
        let w = words(rest);
        assert(w == seq![program] + words(args));
        assert(w.skip(1) =~= words(args));
        let codes = field_codes(words(args));
        if codes.len() > 0 {
            let c = codes[0];
            assert(codes.contains(c));
            codes_begin_with_percent(words(args), Seq::empty(), c);
            joined_is_long(codes, " "@);
        }
    }
}

proof fn joined_is_long(s: Seq<Seq<char>>, sep: Seq<char>)
    requires
        s.len() > 0,
        s[0].len() > 0,
    ensures
        join_with(s, sep).len() > 0,
    decreases s.len(),
{
    if s.len() > 1 {
        assert(s.drop_last()[0] == s[0]);
        joined_is_long(s.drop_last(), sep);
    }
}

/// The extension of a file is what stands behind the last dot of its name.
pub proof fn extension_is_behind_the_last_dot(dir: Seq<char>, stem: Seq<char>, ext: Seq<char>)
    requires
        stem.len() > 0,
        !stem.contains('/'),
        ext.len() > 0,
        !ext.contains('/'),
        !ext.contains('.'),
    ensures
        extension(dir + "/"@ + (stem.push('.') + ext)) == Some(ext),
        extension(stem.push('.') + ext) == Some(ext),
{
    let name = stem.push('.') + ext;
    assert forall|c: char| #[trigger] name.contains(c) implies c != '/' by {
        let i = choose|i: int| 0 <= i < name.len() && name[i] == c;
        if i < stem.len() {
            assert(stem.contains(stem[i]));
        } else if i > stem.len() {
            assert(ext.contains(ext[i - stem.len() - 1]));
        }
    }
    assert(!name.contains('/'));
    name_is_behind_the_last_slash(dir, name);
    let k = CharClass::Is('.');
    assert forall|i: int| 0 <= i < ext.len() implies !k.has(#[trigger] ext[i]) by {
        assert(ext.contains(ext[i]));
    }
    split_extends(stem, '.', ext, k);
    let parts = split_by(name, k);
    assert(parts == split_by(stem, k).push(ext));
    run_bounds(stem, k, false);
    if parts.len() == 2 {
        assert(split_by(stem, k).len() == 1);
        if run(stem, k, false) < stem.len() {
            split_is_not_empty(stem.skip(run(stem, k, false) + 1), k);
        }
        assert(parts[0] == stem);
    }
    split_is_not_empty(stem, k);
    reveal_strlit("..");
    if name == ".."@ {
        assert(name.last() == '.');
        assert(ext.last() == '.');
        assert(ext.contains(ext[ext.len() - 1]));
    }
}

proof fn split_is_not_empty(s: Seq<char>, k: CharClass)
    ensures
        split_by(s, k).len() >= 1,
{
}

/// Of the files of a package the first with an extension is found; there is none exactly
/// where no file has it.
pub proof fn first_file_with_its_extension(files: Seq<Seq<char>>, ext: Seq<char>)
    ensures
        match first_with_extension(files, ext) {
            Some(p) => exists|i: int|
                0 <= i < files.len() && #[trigger] files[i] == p && extension(p) == Some(ext) && forall|j: int|
                    0 <= j < i ==> extension(#[trigger] files[j]) != Some(ext),
            None => forall|j: int| 0 <= j < files.len() ==> extension(#[trigger] files[j]) != Some(ext),
        },
    decreases files.len(),
{
    if files.len() > 0 {
        let t = files.drop_first();
        if extension(files[0]) == Some(ext) {
            assert(files[0] == files[0]);
        } else {
            first_file_with_its_extension(t, ext);
            match first_with_extension(t, ext) {
                Some(p) => {
                    let i = choose|i: int|
                        0 <= i < t.len() && #[trigger] t[i] == p && extension(p) == Some(ext) && forall|j: int|
                            0 <= j < i ==> extension(#[trigger] t[j]) != Some(ext);
                    assert(files[i + 1] == p);
                    assert forall|j: int| 0 <= j < i + 1 implies extension(#[trigger] files[j]) != Some(ext) by {
                        if j > 0 {
                            assert(t[j - 1] == files[j]);
                        }
                    }
                },
                None => {
                    assert forall|j: int| 0 <= j < files.len() implies extension(#[trigger] files[j])
                        != Some(ext) by {
                        if j > 0 {
                            assert(t[j - 1] == files[j]);
                        }
                    }
                },
            }
        }
    }
}

/// The icon is the one that the manifest names or none; where it names none, one that
/// stands in the usual places, and else a `png` file, and else an `svg` file.
pub proof fn where_the_icon_comes_from(named: Seq<char>, pkg: Seq<char>, files: Seq<Seq<char>>, b: bool, c: bool)
    ensures
        named.len() > 0 ==> icon_place(named, true, pkg, (b, c, c), files) == Some(named) && icon_place(
            named,
            false,
            pkg,
            (b, c, c),
            files,
        ) is None,
        icon_place(Seq::empty(), b, pkg, (true, b, c), files) == Some("icons/"@ + pkg + ".png"@),
        icon_place(Seq::empty(), b, pkg, (false, true, c), files) == Some("icons/"@ + pkg + ".svg"@),
        icon_place(Seq::empty(), b, pkg, (false, false, true), files) == Some(pkg + ".png"@),
        first_with_extension(files, "png"@) is Some ==> icon_place(
            Seq::empty(),
            b,
            pkg,
            (false, false, false),
            files,
        ) == first_with_extension(files, "png"@),
        first_with_extension(files, "png"@) is None ==> icon_place(
            Seq::empty(),
            b,
            pkg,
            (false, false, false),
            files,
        ) == first_with_extension(files, "svg"@),
{
}

/// The desktop entry starts the program by way of the package, under the name, with the
/// comment and in the categories that the manifest gives; without these the name is that of
/// the package, the comment its summary and the category that of utilities. Only a program
/// without a window gets a terminal.
pub proof fn entry_says_what_the_manifest_says(m: Manifest, pkg: Seq<char>, exe: Seq<char>, icon: Seq<char>)
    requires
        m.bins@.len() > 0,
    ensures
        ({
            let name = if m.desktop.display_name@.len() > 0 {
                m.desktop.display_name@
            } else {
                capitalised(pkg)
            };
            let comment = if m.desktop.comment@.len() > 0 {
                m.desktop.comment@
            } else {
                m.summary@
            };
            let categories = if m.desktop.categories@.len() > 0 {
                m.desktop.categories@
            } else {
                "Utility;"@
            };
            has_prefix(
                entry_text(m, pkg, exe, icon),
                "[Desktop Entry]\nType=Application\nName="@ + name + "\nComment="@ + comment + "\nExec="@ + (exe
                    + " run "@ + pkg + " "@ + m.bins@[0]@) + " %F\nCategories="@ + categories + "\nTerminal="@ + (
                if m.is_gui {
                    "false"@
                } else {
                    "true"@
                }) + "\n"@,
            )
        }),
        icon.len() > 0 ==> occurs(entry_text(m, pkg, exe, icon), "Icon="@ + icon + "\n"@),
        m.desktop.nodisplay ==> occurs(entry_text(m, pkg, exe, icon), "NoDisplay=true\n"@),
        m.desktop.mime_types@.len() > 0 ==> occurs(
            entry_text(m, pkg, exe, icon),
            "MimeType="@ + m.desktop.mime_types@ + "\n"@,
        ),
        m.desktop.keywords@.len() > 0 ==> occurs(
            entry_text(m, pkg, exe, icon),
            "Keywords="@ + m.desktop.keywords@ + "\n"@,
        ),
{
    let d = m.desktop;
    let head = "[Desktop Entry]\nType=Application\nName="@ + or_else(d.display_name@, capitalised(pkg))
        + "\nComment="@ + or_else(d.comment@, m.summary@) + "\nExec="@ + start_command(
        exe,
        pkg,
        main_bin(strs(m.bins@), pkg),
    ) + " %F\nCategories="@ + or_else(d.categories@, "Utility;"@) + "\nTerminal="@ + (if m.is_gui {
        "false"@
    } else {
        "true"@
    }) + "\n"@;
    let a = line_unless_empty("Icon="@, icon);
    let b = if d.nodisplay {
        "NoDisplay=true\n"@
    } else {
        Seq::empty()
    };
    let c = line_unless_empty("MimeType="@, d.mime_types@);
    let e = line_unless_empty("Keywords="@, d.keywords@);
    let all = entry_text(m, pkg, exe, icon);
    assert(all == head + a + b + c + e);
    assert(strs(m.bins@)[0] == m.bins@[0]@);
    stands_in_the_middle(Seq::empty(), head, a + b + c + e);
    assert(Seq::<char>::empty() + head + (a + b + c + e) =~= all);
    assert(all.take(head.len() as int) =~= head);
    stands_in_the_middle(head, a, b + c + e);
    assert(head + a + (b + c + e) =~= all);
    stands_in_the_middle(head + a, b, c + e);
    assert(head + a + b + (c + e) =~= all);
    stands_in_the_middle(head + a + b, c, e);
    stands_in_the_middle(head + a + b + c, e, Seq::empty());
    assert(head + a + b + c + e + Seq::<char>::empty() =~= all);
}

proof fn stands_in_the_middle(a: Seq<char>, p: Seq<char>, b: Seq<char>)
    ensures
        occurs(a + p + b, p),
{
    let s = a + p + b;
    assert(s.skip(a.len() as int) =~= p + b);
    assert((p + b).take(p.len() as int) =~= p);
    assert(0 <= a.len() <= s.len() && has_prefix(s.skip(a.len() as int), p));
}

/// An icon keeps its extension.
pub proof fn icons_keep_their_extension(dir: Seq<char>, stem: Seq<char>, ext: Seq<char>)
    requires
        stem.len() > 0,
        !stem.contains('/'),
        ext.len() > 0,
        !ext.contains('/'),
        !ext.contains('.'),
    ensures
        icon_extension(dir + "/"@ + (stem.push('.') + ext)) == ext,
{
    extension_is_behind_the_last_dot(dir, stem, ext);
}

} // verus!
