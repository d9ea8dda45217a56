//! Compressed packages: where their images are, and whether they are mounted.
use vstd::prelude::*;

use crate::paths::{join, joined};
use crate::text::{cat3, is_white, lines, lines_are_between_line_feeds, same, split_lines, split_words, strs, what_is_white, words, words_are_between_white};

verus! {

/// The compressed image of a version, beside the directory that it is mounted at.
pub open spec fn sidecar(package_dir: Seq<char>, version: Seq<char>) -> Seq<char> {
    joined(package_dir, "."@ + version + ".squashfs"@)
}

/// The compressed image of a version.
pub fn squashfs_sidecar(package_dir: &str, version: &str) -> (r: String)
    ensures
        r@ == sidecar(package_dir@, version@),
        r@ == joined(package_dir@, "."@ + version@ + ".squashfs"@),
{
    let mut name = ".".to_owned();
    name.append(version);
    name.append(".squashfs");
    join(package_dir, name.as_str())
}

/// Whether a table of mounts has a line whose second word is the path.
pub open spec fn mounted(mounts: Seq<char>, path: Seq<char>) -> bool {
    exists|i: int|
        0 <= i < lines(mounts).len() && {
            let w = words(#[trigger] lines(mounts)[i]);
            w.len() >= 2 && w[1] == path
        }
}

/// Whether something is mounted at a path, given the table of mounts.
pub fn is_mount_point(mounts: &str, path: &str) -> (r: bool)
    ensures
        r == mounted(mounts@, path@),
{
    let all = split_lines(mounts);
    let mut i: usize = 0;
    while i < all.len()
        invariant
            i <= all@.len(),
            strs(all@) == lines(mounts@),
            forall|j: int|
                0 <= j < i ==> {
                    let w = words(#[trigger] lines(mounts@)[j]);
                    !(w.len() >= 2 && w[1] == path@)
                },
        decreases all@.len() - i,
    {
        let w = split_words(all[i].as_str());
        assert(strs(all@)[i as int] == all@[i as int]@);
        if w.len() >= 2 && same(w[1].as_str(), path) {
            assert(strs(w@)[1] == path@);
            return true;
        }
        assert(w@.len() >= 2 ==> strs(w@)[1] == w@[1]@);
        i = i + 1;
    }
    false
}

/// What has to be done before a version can be used.
#[derive(Clone, Copy, PartialEq, Eq, Structural, Debug)]
pub enum MountStep {
    /// It is not compressed, or it is mounted.
    Ready,
    /// The image has to be mounted.
    Mount,
    /// The image cannot be mounted, for want of the tool.
    NoTool,
}

/// What has to be done before a version can be used.
pub fn ensure_mounted(sidecar_exists: bool, is_mounted: bool, have_squashfuse: bool) -> (r: MountStep)
    ensures
        r == (if !sidecar_exists || is_mounted {
            MountStep::Ready
        } else if have_squashfuse {
            MountStep::Mount
        } else {
            MountStep::NoTool
        }),
{
    if !sidecar_exists || is_mounted {
        MountStep::Ready
    } else if have_squashfuse {
        MountStep::Mount
    } else {
        MountStep::NoTool
    }
}

/// The space that a version takes: that of its image, if it has one, else that
/// of its directory.
pub fn on_disk_size(image_size: Option<u64>, dir_size: u64) -> (r: u64)
    ensures
        r == (match image_size {
            Some(n) => n,
            None => dir_size,
        }),
{
    match image_size {
        Some(n) => n,
        None => dir_size,
    }
}

/// The command that compresses a version to a file.
pub fn compress_command(dir: &str, image: &str) -> (r: Vec<String>)
    ensures
        strs(r@) == seq![
            "mksquashfs"@,
            dir@,
            image@,
            "-comp"@,
            "lz4"@,
            "-Xhc"@,
            "-noappend"@,
            "-no-progress"@,
        ],
{
    let mut v: Vec<String> = Vec::new();
    v.push("mksquashfs".to_owned());
    v.push(dir.to_owned());
    v.push(image.to_owned());
    v.push("-comp".to_owned());
    v.push("lz4".to_owned());
    v.push("-Xhc".to_owned());
    v.push("-noappend".to_owned());
    v.push("-no-progress".to_owned());
    assert(strs(v@) =~= seq![
        "mksquashfs"@,
        dir@,
        image@,
        "-comp"@,
        "lz4"@,
        "-Xhc"@,
        "-noappend"@,
        "-no-progress"@,
    ]);
    v
}

/// The file that the image of a version is written to before it takes its place.
pub fn building_image(package_dir: &str, version: &str) -> (r: String)
    ensures
        r@ == joined(package_dir@, "."@ + version@ + ".squashfs.building"@),
{
    let mut name = ".".to_owned();
    name.append(version);
    name.append(".squashfs.building");
    join(package_dir, name.as_str())
}

/// What becomes of a version when it has been tried to compress it.
#[derive(Clone, Copy, PartialEq, Eq, Structural, Debug)]
pub enum CompressStep {
    /// It stays as it is.
    Leave,
    /// What was written of the image is removed; the version stays as it is.
    RemoveImage,
    /// The image takes its place, and the directory is emptied.
    UseImage,
}

/// Decides what becomes of a version: `finished` is `None` where the tool did
/// not run, else whether it succeeded. That a version cannot be compressed is no
/// error.
pub fn compress_after_install(have_mksquashfs: bool, finished: Option<bool>) -> (r: CompressStep)
    ensures
        r == (if !have_mksquashfs || finished is None {
            CompressStep::Leave
        } else if finished == Some(true) {
            CompressStep::UseImage
        } else {
            CompressStep::RemoveImage
        }),
{
    if !have_mksquashfs {
        return CompressStep::Leave;
    }
    match finished {
        None => CompressStep::Leave,
        Some(ok) => if ok {
            CompressStep::UseImage
        } else {
            CompressStep::RemoveImage
        },
    }
}

/// The text for an image that cannot be mounted for want of the tool.
pub fn no_tool_message() -> (r: &'static str)
    ensures
        r@
            == "Package data is compressed (squashfs) but 'squashfuse' is not installed.\n  Install it: apt install squashfuse (or equivalent for your distro)."@,
{
    "Package data is compressed (squashfs) but 'squashfuse' is not installed.\n  Install it: apt install squashfuse (or equivalent for your distro)."
}

/// The text for an image that could not be mounted.
pub fn mount_failure(image: &str, message: &str) -> (r: String)
    ensures
        r@ == "Failed to mount "@ + image@ + ": "@ + message@,
{
    let mut s = cat3("Failed to mount ", image, ": ");
    s.append(message);
    s
}

// ---------------------------------------------------------------------------
// Laws
// ---------------------------------------------------------------------------

/// A table of mounts says of a path that something is mounted there exactly where one of
/// its lines has the path as its second word: the first line, or one behind it.
pub proof fn mounted_where_a_line_says_so(dev: Seq<char>, dir: Seq<char>, rest: Seq<char>, more: Seq<char>, path: Seq<char>)
    requires
        dev.len() > 0,
        dir.len() > 0,
        forall|i: int| 0 <= i < dev.len() ==> !is_white(#[trigger] dev[i]),
        forall|i: int| 0 <= i < dir.len() ==> !is_white(#[trigger] dir[i]),
        !rest.contains('\n'),
        rest.len() > 0 ==> rest.last() != '\r',
    ensures
        mounted((dev.push(' ') + (dir.push(' ') + rest)).push('\n') + more, path) <==> dir == path || mounted(more, path),
        !mounted(Seq::empty(), path),
{
    what_is_white(' ');
    what_is_white('\n');
    let line = dev.push(' ') + (dir.push(' ') + rest);
    assert forall|i: int| 0 <= i < line.len() implies #[trigger] line[i] != '\n' by {
        if i < dev.len() {
            assert(line[i] == dev[i]);
        } else if dev.len() < i < dev.len() + 1 + dir.len() {
            assert(line[i] == dir[i - dev.len() - 1]);
        } else if i > dev.len() + 1 + dir.len() {
            assert(line[i] == rest[i - dev.len() - dir.len() - 2]);
            assert(rest.contains(rest[i - dev.len() - dir.len() - 2]));
        }
    }
    assert(!line.contains('\n'));
    if rest.len() > 0 {
        assert(line.last() == rest.last());
    } else {
        assert(line.last() == ' ');
    }
    lines_are_between_line_feeds(line, more);
    lines_are_between_line_feeds(Seq::empty(), more);
    words_are_between_white(dev, ' ', dir.push(' ') + rest);
    words_are_between_white(dir, ' ', rest);
    let w = words(line);
    assert(w == seq![dev] + (seq![dir] + words(rest)));
    assert(w.len() >= 2 && w[1] == dir);
    let all = lines(line.push('\n') + more);
    let l = lines(more);
    assert(all == seq![line] + l);
    assert(all[0] == line);
    assert forall|i: int| 0 <= i < l.len() implies #[trigger] l[i] == all[i + 1] by {}
    if mounted(line.push('\n') + more, path) {
        let i = choose|i: int|
            0 <= i < all.len() && {
                let w = words(#[trigger] all[i]);
                w.len() >= 2 && w[1] == path
            };
        if i > 0 {
            assert(l[i - 1] == all[i]);
        }
    }
    if mounted(more, path) {
        let i = choose|i: int|
            0 <= i < l.len() && {
                let w = words(#[trigger] l[i]);
                w.len() >= 2 && w[1] == path
            };
        assert(all[i + 1] == l[i]);
    }
}

} // verus!
