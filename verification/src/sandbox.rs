//! How the programs of packages are kept apart from the rest of the system.
use vstd::prelude::*;
use vstd::seq_lib::lemma_seq_concat_contains_all_elements;

use crate::config::ConfigTree;
use crate::manifest::{flag_under, manifest_of, section, Manifest, ManifestModel, ManifestProblem};
use crate::number::{decimal, number_of, number_round_trip, parse_number, to_decimal};
use crate::paths::{join, joined};
use crate::text::{cat, cat3, has_string, is_empty_text, join_strings, join_with, push_text, same, strs, trim_start, trim_start_class, trim_white, trimmed, CharClass};

verus! {

// ---------------------------------------------------------------------------
// Modes and limits
// ---------------------------------------------------------------------------

/// How far a program is kept apart.
#[derive(Clone, Copy, PartialEq, Eq, Structural, Debug)]
pub enum SandboxMode {
    /// It has a view of the system of its own.
    Full,
    /// It sees the system, and some calls are refused to it.
    Compat,
    /// It is not kept apart.
    Off,
}

/// How a program is kept apart: not at all if its package says so; fully if
/// it needs nothing that stands against that and the kernel allows it.
pub open spec fn mode_of(m: Manifest, user_ns: bool) -> SandboxMode {
    if m.sandbox_disabled {
        SandboxMode::Off
    } else if m.sandbox.gui || m.sandbox.full_gui || m.sandbox.network || m.sandbox.filesystem@.len() > 0
        || !user_ns {
        SandboxMode::Compat
    } else {
        SandboxMode::Full
    }
}

/// Decides how a program is kept apart.
pub fn pick_mode(manifest: &Manifest, user_ns: bool) -> (r: SandboxMode)
    ensures
        r == mode_of(*manifest, user_ns),
{
    if manifest.sandbox_disabled {
        return SandboxMode::Off;
    }
    let s = &manifest.sandbox;
    if s.gui || s.full_gui || s.network || s.filesystem.len() > 0 || !user_ns {
        return SandboxMode::Compat;
    }
    SandboxMode::Full
}

/// Whether a setting of the kernel, as it is read, is switched off.
pub open spec fn switched_off(setting: Option<String>) -> bool {
    setting matches Some(s) && trimmed(s@) == "0"@
}

/// Whether the settings of the kernel do not rule out user namespaces.
pub fn user_ns_not_ruled_out(unprivileged: &Option<String>, max: &Option<String>) -> (r: bool)
    ensures
        r == (!switched_off(*unprivileged) && !switched_off(*max)),
        r == !((unprivileged matches Some(s) && trimmed(s@) == "0"@) || (max matches Some(s) && trimmed(s@)
            == "0"@)),
{
    !is_off(unprivileged) && !is_off(max)
}

fn is_off(setting: &Option<String>) -> (r: bool)
    ensures
        r == switched_off(*setting),
{
    match setting {
        Some(s) => {
            let t = trim_white(s.as_str());
            same(t.as_str(), "0")
        },
        None => false,
    }
}

/// What a program may use.
#[derive(Clone, Copy, PartialEq, Eq, Structural, Debug)]
pub struct ResourceLimits {
    /// Seconds of computing; zero means no limit.
    pub cpu_secs: u64,
    /// Bytes of memory; zero means no limit.
    pub mem_bytes: u64,
    /// Processes.
    pub nproc: u64,
}

impl ResourceLimits {
    /// What a program that is run may use.
    pub fn for_run() -> (r: ResourceLimits)
        ensures
            r == (ResourceLimits { cpu_secs: 0, mem_bytes: 4294967296, nproc: 2048 }),
    {
        ResourceLimits { cpu_secs: 0, mem_bytes: 4294967296, nproc: 2048 }
    }

    /// What building a package may use.
    pub fn for_build() -> (r: ResourceLimits)
        ensures
            r == (ResourceLimits { cpu_secs: 0, mem_bytes: 8589934592, nproc: 8192 }),
    {
        ResourceLimits { cpu_secs: 0, mem_bytes: 8589934592, nproc: 8192 }
    }

    /// What a hook may use.
    pub fn for_hook() -> (r: ResourceLimits)
        ensures
            r == (ResourceLimits { cpu_secs: 120, mem_bytes: 536870912, nproc: 256 }),
    {
        ResourceLimits { cpu_secs: 120, mem_bytes: 536870912, nproc: 256 }
    }
}

/// A limit of the kernel.
#[derive(Clone, Copy, PartialEq, Eq, Structural, Debug)]
pub enum LimitKind {
    CpuSeconds,
    MemoryBytes,
    Processes,
}

/// A limit that is set if it is not nothing.
pub open spec fn limit_unless_zero(kind: LimitKind, n: u64) -> Seq<(LimitKind, u64)> {
    if n > 0 {
        seq![(kind, n)]
    } else {
        Seq::empty()
    }
}

/// The limits to set.
pub fn apply_resource_limits(limits: ResourceLimits) -> (r: Vec<(LimitKind, u64)>)
    ensures
        r@ == limit_unless_zero(LimitKind::CpuSeconds, limits.cpu_secs) + limit_unless_zero(
            LimitKind::MemoryBytes,
            limits.mem_bytes,
        ) + seq![(LimitKind::Processes, limits.nproc)],
        r@.contains((LimitKind::Processes, limits.nproc)),
        limits.cpu_secs > 0 <==> r@.contains((LimitKind::CpuSeconds, limits.cpu_secs)),
        limits.mem_bytes > 0 <==> r@.contains((LimitKind::MemoryBytes, limits.mem_bytes)),
{
    let mut out: Vec<(LimitKind, u64)> = Vec::new();
    if limits.cpu_secs > 0 {
        out.push((LimitKind::CpuSeconds, limits.cpu_secs));
    }
    if limits.mem_bytes > 0 {
        out.push((LimitKind::MemoryBytes, limits.mem_bytes));
    }
    out.push((LimitKind::Processes, limits.nproc));
    assert(out@ =~= limit_unless_zero(LimitKind::CpuSeconds, limits.cpu_secs) + limit_unless_zero(
        LimitKind::MemoryBytes,
        limits.mem_bytes,
    ) + seq![(LimitKind::Processes, limits.nproc)]);
    proof {
        let n: int = out@.len() as int;
        assert(out@[n - 1] == (LimitKind::Processes, limits.nproc));
        if limits.mem_bytes > 0 {
            assert(out@[n - 2] == (LimitKind::MemoryBytes, limits.mem_bytes));
        }
        if limits.cpu_secs > 0 {
            assert(out@[0] == (LimitKind::CpuSeconds, limits.cpu_secs));
        }
    }
    out
}

// ---------------------------------------------------------------------------
// Namespaces
// ---------------------------------------------------------------------------

/// What a program gets of its own.
#[derive(Clone, Copy, PartialEq, Eq, Structural, Debug)]
pub struct Namespaces {
    pub user: bool,
    pub mount: bool,
    pub uts: bool,
    pub pid: bool,
    pub cgroup: bool,
    pub net: bool,
    pub ipc: bool,
}

/// What a program that is fully kept apart gets of its own: a network unless it
/// may use the system's, and channels to other processes unless it has windows.
pub fn full_namespaces(manifest: &Manifest) -> (r: Namespaces)
    ensures
        r == (Namespaces {
            user: true,
            mount: true,
            uts: true,
            pid: true,
            cgroup: true,
            net: !manifest.sandbox.network,
            ipc: !manifest.sandbox.gui,
        }),
{
    Namespaces {
        user: true,
        mount: true,
        uts: true,
        pid: true,
        cgroup: true,
        net: !manifest.sandbox.network,
        ipc: !manifest.sandbox.gui,
    }
}

/// What a program that sees the system gets of its own: its mounts.
pub fn compat_namespaces() -> (r: Namespaces)
    ensures
        r == (Namespaces {
            user: false,
            mount: true,
            uts: false,
            pid: false,
            cgroup: false,
            net: false,
            ipc: false,
        }),
{
    Namespaces {
        user: false,
        mount: true,
        uts: false,
        pid: false,
        cgroup: false,
        net: false,
        ipc: false,
    }
}

/// The namespaces of its own that a hook gets.
pub open spec fn hook_spaces(m: Manifest, user_ns: bool) -> Namespaces {
    Namespaces {
        user: user_ns,
        mount: true,
        uts: true,
        pid: user_ns,
        cgroup: true,
        net: !m.sandbox.hooks_network,
        ipc: true,
    }
}

/// What a hook gets of its own: a network unless the package asks for the
/// system's for its hooks, and users and processes if the kernel allows it.
pub fn hook_namespaces(manifest: &Manifest, user_ns: bool) -> (r: Namespaces)
    ensures
        r == hook_spaces(*manifest, user_ns),
{
    Namespaces {
        user: user_ns,
        mount: true,
        uts: true,
        pid: user_ns,
        cgroup: true,
        net: !manifest.sandbox.hooks_network,
        ipc: true,
    }
}

/// The line that makes a user or a group the first of its own namespace.
pub fn id_mapping(id: u32) -> (r: String)
    ensures
        r@ == "0 "@ + decimal(id as nat) + " 1"@,
{
    let n = to_decimal(id as u64);
    cat3("0 ", n.as_str(), " 1")
}

// ---------------------------------------------------------------------------
// Files
// ---------------------------------------------------------------------------

/// What may be done with files.
#[derive(Clone, Copy, PartialEq, Eq, Structural, Debug)]
pub enum FileAccess {
    /// Reading and executing.
    ReadExecute,
    /// Reading.
    ReadOnly,
    /// Everything.
    All,
}

/// What may be done with the files below a path.
#[derive(Debug)]
pub struct AccessRule {
    pub path: String,
    pub access: FileAccess,
}

/// Rules as mathematical values.
pub open spec fn rules(v: Seq<AccessRule>) -> Seq<(Seq<char>, FileAccess)> {
    v.map_values(|r: AccessRule| (r.path@, r.access))
}

/// The directories of the system that every program sees.
pub open spec fn system_dirs() -> Seq<Seq<char>> {
    seq!["/usr"@, "/lib"@, "/lib64"@, "/lib32"@, "/bin"@, "/sbin"@, "/etc"@]
}

/// The directories of the system that every program sees.
pub fn system_dir_list() -> (r: Vec<String>)
    ensures
        strs(r@) == system_dirs(),
        r@.len() == 7,
{
    let mut v: Vec<String> = Vec::new();
    v.push("/usr".to_owned());
    v.push("/lib".to_owned());
    v.push("/lib64".to_owned());
    v.push("/lib32".to_owned());
    v.push("/bin".to_owned());
    v.push("/sbin".to_owned());
    v.push("/etc".to_owned());
    assert(strs(v@) =~= system_dirs());
    v
}

/// The same access for each path.
pub open spec fn same_access(paths: Seq<Seq<char>>, access: FileAccess) -> Seq<(Seq<char>, FileAccess)> {
    paths.map_values(|p: Seq<char>| (p, access))
}

/// What every program may do with the files of the system.
pub open spec fn system_rules() -> Seq<(Seq<char>, FileAccess)> {
    same_access(system_dirs(), FileAccess::ReadExecute) + seq![
        ("/proc"@, FileAccess::ReadOnly),
        ("/sys"@, FileAccess::ReadOnly),
    ]
}

/// What a program that is run may do with files: everything with its own, with
/// those of its user, and with those that its package asks for.
pub open spec fn run_rules(m: Manifest, home: Option<Seq<char>>) -> Seq<(Seq<char>, FileAccess)> {
    system_rules() + seq![("/app"@, FileAccess::All), ("/tmp"@, FileAccess::All)] + (match home {
        Some(h) => seq![(h, FileAccess::All)],
        None => Seq::empty(),
    }) + (if m.sandbox.dev {
        seq![("/dev"@, FileAccess::All)]
    } else {
        Seq::empty()
    }) + same_access(strs(m.sandbox.filesystem@), FileAccess::All)
}

/// What a hook may do with files: everything with those of its package and with
/// those that its package asks for, and nothing with those of the user.
pub open spec fn hook_rules(m: Manifest, dir: Seq<char>) -> Seq<(Seq<char>, FileAccess)> {
    system_rules() + seq![(dir, FileAccess::All), ("/tmp"@, FileAccess::All)] + same_access(
        strs(m.sandbox.filesystem@),
        FileAccess::All,
    )
}

fn push_rule(out: &mut Vec<AccessRule>, path: &str, access: FileAccess)
    ensures
        rules(final(out)@) == rules(old(out)@) + seq![(path@, access)],
{
    out.push(AccessRule { path: path.to_owned(), access });
    assert(rules(out@) =~= rules(old(out)@) + seq![(path@, access)]);
}

fn push_rules(out: &mut Vec<AccessRule>, paths: &Vec<String>, access: FileAccess)
    ensures
        rules(final(out)@) == rules(old(out)@) + same_access(strs(paths@), access),
{
    let ghost first = rules(out@);
    let ghost all = same_access(strs(paths@), access);
    let mut i: usize = 0;
    assert(first + all.take(0) =~= first);
    while i < paths.len()
        invariant
            i <= paths@.len(),
            all == same_access(strs(paths@), access),
            rules(out@) == first + all.take(i as int),
        decreases paths@.len() - i,
    {
        push_rule(out, paths[i].as_str(), access);
        assert(all.take(i + 1) =~= all.take(i as int) + seq![all[i as int]]);
        assert(rules(out@) =~= first + all.take(i + 1));
        i = i + 1;
    }
    assert(all.take(all.len() as int) =~= all);
}

fn new_rules() -> (r: Vec<AccessRule>)
    ensures
        rules(r@) == system_rules(),
{
    let mut out: Vec<AccessRule> = Vec::new();
    let dirs = system_dir_list();
    assert(rules(out@) =~= Seq::<(Seq<char>, FileAccess)>::empty());
    push_rules(&mut out, &dirs, FileAccess::ReadExecute);
    push_rule(&mut out, "/proc", FileAccess::ReadOnly);
    push_rule(&mut out, "/sys", FileAccess::ReadOnly);
    assert(rules(out@) =~= system_rules());
    out
}

/// What a program that is run may do with files. A rule for a path that is not
/// there is left out.
pub fn setup_landlock(manifest: &Manifest, home: &Option<String>) -> (r: Vec<AccessRule>)
    ensures
        rules(r@) == run_rules(
            *manifest,
            match home {
                Some(h) => Some(h@),
                None => None,
            },
        ),
{
    let mut out = new_rules();
    push_rule(&mut out, "/app", FileAccess::All);
    push_rule(&mut out, "/tmp", FileAccess::All);
    match home {
        Some(h) => {
            push_rule(&mut out, h.as_str(), FileAccess::All);
        },
        None => {},
    }
    if manifest.sandbox.dev {
        push_rule(&mut out, "/dev", FileAccess::All);
    }
    push_rules(&mut out, &manifest.sandbox.filesystem, FileAccess::All);
    assert(rules(out@) =~= run_rules(
        *manifest,
        match home {
            Some(h) => Some(h@),
            None => None,
        },
    ));
    out
}

/// What a hook may do with files. A rule for a path that is not there is left
/// out.
pub fn setup_landlock_for_hook(manifest: &Manifest, dir: &str) -> (r: Vec<AccessRule>)
    ensures
        rules(r@) == hook_rules(*manifest, dir@),
{
    let mut out = new_rules();
    push_rule(&mut out, dir, FileAccess::All);
    push_rule(&mut out, "/tmp", FileAccess::All);
    push_rules(&mut out, &manifest.sandbox.filesystem, FileAccess::All);
    assert(rules(out@) =~= hook_rules(*manifest, dir@));
    out
}

/// The version of the kernel's rules for files that can be used, given what the
/// kernel says of it: up to the third; `None` where there is none.
pub open spec fn rules_version(text: Seq<char>) -> Option<u32> {
    match number_of(trimmed(text), u32::MAX as nat) {
        Some(n) => if n == 0 {
            None
        } else if n == 1 {
            Some(1)
        } else if n == 2 {
            Some(2)
        } else {
            Some(3)
        },
        None => None,
    }
}

/// The version of the kernel's rules for files that can be used.
pub fn best_landlock_abi(text: &str) -> (r: Option<u32>)
    ensures
        r == rules_version(text@),
{
    let t = trim_white(text);
    match parse_number(t.as_str(), u32::MAX as u64) {
        Some(n) => if n == 0 {
            None
        } else if n == 1 {
            Some(1)
        } else if n == 2 {
            Some(2)
        } else {
            Some(3)
        },
        None => None,
    }
}

/// Where a path of the system appears below the root of a program.
pub fn bind_target(new_root: &str, path: &str) -> (r: String)
    ensures
        r@ == joined(new_root@, trim_start(path@, CharClass::Is('/'))),
{
    let below = trim_start_class(path, CharClass::Is('/'));
    join(new_root, below.as_str())
}

/// The directory that becomes the root of a program.
pub fn new_root_path(pid: u32) -> (r: String)
    ensures
        r@ == "/tmp/hpm_newroot_"@ + decimal(pid as nat),
{
    let n = to_decimal(pid as u64);
    cat("/tmp/hpm_newroot_", n.as_str())
}

/// A device: its name, and the numbers by which the kernel knows it.
#[derive(Clone, Copy, Debug)]
pub struct Device {
    pub name: &'static str,
    pub major: u64,
    pub minor: u64,
}

/// A device as a mathematical value.
pub open spec fn device(d: Device) -> (Seq<char>, u64, u64) {
    (d.name@, d.major, d.minor)
}

/// The devices that a program sees; `all` adds those that tools for developers
/// need.
pub open spec fn device_list(all: bool) -> Seq<(Seq<char>, u64, u64)> {
    seq![
        ("null"@, 1u64, 3u64),
        ("zero"@, 1u64, 5u64),
        ("random"@, 1u64, 8u64),
        ("urandom"@, 1u64, 9u64),
        ("tty"@, 5u64, 0u64),
    ] + (if all {
        seq![("ptmx"@, 5u64, 2u64), ("fuse"@, 10u64, 229u64)]
    } else {
        Seq::empty()
    })
}

/// The devices that a program sees.
pub fn setup_dev(all: bool) -> (r: Vec<Device>)
    ensures
        r@.map_values(|d: Device| device(d)) == device_list(all),
{
    let mut v: Vec<Device> = Vec::new();
    v.push(Device { name: "null", major: 1, minor: 3 });
    v.push(Device { name: "zero", major: 1, minor: 5 });
    v.push(Device { name: "random", major: 1, minor: 8 });
    v.push(Device { name: "urandom", major: 1, minor: 9 });
    v.push(Device { name: "tty", major: 5, minor: 0 });
    if all {
        v.push(Device { name: "ptmx", major: 5, minor: 2 });
        v.push(Device { name: "fuse", major: 10, minor: 229 });
    }
    assert(v@.map_values(|d: Device| device(d)) =~= device_list(all));
    v
}

/// Something that is mounted below the root of a program.
#[derive(Debug)]
pub enum MountAction {
    /// A path of the system.
    Bind { source: String, target: String, read_only: bool },
    /// A file system of the kernel.
    Special { kind: String, target: String },
    /// Devices in a directory; `all` adds those that tools for developers need.
    Devices { target: String, all: bool },
}

/// Something that is mounted, as a mathematical value.
#[verifier::ext_equal]
pub enum MountModel {
    Bind { source: Seq<char>, target: Seq<char>, read_only: bool },
    Special { kind: Seq<char>, target: Seq<char> },
    Devices { target: Seq<char>, all: bool },
}

impl View for MountAction {
    type V = MountModel;

    open spec fn view(&self) -> MountModel {
        match self {
            MountAction::Bind { source, target, read_only } => MountModel::Bind {
                source: source@,
                target: target@,
                read_only: *read_only,
            },
            MountAction::Special { kind, target } => MountModel::Special { kind: kind@, target: target@ },
            MountAction::Devices { target, all } => MountModel::Devices { target: target@, all: *all },
        }
    }
}

/// Mounts as mathematical values.
pub open spec fn mount_models(v: Seq<MountAction>) -> Seq<MountModel> {
    v.map_values(|m: MountAction| m@)
}

/// A path of the system, seen below the root of a program.
pub open spec fn bound(root: Seq<char>, path: Seq<char>, read_only: bool) -> MountModel {
    MountModel::Bind {
        source: path,
        target: joined(root, trim_start(path, CharClass::Is('/'))),
        read_only,
    }
}

/// Those of the paths of the system that are there, seen below the root of a
/// program.
pub open spec fn all_bound(
    root: Seq<char>,
    paths: Seq<Seq<char>>,
    present: Seq<Seq<char>>,
    read_only: bool,
) -> Seq<MountModel>
    decreases paths.len(),
{
    if paths.len() == 0 {
        Seq::empty()
    } else {
        let rest = all_bound(root, paths.drop_last(), present, read_only);
        if present.contains(paths.last()) {
            rest + seq![bound(root, paths.last(), read_only)]
        } else {
            rest
        }
    }
}

/// A file system of the kernel below the root of a program.
pub open spec fn special(root: Seq<char>, kind: Seq<char>, dir: Seq<char>) -> MountModel {
    MountModel::Special { kind, target: joined(root, dir) }
}

/// Everything that a program that is fully kept apart sees: the system, which it
/// cannot change; its own files; and what its package asks for.
pub open spec fn all_mounts(
    root: Seq<char>,
    path: Seq<char>,
    m: Manifest,
    home: Option<Seq<char>>,
    present: Seq<Seq<char>>,
) -> Seq<MountModel> {
    all_bound(root, system_dirs(), present, true) + seq![
        MountModel::Bind { source: path, target: joined(root, "app"@), read_only: false },
        special(root, "tmpfs"@, "tmp"@),
    ] + (match home {
        Some(h) => all_bound(root, seq![h], present, false),
        None => Seq::empty(),
    }) + seq![
        special(root, "tmpfs"@, "dev"@),
        MountModel::Devices { target: joined(root, "dev"@), all: m.sandbox.dev },
    ] + all_bound(root, strs(m.sandbox.filesystem@), present, false) + seq![
        special(root, "proc"@, "proc"@),
        special(root, "sysfs"@, "sys"@),
    ]
}

fn push_mount(out: &mut Vec<MountAction>, m: MountAction)
    ensures
        mount_models(final(out)@) == mount_models(old(out)@) + seq![m@],
{
    let ghost before = out@;
    out.push(m);
    assert(mount_models(out@) =~= mount_models(before) + seq![m@]);
}

fn push_special(out: &mut Vec<MountAction>, root: &str, kind: &str, dir: &str)
    ensures
        mount_models(final(out)@) == mount_models(old(out)@) + seq![special(root@, kind@, dir@)],
{
    push_mount(out, MountAction::Special { kind: kind.to_owned(), target: join(root, dir) });
}

fn push_bound(out: &mut Vec<MountAction>, root: &str, paths: &Vec<String>, present: &Vec<String>, read_only: bool)
    ensures
        mount_models(final(out)@) == mount_models(old(out)@) + all_bound(
            root@,
            strs(paths@),
            strs(present@),
            read_only,
        ),
{
    let ghost before = mount_models(out@);
    let ghost all = strs(paths@);
    let mut i: usize = 0;
    assert(all.take(0) =~= Seq::<Seq<char>>::empty());
    assert(before + Seq::<MountModel>::empty() =~= before);
    while i < paths.len()
        invariant
            i <= paths@.len(),
            all == strs(paths@),
            mount_models(out@) == before + all_bound(
                root@,
                all.take(i as int),
                strs(present@),
                read_only,
            ),
        decreases paths@.len() - i,
    {
        proof {
            let longer = all.take(i + 1);
            assert(longer.drop_last() =~= all.take(i as int));
            assert(longer.last() == paths@[i as int]@);
        }
        if has_string(present, paths[i].as_str()) {
            let target = bind_target(root, paths[i].as_str());
            push_mount(out, MountAction::Bind { source: paths[i].clone(), target, read_only });
            assert(mount_models(out@) =~= before + all_bound(
                root@,
                all.take(i + 1),
                strs(present@),
                read_only,
            ));
        }
        i = i + 1;
    }
    assert(all.take(all.len() as int) =~= all);
}

/// Everything that a program that is fully kept apart sees, in the order in which
/// it is mounted. `present` are the paths of the system that are there.
pub fn setup_mounts(
    new_root: &str,
    path: &str,
    manifest: &Manifest,
    home: &Option<String>,
    present: &Vec<String>,
) -> (r: Vec<MountAction>)
    ensures
        mount_models(r@) == all_mounts(
            new_root@,
            path@,
            *manifest,
            match home {
                Some(h) => Some(h@),
                None => None,
            },
            strs(present@),
        ),
{
    let mut out: Vec<MountAction> = Vec::new();
    assert(mount_models(out@) =~= Seq::<MountModel>::empty());
    let dirs = system_dir_list();
    push_bound(&mut out, new_root, &dirs, present, true);
    let app = join(new_root, "app");
    push_mount(&mut out, MountAction::Bind { source: path.to_owned(), target: app, read_only: false });
    push_special(&mut out, new_root, "tmpfs", "tmp");
    match home {
        Some(h) => {
            let mut one: Vec<String> = Vec::new();
            one.push(h.clone());
            assert(strs(one@) =~= seq![h@]);
            push_bound(&mut out, new_root, &one, present, false);
        },
        None => {},
    }
    push_special(&mut out, new_root, "tmpfs", "dev");
    let dev = join(new_root, "dev");
    push_mount(&mut out, MountAction::Devices { target: dev, all: manifest.sandbox.dev });
    push_bound(&mut out, new_root, &manifest.sandbox.filesystem, present, false);
    push_special(&mut out, new_root, "proc", "proc");
    push_special(&mut out, new_root, "sysfs", "sys");
    assert(mount_models(out@) =~= all_mounts(
        new_root@,
        path@,
        *manifest,
        match home {
            Some(h) => Some(h@),
            None => None,
        },
        strs(present@),
    ));
    out
}

// ---------------------------------------------------------------------------
// Calls
// ---------------------------------------------------------------------------

/// The calls of the kernel that are refused to programs.
pub open spec fn refused_calls() -> Seq<Seq<char>> {
    seq![
        "kexec_load"@,
        "kexec_file_load"@,
        "init_module"@,
        "finit_module"@,
        "delete_module"@,
        "ptrace"@,
        "process_vm_readv"@,
        "process_vm_writev"@,
        "iopl"@,
        "ioperm"@,
        "perf_event_open"@,
        "syslog"@,
        "acct"@,
        "swapon"@,
        "swapoff"@,
        "reboot"@,
        "keyctl"@,
        "add_key"@,
        "request_key"@,
        "bpf"@,
        "userfaultfd"@,
        "mount"@,
        "umount2"@,
        "pivot_root"@,
        "chroot"@,
        "setns"@,
        "unshare"@,
    ]
}

/// The calls of the kernel that are refused to programs.
pub fn setup_seccomp() -> (r: Vec<&'static str>)
    ensures
        r@.map_values(|s: &'static str| s@) == refused_calls(),
{
    let mut v: Vec<&'static str> = Vec::new();
    v.push("kexec_load");
    v.push("kexec_file_load");
    v.push("init_module");
    v.push("finit_module");
    v.push("delete_module");
    v.push("ptrace");
    v.push("process_vm_readv");
    v.push("process_vm_writev");
    v.push("iopl");
    v.push("ioperm");
    v.push("perf_event_open");
    v.push("syslog");
    v.push("acct");
    v.push("swapon");
    v.push("swapoff");
    v.push("reboot");
    v.push("keyctl");
    v.push("add_key");
    v.push("request_key");
    v.push("bpf");
    v.push("userfaultfd");
    v.push("mount");
    v.push("umount2");
    v.push("pivot_root");
    v.push("chroot");
    v.push("setns");
    v.push("unshare");
    assert(v@.map_values(|s: &'static str| s@) =~= refused_calls());
    v
}

// ---------------------------------------------------------------------------
// Commands
// ---------------------------------------------------------------------------

/// What is executed.
#[derive(Debug)]
pub struct Command {
    pub program: String,
    /// The arguments, the program's own name first.
    pub args: Vec<String>,
}

/// What is executed as a mathematical value: the program and its arguments.
pub open spec fn command_line(
    dir: Seq<char>,
    is_install: bool,
    install_commands: Seq<Seq<char>>,
    bin: Option<Seq<char>>,
    extra: Seq<Seq<char>>,
) -> (Seq<char>, Seq<Seq<char>>) {
    if is_install {
        let text = if install_commands.len() == 0 {
            "echo 'Install complete'"@
        } else {
            join_with(install_commands, " && "@)
        };
        ("/bin/sh"@, seq!["/bin/sh"@, "-c"@, text])
    } else {
        let path = dir + "/"@ + bin->0;
        (path, seq![path] + extra)
    }
}

/// What is executed: the commands that install a package, or a program of it
/// below a directory.
pub fn exec_command(
    dir: &str,
    is_install: bool,
    install_commands: &Vec<String>,
    bin: &Option<String>,
    extra_args: &Vec<String>,
) -> (r: Command)
    requires
        !is_install ==> bin is Some,
    ensures
        (r.program@, strs(r.args@)) == command_line(
            dir@,
            is_install,
            strs(install_commands@),
            match bin {
                Some(b) => Some(b@),
                None => None,
            },
            strs(extra_args@),
        ),
{
    let mut args: Vec<String> = Vec::new();
    assert(strs(args@) =~= Seq::<Seq<char>>::empty());
    let name = match bin {
        Some(b) => b.as_str(),
        None => "",
    };
    if is_install {
        let text = if install_commands.len() == 0 {
            "echo 'Install complete'".to_owned()
        } else {
            join_strings(install_commands, " && ")
        };
        args.push("/bin/sh".to_owned());
        args.push("-c".to_owned());
        args.push(text);
        assert(strs(args@) =~= seq!["/bin/sh"@, "-c"@, text@]);
        Command { program: "/bin/sh".to_owned(), args }
    } else {
        let path = cat3(dir, "/", name);
        push_text(&mut args, path.clone());
        let ghost all = strs(extra_args@);
        let mut i: usize = 0;
        assert(strs(args@) =~= seq![path@] + all.take(0));
        while i < extra_args.len()
            invariant
                i <= extra_args@.len(),
                all == strs(extra_args@),
                strs(args@) == seq![path@] + all.take(i as int),
            decreases extra_args@.len() - i,
        {
            let a = extra_args[i].clone();
            push_text(&mut args, a);
            assert(strs(args@) =~= seq![path@] + all.take(i + 1));
            i = i + 1;
        }
        assert(all.take(all.len() as int) =~= all);
        Command { program: path, args }
    }
}

/// What came of a program: nothing to say if it ended with nothing; else its
/// message, or the number that it ended with. One that did not end by itself
/// counts as ended with one.
pub fn child_outcome(code: Option<u8>, message: &str) -> (r: Result<(), String>)
    ensures
        ({
            let n: nat = match code {
                Some(c) => c as nat,
                None => 1,
            };
            if n == 0 {
                r is Ok
            } else if message@.len() == 0 {
                r matches Err(m) && m@ == "Process exited with code "@ + decimal(n)
            } else {
                r matches Err(m) && m@ == "Sandbox error: "@ + trimmed(message@)
            }
        }),
{
    let n: u8 = match code {
        Some(c) => c,
        None => 1,
    };
    if n == 0 {
        return Ok(());
    }
    if is_empty_text(message) {
        let d = to_decimal(n as u64);
        return Err(cat("Process exited with code ", d.as_str()));
    }
    let t = trim_white(message);
    Err(cat("Sandbox error: ", t.as_str()))
}

/// The text for a hook that took too long.
pub fn hook_timeout_message(seconds: u64) -> (r: String)
    ensures
        r@ == "Hook timed out after "@ + decimal(seconds as nat) + " seconds and was killed"@,
{
    let n = to_decimal(seconds);
    cat3("Hook timed out after ", n.as_str(), " seconds and was killed")
}

// ---------------------------------------------------------------------------
// Step by step
// ---------------------------------------------------------------------------

/// A step before a program runs.
#[derive(Clone, Copy, PartialEq, Eq, Structural, Debug)]
pub enum SandboxStep {
    /// Let it lead a group of processes of its own.
    OwnGroup,
    /// Give it namespaces of its own.
    NewNamespaces,
    /// Give it a name for its host.
    NewHostname,
    /// Keep its mounts to itself.
    PrivateMounts,
    /// Let its user be the first of its namespace.
    MapIds,
    /// Make the directory that becomes its root.
    MakeRoot,
    /// Mount what it sees.
    MountFiles,
    /// Let that directory be its root.
    ChangeRoot,
    /// See that its input is open.
    OpenStdin,
    /// Limit what it may use.
    LimitResources,
    /// Limit what it may do with files.
    LimitFiles,
    /// Refuse calls of the kernel to it.
    LimitCalls,
    /// Go to its directory.
    EnterDir,
    /// Execute it.
    Execute,
}

/// The steps before a program of a package runs.
pub open spec fn run_steps(mode: SandboxMode) -> Seq<SandboxStep> {
    match mode {
        SandboxMode::Full => seq![
            SandboxStep::NewNamespaces,
            SandboxStep::NewHostname,
            SandboxStep::PrivateMounts,
            SandboxStep::MapIds,
            SandboxStep::MakeRoot,
            SandboxStep::MountFiles,
            SandboxStep::ChangeRoot,
            SandboxStep::OpenStdin,
            SandboxStep::LimitResources,
            SandboxStep::LimitFiles,
            SandboxStep::LimitCalls,
            SandboxStep::EnterDir,
            SandboxStep::Execute,
        ],
        SandboxMode::Compat => seq![
            SandboxStep::NewNamespaces,
            SandboxStep::PrivateMounts,
            SandboxStep::OpenStdin,
            SandboxStep::LimitResources,
            SandboxStep::LimitCalls,
            SandboxStep::Execute,
        ],
        SandboxMode::Off => seq![SandboxStep::Execute],
    }
}

/// The steps before a program of a package runs, in the order in which they are
/// taken.
pub fn sandbox_steps(mode: SandboxMode) -> (r: Vec<SandboxStep>)
    ensures
        r@ == run_steps(mode),
{
    let mut v: Vec<SandboxStep> = Vec::new();
    match mode {
        SandboxMode::Full => {
            v.push(SandboxStep::NewNamespaces);
            v.push(SandboxStep::NewHostname);
            v.push(SandboxStep::PrivateMounts);
            v.push(SandboxStep::MapIds);
            v.push(SandboxStep::MakeRoot);
            v.push(SandboxStep::MountFiles);
            v.push(SandboxStep::ChangeRoot);
            v.push(SandboxStep::OpenStdin);
            v.push(SandboxStep::LimitResources);
            v.push(SandboxStep::LimitFiles);
            v.push(SandboxStep::LimitCalls);
            v.push(SandboxStep::EnterDir);
        },
        SandboxMode::Compat => {
            v.push(SandboxStep::NewNamespaces);
            v.push(SandboxStep::PrivateMounts);
            v.push(SandboxStep::OpenStdin);
            v.push(SandboxStep::LimitResources);
            v.push(SandboxStep::LimitCalls);
        },
        SandboxMode::Off => {},
    }
    v.push(SandboxStep::Execute);
    assert(v@ =~= run_steps(mode));
    v
}

/// The steps before a hook runs.
pub open spec fn hook_run_steps(disabled: bool) -> Seq<SandboxStep> {
    if disabled {
        seq![SandboxStep::Execute]
    } else {
        seq![
            SandboxStep::OwnGroup,
            SandboxStep::NewNamespaces,
            SandboxStep::MapIds,
            SandboxStep::PrivateMounts,
            SandboxStep::LimitResources,
            SandboxStep::LimitFiles,
            SandboxStep::LimitCalls,
            SandboxStep::Execute,
        ]
    }
}

/// The steps before a hook runs, in the order in which they are taken.
pub fn hook_steps(manifest: &Manifest) -> (r: Vec<SandboxStep>)
    ensures
        r@ == hook_run_steps(manifest.sandbox_disabled),
{
    let mut v: Vec<SandboxStep> = Vec::new();
    if !manifest.sandbox_disabled {
        v.push(SandboxStep::OwnGroup);
        v.push(SandboxStep::NewNamespaces);
        v.push(SandboxStep::MapIds);
        v.push(SandboxStep::PrivateMounts);
        v.push(SandboxStep::LimitResources);
        v.push(SandboxStep::LimitFiles);
        v.push(SandboxStep::LimitCalls);
    }
    v.push(SandboxStep::Execute);
    assert(v@ =~= hook_run_steps(manifest.sandbox_disabled));
    v
}

impl Namespaces {
    /// No namespaces.
    pub fn none() -> (r: Namespaces)
        ensures
            r == (Namespaces {
                user: false,
                mount: false,
                uts: false,
                pid: false,
                cgroup: false,
                net: false,
                ipc: false,
            }),
    {
        Namespaces {
            user: false,
            mount: false,
            uts: false,
            pid: false,
            cgroup: false,
            net: false,
            ipc: false,
        }
    }
}

/// Whether a step before a program is taken, given the namespaces that were made
/// for it: mounts are kept to it only where it has mounts of its own, and its user
/// is mapped only where it has users of its own.
pub open spec fn step_taken(step: SandboxStep, made: Namespaces) -> bool {
    &&& step == SandboxStep::PrivateMounts ==> made.mount
    &&& step == SandboxStep::MapIds ==> made.user
}

/// Whether a step before a program is taken, given the namespaces that were made
/// for it.
pub fn step_is_taken(step: SandboxStep, made: Namespaces) -> (r: bool)
    ensures
        r == step_taken(step, made),
{
    match step {
        SandboxStep::PrivateMounts => made.mount,
        SandboxStep::MapIds => made.user,
        _ => true,
    }
}

/// Whether a step before a hook is taken, given the namespaces that were made for
/// it: its user is mapped only where it has users of its own. That its mounts are
/// kept to it is tried in any case.
pub open spec fn hook_step_taken(step: SandboxStep, made: Namespaces) -> bool {
    step == SandboxStep::MapIds ==> made.user
}

/// Whether a step before a hook is taken, given the namespaces that were made for
/// it.
pub fn hook_step_is_taken(step: SandboxStep, made: Namespaces) -> (r: bool)
    ensures
        r == hook_step_taken(step, made),
{
    match step {
        SandboxStep::MapIds => made.user,
        _ => true,
    }
}

/// The namespaces that are tried for a hook where a step before it failed: where it
/// was the step that makes all of them, mounts of its own.
pub fn hook_fallback(failed: SandboxStep) -> (r: Option<Namespaces>)
    ensures
        r == (if failed == SandboxStep::NewNamespaces {
            Some(
                Namespaces {
                    user: false,
                    mount: true,
                    uts: false,
                    pid: false,
                    cgroup: false,
                    net: false,
                    ipc: false,
                },
            )
        } else {
            None
        }),
{
    match failed {
        SandboxStep::NewNamespaces => Some(compat_namespaces()),
        _ => None,
    }
}

/// Whether a program runs though a step before it failed. A layer that the kernel
/// does not offer is left out: the mapping of the user, the limits on what the
/// program uses, on files and on calls, and, where it sees the system, namespaces
/// and mounts of its own.
pub open spec fn step_may_fail(mode: SandboxMode, step: SandboxStep) -> bool {
    match step {
        SandboxStep::MapIds => true,
        SandboxStep::OpenStdin => true,
        SandboxStep::LimitResources => true,
        SandboxStep::LimitFiles => true,
        SandboxStep::LimitCalls => true,
        SandboxStep::NewNamespaces => mode == SandboxMode::Compat,
        SandboxStep::PrivateMounts => mode == SandboxMode::Compat,
        _ => false,
    }
}

/// Whether a program runs though a step before it failed.
pub fn tolerates(mode: SandboxMode, step: SandboxStep) -> (r: bool)
    ensures
        r == step_may_fail(mode, step),
{
    match step {
        SandboxStep::MapIds => true,
        SandboxStep::OpenStdin => true,
        SandboxStep::LimitResources => true,
        SandboxStep::LimitFiles => true,
        SandboxStep::LimitCalls => true,
        SandboxStep::NewNamespaces => mode == SandboxMode::Compat,
        SandboxStep::PrivateMounts => mode == SandboxMode::Compat,
        _ => false,
    }
}

/// Whether a hook runs though a step before it failed: every step is taken as
/// far as the kernel allows it.
pub fn hook_tolerates(step: SandboxStep) -> (r: bool)
    ensures
        r == (step != SandboxStep::Execute),
{
    step != SandboxStep::Execute
}

/// How a program is tried next: one that could not be fully kept apart is run
/// so that it sees the system.
pub open spec fn next_mode(mode: SandboxMode, succeeded: bool) -> Option<SandboxMode> {
    if mode == SandboxMode::Full && !succeeded {
        Some(SandboxMode::Compat)
    } else {
        None
    }
}

/// How a program is tried next.
pub fn setup_sandbox(mode: SandboxMode, succeeded: bool) -> (r: Option<SandboxMode>)
    ensures
        r == next_mode(mode, succeeded),
{
    if mode == SandboxMode::Full && !succeeded {
        Some(SandboxMode::Compat)
    } else {
        None
    }
}

/// The script that runs commands one after the other, up to the first that
/// fails.
pub fn run_commands(commands: &Vec<String>) -> (r: String)
    ensures
        r@ == "#!/bin/sh\nset -e\n"@ + join_with(strs(commands@), "\n"@),
{
    let text = join_strings(commands, "\n");
    cat("#!/bin/sh\nset -e\n", text.as_str())
}

// ---------------------------------------------------------------------------
// Laws
// ---------------------------------------------------------------------------

/// Every program is kept apart from the system, unless its package says that it
/// is not to be.
pub proof fn kept_apart_by_default(
    config: Seq<(Seq<char>, ConfigTree)>,
    has_hooks: bool,
    m: Manifest,
    user_ns: bool,
)
    requires
        manifest_of(config, has_hooks) == Ok::<ManifestModel, ManifestProblem>(m@),
    ensures
        mode_of(m, user_ns) == SandboxMode::Off <==> m.sandbox_disabled,
        m.sandbox_disabled ==> flag_under(section(config, "sandbox"@), "disabled"@),
{
}

/// A hook gets no network unless its package asks for that for its hooks; that
/// the program has the network does not matter.
pub proof fn hooks_get_no_network_by_default(
    config: Seq<(Seq<char>, ConfigTree)>,
    has_hooks: bool,
    m: Manifest,
    user_ns: bool,
)
    requires
        manifest_of(config, has_hooks) == Ok::<ManifestModel, ManifestProblem>(m@),
    ensures
        hook_spaces(m, user_ns).net <==> !flag_under(section(config, "sandbox"@), "hooks_network"@),
{
}

/// A hook may change only the files of its package, those in `/tmp`, and those
/// that its package asks for by name; never those of the user as such.
pub proof fn hooks_change_only_what_is_theirs(m: Manifest, dir: Seq<char>, i: int)
    requires
        0 <= i < hook_rules(m, dir).len(),
        hook_rules(m, dir)[i].1 == FileAccess::All,
    ensures
        ({
            let path = hook_rules(m, dir)[i].0;
            path == dir || path == "/tmp"@ || strs(m.sandbox.filesystem@).contains(path)
        }),
{
    let s = system_rules();
    let fs = strs(m.sandbox.filesystem@);
    let n = s.len() as int;
    assert(n == 9);
    if i < n {
        assert(hook_rules(m, dir)[i] == s[i]);
        if i < 7 {
            assert(s[i] == (system_dirs()[i], FileAccess::ReadExecute));
        }
    } else if i >= n + 2 {
        assert(hook_rules(m, dir)[i] == same_access(fs, FileAccess::All)[i - n - 2]);
        assert(fs.contains(fs[i - n - 2]));
    }
}

/// A program that is fully kept apart uses neither the network nor windows of
/// the system.
pub proof fn full_means_closed(m: Manifest, user_ns: bool)
    requires
        mode_of(m, user_ns) == SandboxMode::Full,
    ensures
        !m.sandbox.network,
        !m.sandbox.gui,
        !m.sandbox.full_gui,
        m.sandbox.filesystem@.len() == 0,
        user_ns,
{
}

/// No program of a package that is kept apart runs before it was tried to limit
/// what it may use and to refuse calls of the kernel to it.
pub proof fn confined_before_executed(mode: SandboxMode, i: int)
    requires
        mode != SandboxMode::Off,
        0 <= i < run_steps(mode).len(),
        run_steps(mode)[i] == SandboxStep::Execute,
    ensures
        exists|j: int| 0 <= j < i && #[trigger] run_steps(mode)[j] == SandboxStep::LimitResources,
        exists|j: int| 0 <= j < i && #[trigger] run_steps(mode)[j] == SandboxStep::LimitCalls,
{
    if mode == SandboxMode::Full {
        assert(run_steps(mode)[8] == SandboxStep::LimitResources);
        assert(run_steps(mode)[10] == SandboxStep::LimitCalls);
    } else {
        assert(run_steps(mode)[3] == SandboxStep::LimitResources);
        assert(run_steps(mode)[4] == SandboxStep::LimitCalls);
    }
}

/// A host that lacks a layer does not keep a program from running: what cannot be
/// fully kept apart is run so that it sees the system, and there no step but its
/// execution can stop it.
pub proof fn missing_layers_stop_no_program(mode: SandboxMode, i: int)
    requires
        0 <= i < run_steps(mode).len(),
        run_steps(mode)[i] != SandboxStep::Execute,
    ensures
        step_may_fail(mode, run_steps(mode)[i]) || next_mode(mode, false) == Some(
            SandboxMode::Compat,
        ),
        mode == SandboxMode::Compat ==> step_may_fail(mode, run_steps(mode)[i]),
{
}

proof fn bound_read_only(root: Seq<char>, paths: Seq<Seq<char>>, present: Seq<Seq<char>>, read_only: bool, i: int)
    requires
        0 <= i < all_bound(root, paths, present, read_only).len(),
    ensures
        ({
            let b = all_bound(root, paths, present, read_only)[i];
            b matches MountModel::Bind { source, read_only: r, .. } && r == read_only && paths.contains(
                source,
            )
        }),
    decreases paths.len(),
{
    let rest = all_bound(root, paths.drop_last(), present, read_only);
    if i < rest.len() {
        bound_read_only(root, paths.drop_last(), present, read_only, i);
        let b = rest[i];
        if let MountModel::Bind { source, .. } = b {
            let k = choose|k: int| 0 <= k < paths.drop_last().len() && paths.drop_last()[k] == source;
            assert(paths[k] == source);
        }
    } else {
        assert(paths[paths.len() - 1] == paths.last());
    }
}

/// A program that is fully kept apart can change only its own files, those of
/// its user, and those that its package asks for by name.
pub proof fn system_cannot_be_changed(
    root: Seq<char>,
    path: Seq<char>,
    m: Manifest,
    home: Option<Seq<char>>,
    present: Seq<Seq<char>>,
    i: int,
)
    requires
        0 <= i < all_mounts(root, path, m, home, present).len(),
    ensures
        all_mounts(root, path, m, home, present)[i] matches MountModel::Bind { source, read_only, .. }
            ==> read_only || source == path || home == Some(source) || strs(
            m.sandbox.filesystem@,
        ).contains(source),
{
    let s = all_mounts(root, path, m, home, present);
    let a = all_bound(root, system_dirs(), present, true);
    let h = match home {
        Some(h) => all_bound(root, seq![h], present, false),
        None => Seq::empty(),
    };
    let f = all_bound(root, strs(m.sandbox.filesystem@), present, false);
    let n = a.len() as int;
    let p = n + 2 + h.len();
    if i < n {
        assert(s[i] == a[i]);
        bound_read_only(root, system_dirs(), present, true, i);
    } else if n + 2 <= i < p {
        assert(s[i] == h[i - n - 2]);
        bound_read_only(root, seq![home->0], present, false, i - n - 2);
    } else if p + 2 <= i < p + 2 + f.len() {
        assert(s[i] == f[i - p - 2]);
        bound_read_only(root, strs(m.sandbox.filesystem@), present, false, i - p - 2);
    }
}

/// A program is fully kept apart exactly where its package does not refuse that, asks for
/// no window, no network and no files of the system, and the kernel allows it.
pub proof fn when_a_program_is_fully_kept_apart(m: Manifest, user_ns: bool)
    ensures
        mode_of(m, user_ns) == SandboxMode::Full <==> !m.sandbox_disabled && !m.sandbox.gui && !m.sandbox.full_gui
            && !m.sandbox.network && m.sandbox.filesystem@.len() == 0 && user_ns,
        mode_of(m, user_ns) == SandboxMode::Off <==> m.sandbox_disabled,
{
}

proof fn same_access_holds(paths: Seq<Seq<char>>, access: FileAccess, p: Seq<char>, a: FileAccess)
    ensures
        same_access(paths, access).contains((p, a)) <==> paths.contains(p) && a == access,
{
    let s = same_access(paths, access);
    if s.contains((p, a)) {
        let i = choose|i: int| 0 <= i < s.len() && s[i] == (p, a);
        assert(paths[i] == p);
    }
    if paths.contains(p) {
        let i = choose|i: int| 0 <= i < paths.len() && paths[i] == p;
        assert(s[i] == (p, access));
    }
}

/// A program that is run may do everything with its own files, those in `/tmp`, those of
/// its user, the devices if its package asks for them, and the files that its package
/// names; and with no others.
pub proof fn what_a_program_may_change(m: Manifest, home: Option<Seq<char>>, p: Seq<char>)
    ensures
        run_rules(m, home).contains((p, FileAccess::All)) <==> p == "/app"@ || p == "/tmp"@ || home == Some(p) || (
        p == "/dev"@ && m.sandbox.dev) || strs(m.sandbox.filesystem@).contains(p),
{
    let x = (p, FileAccess::All);
    let a = system_rules();
    let b = seq![("/app"@, FileAccess::All), ("/tmp"@, FileAccess::All)];
    let c = match home {
        Some(h) => seq![(h, FileAccess::All)],
        None => Seq::empty(),
    };
    let d = if m.sandbox.dev {
        seq![("/dev"@, FileAccess::All)]
    } else {
        Seq::empty()
    };
    let e = same_access(strs(m.sandbox.filesystem@), FileAccess::All);
    lemma_seq_concat_contains_all_elements(a + b + c + d, e, x);
    lemma_seq_concat_contains_all_elements(a + b + c, d, x);
    lemma_seq_concat_contains_all_elements(a + b, c, x);
    lemma_seq_concat_contains_all_elements(a, b, x);
    system_is_only_read(p);
    same_access_holds(strs(m.sandbox.filesystem@), FileAccess::All, p, FileAccess::All);
    assert(b[0] == ("/app"@, FileAccess::All) && b[1] == ("/tmp"@, FileAccess::All));
    if home == Some(p) {
        assert(c[0] == x);
    }
    if m.sandbox.dev {
        assert(d[0] == ("/dev"@, FileAccess::All));
    }
    assert(run_rules(m, home) == a + b + c + d + e);
}

/// A hook may do everything with the files of its package, those in `/tmp` and those that
/// its package names, and with no others.
pub proof fn what_a_hook_may_change(m: Manifest, dir: Seq<char>, p: Seq<char>)
    ensures
        hook_rules(m, dir).contains((p, FileAccess::All)) <==> p == dir || p == "/tmp"@ || strs(
            m.sandbox.filesystem@,
        ).contains(p),
{
    let x = (p, FileAccess::All);
    let a = system_rules();
    let b = seq![(dir, FileAccess::All), ("/tmp"@, FileAccess::All)];
    let e = same_access(strs(m.sandbox.filesystem@), FileAccess::All);
    lemma_seq_concat_contains_all_elements(a + b, e, x);
    lemma_seq_concat_contains_all_elements(a, b, x);
    system_is_only_read(p);
    same_access_holds(strs(m.sandbox.filesystem@), FileAccess::All, p, FileAccess::All);
    assert(b[0] == (dir, FileAccess::All) && b[1] == ("/tmp"@, FileAccess::All));
    assert(hook_rules(m, dir) == a + b + e);
}

/// The files of the system may be read and executed, and those that show the kernel may
/// be read; none may be changed.
pub proof fn system_is_only_read(p: Seq<char>)
    ensures
        !system_rules().contains((p, FileAccess::All)),
        system_rules().contains((p, FileAccess::ReadExecute)) <==> p == "/usr"@ || p == "/lib"@ || p == "/lib64"@
            || p == "/lib32"@ || p == "/bin"@ || p == "/sbin"@ || p == "/etc"@,
        system_rules().contains((p, FileAccess::ReadOnly)) <==> p == "/proc"@ || p == "/sys"@,
{
    let a = same_access(system_dirs(), FileAccess::ReadExecute);
    let b = seq![("/proc"@, FileAccess::ReadOnly), ("/sys"@, FileAccess::ReadOnly)];
    assert(b[0] == ("/proc"@, FileAccess::ReadOnly) && b[1] == ("/sys"@, FileAccess::ReadOnly));
    let s = system_dirs();
    assert(s[0] == "/usr"@ && s[1] == "/lib"@ && s[2] == "/lib64"@ && s[3] == "/lib32"@ && s[4] == "/bin"@ && s[5]
        == "/sbin"@ && s[6] == "/etc"@);
    lemma_seq_concat_contains_all_elements(a, b, (p, FileAccess::All));
    lemma_seq_concat_contains_all_elements(a, b, (p, FileAccess::ReadExecute));
    lemma_seq_concat_contains_all_elements(a, b, (p, FileAccess::ReadOnly));
    same_access_holds(s, FileAccess::ReadExecute, p, FileAccess::All);
    same_access_holds(s, FileAccess::ReadExecute, p, FileAccess::ReadExecute);
    same_access_holds(s, FileAccess::ReadExecute, p, FileAccess::ReadOnly);
}

proof fn all_bound_holds(root: Seq<char>, paths: Seq<Seq<char>>, present: Seq<Seq<char>>, read_only: bool, p: Seq<char>)
    requires
        paths.contains(p),
        present.contains(p),
    ensures
        all_bound(root, paths, present, read_only).contains(bound(root, p, read_only)),
    decreases paths.len(),
{
    let t = paths.drop_last();
    let x = bound(root, p, read_only);
    let rest = all_bound(root, t, present, read_only);
    lemma_seq_concat_contains_all_elements(rest, seq![bound(root, paths.last(), read_only)], x);
    let i = choose|i: int| 0 <= i < paths.len() && paths[i] == p;
    if i < t.len() {
        assert(t[i] == p);
        all_bound_holds(root, t, present, read_only, p);
    } else {
        assert(seq![bound(root, paths.last(), read_only)][0] == x);
    }
}

/// A program that is fully kept apart sees each directory of the system that is there,
/// its own files, those of its user and those that its package names, at the same paths
/// below its root; and devices, and the file systems of the kernel.
pub proof fn what_a_program_sees(
    root: Seq<char>,
    path: Seq<char>,
    m: Manifest,
    home: Option<Seq<char>>,
    present: Seq<Seq<char>>,
    p: Seq<char>,
)
    ensures
        ({
            let all = all_mounts(root, path, m, home, present);
            let target = joined(root, trim_start(p, CharClass::Is('/')));
            &&& present.contains(p) && (p == "/usr"@ || p == "/lib"@ || p == "/lib64"@ || p == "/lib32"@ || p
                == "/bin"@ || p == "/sbin"@ || p == "/etc"@) ==> all.contains(
                (MountModel::Bind { source: p, target, read_only: true }),
            )
            &&& present.contains(p) && (home == Some(p) || strs(m.sandbox.filesystem@).contains(p)) ==> all.contains(
                (MountModel::Bind { source: p, target, read_only: false }),
            )
            &&& all.contains((MountModel::Bind { source: path, target: joined(root, "app"@), read_only: false }))
            &&& all.contains((MountModel::Special { kind: "tmpfs"@, target: joined(root, "tmp"@) }))
            &&& all.contains((MountModel::Special { kind: "proc"@, target: joined(root, "proc"@) }))
            &&& all.contains((MountModel::Special { kind: "sysfs"@, target: joined(root, "sys"@) }))
            &&& all.contains((MountModel::Devices { target: joined(root, "dev"@), all: m.sandbox.dev }))
        }),
{
    let all = all_mounts(root, path, m, home, present);
    let a = all_bound(root, system_dirs(), present, true);
    let b = seq![
        MountModel::Bind { source: path, target: joined(root, "app"@), read_only: false },
        special(root, "tmpfs"@, "tmp"@),
    ];
    let c = match home {
        Some(h) => all_bound(root, seq![h], present, false),
        None => Seq::empty(),
    };
    let d = seq![
        special(root, "tmpfs"@, "dev"@),
        MountModel::Devices { target: joined(root, "dev"@), all: m.sandbox.dev },
    ];
    let e = all_bound(root, strs(m.sandbox.filesystem@), present, false);
    let f = seq![special(root, "proc"@, "proc"@), special(root, "sysfs"@, "sys"@)];
    assert(all == a + b + c + d + e + f);
    assert forall|x: MountModel| a.contains(x) || b.contains(x) || c.contains(x) || d.contains(x) || e.contains(x)
        || f.contains(x) implies #[trigger] all.contains(x) by {
        lemma_seq_concat_contains_all_elements(a + b + c + d + e, f, x);
        lemma_seq_concat_contains_all_elements(a + b + c + d, e, x);
        lemma_seq_concat_contains_all_elements(a + b + c, d, x);
        lemma_seq_concat_contains_all_elements(a + b, c, x);
        lemma_seq_concat_contains_all_elements(a, b, x);
    }
    assert(b.contains(b[0]) && b.contains(b[1]) && d.contains(d[1]) && f.contains(f[0]) && f.contains(f[1]));
    let s = system_dirs();
    assert(s[0] == "/usr"@ && s[1] == "/lib"@ && s[2] == "/lib64"@ && s[3] == "/lib32"@ && s[4] == "/bin"@ && s[5]
        == "/sbin"@ && s[6] == "/etc"@);
    if present.contains(p) {
        if s.contains(p) {
            all_bound_holds(root, s, present, true, p);
        }
        if home == Some(p) {
            assert(seq![p][0] == p);
            all_bound_holds(root, seq![p], present, false, p);
        }
        if strs(m.sandbox.filesystem@).contains(p) {
            all_bound_holds(root, strs(m.sandbox.filesystem@), present, false, p);
        }
    }
}

/// These calls of the kernel, and no others, are refused to programs.
pub proof fn which_calls_are_refused(c: Seq<char>)
    ensures
        refused_calls().contains(c) <==> (c == "acct"@ || c == "add_key"@ || c == "bpf"@ || c == "chroot"@ || c == "delete_module"@ || c == "finit_module"@ || c == "init_module"@ || c == "ioperm"@ || c == "iopl"@ || c == "kexec_file_load"@ || c == "kexec_load"@ || c == "keyctl"@ || c == "mount"@ || c == "perf_event_open"@ || c == "pivot_root"@ || c == "process_vm_readv"@ || c == "process_vm_writev"@ || c == "ptrace"@ || c == "reboot"@ || c == "request_key"@ || c == "setns"@ || c == "swapoff"@ || c == "swapon"@ || c == "syslog"@ || c == "umount2"@ || c == "unshare"@ || c == "userfaultfd"@),
{
    let s = refused_calls();
    assert(s[0] == "kexec_load"@);
    assert(s[1] == "kexec_file_load"@);
    assert(s[2] == "init_module"@);
    assert(s[3] == "finit_module"@);
    assert(s[4] == "delete_module"@);
    assert(s[5] == "ptrace"@);
    assert(s[6] == "process_vm_readv"@);
    assert(s[7] == "process_vm_writev"@);
    assert(s[8] == "iopl"@);
    assert(s[9] == "ioperm"@);
    assert(s[10] == "perf_event_open"@);
    assert(s[11] == "syslog"@);
    assert(s[12] == "acct"@);
    assert(s[13] == "swapon"@);
    assert(s[14] == "swapoff"@);
    assert(s[15] == "reboot"@);
    assert(s[16] == "keyctl"@);
    assert(s[17] == "add_key"@);
    assert(s[18] == "request_key"@);
    assert(s[19] == "bpf"@);
    assert(s[20] == "userfaultfd"@);
    assert(s[21] == "mount"@);
    assert(s[22] == "umount2"@);
    assert(s[23] == "pivot_root"@);
    assert(s[24] == "chroot"@);
    assert(s[25] == "setns"@);
    assert(s[26] == "unshare"@);
}

/// A program is executed last and once; one that is fully kept apart after its root was
/// changed to where its files are mounted, and after what it may do was limited.
pub proof fn executed_last_and_confined(mode: SandboxMode, i: int)
    requires
        0 <= i < run_steps(mode).len(),
    ensures
        run_steps(mode).last() == SandboxStep::Execute,
        run_steps(mode)[i] == SandboxStep::Execute ==> i == run_steps(mode).len() - 1,
        mode == SandboxMode::Full ==> {
            let s = run_steps(mode);
            &&& s.contains(SandboxStep::LimitFiles) && s.contains(SandboxStep::NewNamespaces)
            &&& s.contains(SandboxStep::MountFiles) && s.contains(SandboxStep::ChangeRoot)
            &&& s.contains(SandboxStep::MapIds) && s.contains(SandboxStep::PrivateMounts)
            &&& s[i] == SandboxStep::MountFiles ==> exists|j: int|
                i < j < s.len() && #[trigger] s[j] == SandboxStep::ChangeRoot
            &&& s[i] == SandboxStep::PrivateMounts ==> exists|j: int|
                i < j < s.len() && #[trigger] s[j] == SandboxStep::MountFiles
        },
        mode == SandboxMode::Compat ==> run_steps(mode).contains(SandboxStep::NewNamespaces) && run_steps(
            mode,
        ).contains(SandboxStep::PrivateMounts),
{
    let s = run_steps(mode);
    if mode == SandboxMode::Full {
        assert(s[0] == SandboxStep::NewNamespaces && s[2] == SandboxStep::PrivateMounts && s[3]
            == SandboxStep::MapIds && s[5] == SandboxStep::MountFiles && s[6] == SandboxStep::ChangeRoot && s[9]
            == SandboxStep::LimitFiles);
    } else if mode == SandboxMode::Compat {
        assert(s[0] == SandboxStep::NewNamespaces && s[1] == SandboxStep::PrivateMounts);
    }
}

/// A hook of a package that is kept apart is executed after it was limited in what it may
/// use, do with files and call, and with namespaces of its own.
pub proof fn hooks_are_confined_before_executed(i: int)
    requires
        0 <= i < hook_run_steps(false).len(),
        hook_run_steps(false)[i] == SandboxStep::Execute,
    ensures
        i == hook_run_steps(false).len() - 1,
        hook_run_steps(false).contains(SandboxStep::NewNamespaces),
        hook_run_steps(false).contains(SandboxStep::PrivateMounts),
        hook_run_steps(false).contains(SandboxStep::MapIds),
        hook_run_steps(false).contains(SandboxStep::LimitResources),
        hook_run_steps(false).contains(SandboxStep::LimitFiles),
        hook_run_steps(false).contains(SandboxStep::LimitCalls),
        hook_run_steps(false).contains(SandboxStep::OwnGroup),
{
    let s = hook_run_steps(false);
    assert(s[0] == SandboxStep::OwnGroup && s[1] == SandboxStep::NewNamespaces && s[2] == SandboxStep::MapIds
        && s[3] == SandboxStep::PrivateMounts && s[4] == SandboxStep::LimitResources && s[5]
        == SandboxStep::LimitFiles && s[6] == SandboxStep::LimitCalls);
}

/// The version of the kernel's rules for files is the number that the kernel gives, but at
/// most three; zero means that there are none.
pub proof fn rules_version_is_at_most_three(text: Seq<char>, n: nat)
    requires
        trimmed(text) == decimal(n),
        n <= u32::MAX,
    ensures
        rules_version(text) == (if n == 0 {
            None
        } else if n < 3 {
            Some(n as u32)
        } else {
            Some(3u32)
        }),
{
    number_round_trip(n, u32::MAX as nat);
}

/// The steps that need namespaces of its own are taken for a program only where it has
/// them; every other step is taken in any case.
pub proof fn which_steps_are_taken(step: SandboxStep, made: Namespaces)
    ensures
        step_taken(SandboxStep::PrivateMounts, made) == made.mount,
        step_taken(SandboxStep::MapIds, made) == made.user,
        step != SandboxStep::PrivateMounts && step != SandboxStep::MapIds ==> step_taken(step, made),
        hook_step_taken(SandboxStep::MapIds, made) == made.user,
        step != SandboxStep::MapIds ==> hook_step_taken(step, made),
{
}

/// A program is executed by its path with its arguments behind that; what installs a
/// package is handed to the shell as one text.
pub proof fn what_is_executed(
    dir: Seq<char>,
    commands: Seq<Seq<char>>,
    bin: Seq<char>,
    extra: Seq<Seq<char>>,
    i: int,
)
    requires
        0 <= i < extra.len(),
    ensures
        command_line(dir, false, commands, Some(bin), extra).0 == dir + "/"@ + bin,
        command_line(dir, false, commands, Some(bin), extra).1.len() == extra.len() + 1,
        command_line(dir, false, commands, Some(bin), extra).1[0] == dir + "/"@ + bin,
        command_line(dir, false, commands, Some(bin), extra).1[i + 1] == extra[i],
        commands.len() > 0 ==> command_line(dir, true, commands, Some(bin), extra) == ("/bin/sh"@, seq![
            "/bin/sh"@,
            "-c"@,
            join_with(commands, " && "@),
        ]),
{
}

/// A program sees the usual devices; those for terminals of its own and for file systems
/// only where it may see all.
pub proof fn which_devices_are_seen(all: bool)
    ensures
        ({
            let s = device_list(all);
            &&& s.contains(("null"@, 1u64, 3u64)) && s.contains(("zero"@, 1u64, 5u64))
            &&& s.contains(("random"@, 1u64, 8u64)) && s.contains(("urandom"@, 1u64, 9u64))
            &&& s.contains(("tty"@, 5u64, 0u64))
            &&& s.contains(("ptmx"@, 5u64, 2u64)) <==> all
            &&& s.contains(("fuse"@, 10u64, 229u64)) <==> all
        }),
{
    let s = device_list(all);
    assert(s[0] == ("null"@, 1u64, 3u64) && s[1] == ("zero"@, 1u64, 5u64) && s[2] == ("random"@, 1u64, 8u64) && s[3]
        == ("urandom"@, 1u64, 9u64) && s[4] == ("tty"@, 5u64, 0u64));
    if all {
        assert(s[5] == ("ptmx"@, 5u64, 2u64) && s[6] == ("fuse"@, 10u64, 229u64));
    }
}

} // verus!
