# hpm

hpm is a package manager for programs that live in one's own home directory. It
installs packages from git repositories or from releases, keeps several versions
of each side by side, runs their programs apart from the rest of the system, and
remembers enough to go back.

The decisions of hpm are a library that is verified with Verus: every function
states what it returns for every input, and the proof that it does is checked.
The program around it reads files, talks to repositories and to the kernel, and
carries out what the library decides.

## Layout

- `src/` is the library.
  - `manifest`, `config`: what a package says of itself.
  - `state`, `db`: what is installed, the snapshots of it, and how both are
    recorded.
  - `repo`: the index of packages, their metadata, and searching them.
  - `utils`, `number`, `order`, `pattern`, `text`: versions, numbers and text.
  - `sandbox`, `hooks`, `squash`: how programs and hooks are run, and how packages
    are compressed.
  - `commands`: one module for each thing that hpm does. `commands/solver` finds
    versions that go together, `commands/installing` and `commands/remove` list the
    steps of an installation and of a removal, and `commands/doctor` finds what is
    out of order.
- `tests/` runs the library on values.
- `app/` is the program: the command line, the disk, the network, the database,
  git, signatures, and the calls of the kernel that keep programs apart.

## What is proved

Besides what each function states, the library proves laws that tie functions
together; they are the public proof functions. Among them:

- what is saved of the installed packages and of the history is what is loaded
  (`db::save_then_load`, `db::save_then_load_history`);
- versions that are chosen for a batch do not conflict, with each other or with
  what is installed, and are the first that do not
  (`commands::solver::search_is_sound`, `search_is_complete`, `solution_is_first`);
- a package is recorded only once it is in place
  (`commands::installing::recorded_only_when_in_place`);
- removing what was installed undoes it (`state::remove_undoes_update`);
- installing, installing again, pinning and removing keep right what is recorded
  of who requires whom (`state::update_keeps_links`, `state::remove_keeps_links`,
  `commands::history::pin_keeps_links`), and where that is right, an installed
  version that an installed one depends on is no orphan
  (`state::dependency_is_no_orphan`);
- a pinned package is never updated, and updates lead forward
  (`commands::update::pinned_stays_and_updates_lead_forward`);
- a program runs only after it was tried to limit what it may use and call
  (`sandbox::confined_before_executed`), a host that lacks a layer does not keep it
  from running (`sandbox::missing_layers_stop_no_program`), and a hook has no
  network unless its package asks for it (`sandbox::hooks_get_no_network_by_default`);
- no address of a local file and none of the machine itself is accepted for a
  repository (`repo::file_url_is_refused`, `repo::accepted_url_is_remote`,
  `repo::localhost_is_refused`).

What the library takes from other crates and from the standard library without
proof is marked where it is used: SHA-256 and hexadecimal digits, the parser of
manifests and its maps, JSON, and some functions on text.
