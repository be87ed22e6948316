# rws

Remote workspaces for macOS: a workspace's files stay on their owning host,
are mounted locally over SSHFS or native NFS, and commands run there over
SSH. This crate is the verified core of the `rws` command; `app/` is the
command itself.

## Layout

- `src/` — the library, verified with Verus. Each module states its
  behaviour as `requires`/`ensures` over spec functions and proves it:
  - `text`, `paths`: character-level string and path helpers.
  - `workspace`, `config`: validation of workspaces and of the
    configuration, registration, desired mount state.
  - `transport`, `routing`: the remote command lines and which workspace
    owns a directory, with the Git environment of a repository.
  - `lifecycle`: mount identities, receipts, lock and state paths, the
    remote challenge that ties a volume to its SSH destination.
  - `native_nfs`, `nfs_server`: the NFS mount command and the audited
    server setup.
  - `shell_hook`, `agent_rules`, `autostart`, `launchd_status`,
    `installation`: the generated integrations and the durable install.
  - `maintenance`, `operations`: the decisions of diagnostics, repair,
    connect, disconnect and status.
- `tests/` — tests run against the compiled library.
- `app/` — the command-line program: argument parsing, file and process
  I/O, system calls and serialization. It performs what the library
  decides.

Laws that relate several functions are public proof functions named
`lemma_*`, next to the functions they speak of.
