//! The durable, private installation tree of the macOS client: where its
//! parts live, which SSHFS a configuration selects, and what an activated
//! configuration holds. Creating and copying the files is the caller's.
use vstd::prelude::*;
use vstd::utf8::encode_utf8;
use crate::config::{Config, MountOptions};
use crate::lifecycle::generation_view;
use crate::paths::{file_name, file_name_of, is_absolute, is_absolute_exec, join, join_path, parent, parent_of, same_path, same_path_exec};
use crate::text::{decimal_digits, decimal_string, hex, hex_of, opt_view, same_text, split_on, split_on_exec};
use crate::workspace::Workspace;

verus! {

/// The private Application Support tree of a durable installation.
#[derive(Clone, Debug)]
pub struct Layout {
    pub root: String,
}

impl Layout {
    pub fn at(root: String) -> (l: Self)
        ensures
            l.root@ == root@,
    {
        Layout { root }
    }

    /// `~/Library/Application Support/RWS`.
    pub fn macos(home: &str) -> (l: Self)
        ensures
            l.root@ == join(home@, "Library/Application Support/RWS"@),
    {
        Layout { root: join_path(home, "Library/Application Support/RWS") }
    }

    pub fn config_path(&self) -> (p: String)
        ensures
            p@ == join(self.root@, "config.json"@),
    {
        join_path(self.root.as_str(), "config.json")
    }

    /// The stable path that integrations such as the login agent run.
    pub fn binary(&self) -> (p: String)
        ensures
            p@ == join(self.root@, "bin/rws"@),
    {
        join_path(self.root.as_str(), "bin/rws")
    }

    pub fn bin(&self) -> (p: String)
        ensures
            p@ == join(self.root@, "bin"@),
    {
        join_path(self.root.as_str(), "bin")
    }

    pub fn releases(&self) -> (p: String)
        ensures
            p@ == join(self.root@, "releases"@),
    {
        join_path(self.root.as_str(), "releases")
    }

    pub fn mount_state(&self) -> (p: String)
        ensures
            p@ == join(self.root@, "mount-state"@),
    {
        join_path(self.root.as_str(), "mount-state")
    }

    /// The SSHFS executable staged in a release.
    pub fn release_sshfs(&self, generation: &str) -> (p: String)
        ensures
            p@ == join(join(join(self.root@, "releases"@), generation@), "sshfs/sshfs"@),
    {
        join_path(join_path(self.releases().as_str(), generation).as_str(), "sshfs/sshfs")
    }

    /// Where the new binary is staged before it replaces [`Layout::binary`].
    pub fn staged_binary(&self, pid: u32) -> (p: String)
        ensures
            p@ == join(self.root@, "bin/rws"@) + "."@ + decimal_digits(pid as nat) + ".tmp"@,
    {
        let mut p = self.binary();
        p.append(".");
        p.append(decimal_string(pid as u128).as_str());
        p.append(".tmp");
        p
    }
}

/// What an installation activated.
#[derive(Clone, Debug)]
pub struct Installation {
    pub release: String,
    pub rws: String,
    pub sshfs: String,
    pub generation: String,
}

pub open spec fn configured_sshfs(config: Config) -> Seq<char> {
    match config.mount.sshfs {
        Some(s) => s@,
        None => "sshfs"@,
    }
}

pub open spec fn select_sshfs_spec(config: Config, canonical: bool, inherited: Option<Seq<char>>) -> Result<Seq<char>, Seq<char>> {
    let configured = configured_sshfs(config);
    if canonical {
        match inherited {
            Some(i) => if !same_path(i, configured) {
                Err(
                    "RWS_SSHFS="@ + i + " conflicts with the canonical configured SSHFS "@
                        + configured + "; unset RWS_SSHFS or use the managed configuration"@,
                )
            } else {
                Ok(configured)
            },
            None => Ok(configured),
        }
    } else {
        match inherited {
            Some(i) => Ok(i),
            None => Ok(configured),
        }
    }
}

/// The SSHFS of one invocation. `canonical` says whether the configuration
/// is the managed one; `inherited` is `RWS_SSHFS`. A managed configuration
/// is authoritative: a conflicting inherited override is refused.
pub fn select_sshfs(config: &Config, canonical: bool, inherited: Option<&str>) -> (r: Result<String, String>)
    ensures
        r matches Ok(s) ==> select_sshfs_spec(*config, canonical, opt_view(inherited)) == Ok::<Seq<char>, Seq<char>>(s@),
        r matches Err(e) ==> select_sshfs_spec(*config, canonical, opt_view(inherited)) == Err::<Seq<char>, Seq<char>>(e@),
{
    let configured = match &config.mount.sshfs {
        Some(s) => s.clone(),
        None => String::from_str("sshfs"),
    };
    if canonical {
        if let Some(i) = inherited {
            if !same_path_exec(i, configured.as_str()) {
                let mut e = String::from_str("RWS_SSHFS=");
                e.append(i);
                e.append(" conflicts with the canonical configured SSHFS ");
                e.append(configured.as_str());
                e.append("; unset RWS_SSHFS or use the managed configuration");
                return Err(e);
            }
        }
        Ok(configured)
    } else {
        match inherited {
            Some(i) => Ok(i.to_owned()),
            None => Ok(configured),
        }
    }
}

pub open spec fn sshfs_candidates_spec(search_path: Seq<char>, program: Seq<char>) -> Seq<Seq<char>> {
    let ds = split_on(search_path, ':');
    Seq::new(ds.len(), |i: int| join(ds[i], program))
}

/// The places a relative SSHFS program is looked for, in `PATH` order.
pub fn sshfs_candidates(search_path: &str, program: &str) -> (r: Vec<String>)
    ensures
        r.deep_view() == sshfs_candidates_spec(search_path@, program@),
{
    let ds = split_on_exec(search_path, ':');
    let mut r: Vec<String> = Vec::new();
    let mut i: usize = 0;
    while i < ds.len()
        invariant
            ds.deep_view() == split_on(search_path@, ':'),
            i <= ds.len(),
            r.deep_view() == Seq::new(i as nat, |k: int| join(ds.deep_view()[k], program@)),
        decreases ds.len() - i,
    {
        assert(ds.deep_view()[i as int] == ds@[i as int]@);
        let ghost before = r.deep_view();
        let j = join_path(ds[i].as_str(), program);
        r.push(j);
        proof {
            assert(r.deep_view() =~= before.push(j@));
            assert(r.deep_view() =~= Seq::new((i + 1) as nat, |k: int| join(ds.deep_view()[k], program@)));
        }
        i += 1;
    }
    r
}

/// The message when no candidate is an executable file.
pub fn sshfs_not_found(program: &str) -> (m: String)
    ensures
        m@ == "cannot find executable SSHFS program "@ + program@,
{
    let mut m = String::from_str("cannot find executable SSHFS program ");
    m.append(program);
    m
}

pub open spec fn path_string_spec(path: Seq<char>) -> Result<Seq<char>, Seq<char>> {
    if is_absolute(path) {
        Ok(path)
    } else {
        Err("staged SSHFS path is not absolute"@)
    }
}

/// The staged SSHFS path as the configuration records it.
pub fn path_string(path: &str) -> (r: Result<String, String>)
    ensures
        r matches Ok(s) ==> path_string_spec(path@) == Ok::<Seq<char>, Seq<char>>(s@),
        r matches Err(e) ==> path_string_spec(path@) == Err::<Seq<char>, Seq<char>>(e@),
{
    if !is_absolute_exec(path) {
        return Err(String::from_str("staged SSHFS path is not absolute"));
    }
    Ok(path.to_owned())
}

/// `release-PID-NANOS`: a fresh generation name.
pub fn generation_name(pid: u32, nanos: u128) -> (g: String)
    ensures
        g@ == "release-"@ + decimal_digits(pid as nat) + "-"@ + decimal_digits(nanos as nat),
{
    let mut g = String::from_str("release-");
    g.append(decimal_string(pid as u128).as_str());
    g.append("-");
    g.append(decimal_string(nanos).as_str());
    g
}

pub open spec fn state_directory_spec(config: Seq<char>, generation: Seq<char>) -> Seq<char> {
    let name = match file_name(config) {
        Some(n) => n,
        None => config,
    };
    let base = match parent(config) {
        Some(p) => p,
        None => "."@,
    };
    join(join(join(base, "mount-state"@), generation), "config-"@ + hex_of(encode_utf8(name)))
}

/// The receipt directory of a configuration in a generation.
pub fn state_directory(config: &str, generation: &str) -> (r: String)
    ensures
        r@ == state_directory_spec(config@, generation@),
{
    let name = match file_name_of(config) {
        Some(n) => n,
        None => config.to_owned(),
    };
    let base = match parent_of(config) {
        Some(p) => p,
        None => String::from_str("."),
    };
    let mut namespace = String::from_str("config-");
    namespace.append(hex(name.as_str().as_bytes()).as_str());
    join_path(
        join_path(join_path(base.as_str(), "mount-state").as_str(), generation).as_str(),
        namespace.as_str(),
    )
}

pub open spec fn source_receipt_directory_spec(config: Seq<char>, generation: Option<Seq<char>>) -> Seq<char> {
    match generation {
        Some(g) => state_directory_spec(config, g),
        None => config + ".mount-state"@,
    }
}

/// Where the receipts of the configuration being installed live.
pub fn source_receipt_directory(config: &str, source: &Config) -> (r: String)
    ensures
        r@ == source_receipt_directory_spec(config@, generation_view(*source)),
{
    match &source.mount_state_generation {
        Some(g) => state_directory(config, g.as_str()),
        None => {
            let mut d = config.to_owned();
            d.append(".mount-state");
            d
        },
    }
}

/// Receipts above this size are not migrated.
pub const MAX_RECEIPT_BYTES: u64 = 1048576;

/// A receipt is carried into the new installation only when it is bound to
/// the same destination and mount point as the registered workspace.
pub fn binding_matches(host: &str, remote: &str, root: &str, w: &Workspace) -> (b: bool)
    ensures
        b == (host@ == w.host@ && remote@ == w.remote_root@ && same_path(root@, w.mount_root@)),
{
    same_text(host, w.host.as_str()) && same_text(remote, w.remote_root.as_str())
        && same_path_exec(root, w.mount_root.as_str())
}

/// The configuration that activates a release: the staged SSHFS and the
/// new generation, everything else as in `source`.
pub fn activated(source: Config, staged_sshfs: String, generation: String) -> (c: Config)
    ensures
        c.version == source.version,
        c.workspaces@ == source.workspaces@,
        c.mount.sshfs == Some(staged_sshfs),
        c.mount.fskit == source.mount.fskit,
        c.mount.nfs == source.mount.nfs,
        c.mount_state_generation == Some(generation),
        c.mount_intent@ == source.mount_intent@,
{
    let mut c = source;
    c.mount.sshfs = Some(staged_sshfs);
    c.mount_state_generation = Some(generation);
    c
}

} // verus!

verus! {

/// What the file system says about an executable: whether it is a regular
/// file and its permission bits.
pub struct FileFacts {
    pub is_file: bool,
    pub mode: u32,
}

pub open spec fn validate_executable_spec(path: Seq<char>, label: Seq<char>, facts: Result<FileFacts, String>) -> Result<(), Seq<char>> {
    if !is_absolute(path) {
        Err(label + " executable must be an absolute path"@)
    } else {
        match facts {
            Err(e) => Err("inspect "@ + label + " executable "@ + path + ": "@ + e@),
            Ok(f) => if !f.is_file {
                Err(label + " executable must be a regular file: "@ + path)
            } else if f.mode & 0o111 == 0 {
                Err(label + " executable is not executable: "@ + path)
            } else {
                Ok(())
            },
        }
    }
}

/// An executable must be an absolute path to a regular file with an
/// execute bit. `facts` is what inspecting the path found, or why it could
/// not be inspected.
pub fn validate_executable(path: &str, label: &str, facts: Result<FileFacts, String>) -> (r: Result<(), String>)
    ensures
        r is Ok <==> validate_executable_spec(path@, label@, facts) is Ok,
        r matches Err(e) ==> validate_executable_spec(path@, label@, facts) == Err::<(), Seq<char>>(e@),
{
    if !is_absolute_exec(path) {
        let mut e = label.to_owned();
        e.append(" executable must be an absolute path");
        return Err(e);
    }
    match facts {
        Err(err) => {
            let mut e = String::from_str("inspect ");
            e.append(label);
            e.append(" executable ");
            e.append(path);
            e.append(": ");
            e.append(err.as_str());
            Err(e)
        },
        Ok(f) => {
            if !f.is_file {
                let mut e = label.to_owned();
                e.append(" executable must be a regular file: ");
                e.append(path);
                return Err(e);
            }
            if f.mode & 0o111 == 0 {
                let mut e = label.to_owned();
                e.append(" executable is not executable: ");
                e.append(path);
                return Err(e);
            }
            Ok(())
        },
    }
}

impl Layout {
    /// The managed binary, once it checks out as an executable. `facts` is
    /// what inspecting [`Layout::binary`] found.
    pub fn require_binary(&self, facts: Result<FileFacts, String>) -> (r: Result<String, String>)
        ensures
            r matches Ok(p) ==> p@ == join(self.root@, "bin/rws"@) && validate_executable_spec(p@, "managed RWS binary"@, facts) is Ok,
            r matches Err(e) ==> validate_executable_spec(join(self.root@, "bin/rws"@), "managed RWS binary"@, facts) == Err::<(), Seq<char>>(e@),
    {
        let binary = self.binary();
        validate_executable(binary.as_str(), "managed RWS binary", facts)?;
        Ok(binary)
    }
}

} // verus!

verus! {

pub open spec fn private_directory_spec(path: Seq<char>, facts: Result<crate::lifecycle::PathFacts, String>) -> Result<bool, Seq<char>> {
    match facts {
        Err(e) => Err("inspect private directory "@ + path + ": "@ + e@),
        Ok(f) => if f.is_symlink || !f.is_dir {
            Err("private directory is unsafe: "@ + path)
        } else {
            Ok(f.mode & 0o077 != 0)
        },
    }
}

/// A private directory of the installation must be a real directory;
/// `Ok(true)` when others may reach it and its mode must be narrowed to
/// `0700`. `facts` is what inspecting it found, or why that failed.
pub fn private_directory_check(path: &str, facts: Result<crate::lifecycle::PathFacts, String>) -> (r: Result<bool, String>)
    ensures
        match private_directory_spec(path@, facts) {
            Ok(b) => r == Ok::<bool, String>(b),
            Err(e) => r matches Err(f) && f@ == e,
        },
{
    match facts {
        Err(e) => {
            let mut m = String::from_str("inspect private directory ");
            m.append(path);
            m.append(": ");
            m.append(e.as_str());
            Err(m)
        },
        Ok(f) => {
            if f.is_symlink || !f.is_dir {
                let mut m = String::from_str("private directory is unsafe: ");
                m.append(path);
                return Err(m);
            }
            Ok(f.mode & 0o077 != 0)
        },
    }
}

} // verus!
