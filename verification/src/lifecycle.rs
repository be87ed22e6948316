//! Mount identity and the private state that records which mounts this
//! configuration verified: where receipts and operation locks live, when a
//! receipt authorizes a mount, and the remote challenge that attests one.
use vstd::prelude::*;
use vstd::utf8::encode_utf8;
use crate::config::Config;
use crate::paths::{file_name, file_name_of, join, join_path, parent, parent_of, same_path, same_path_exec};
use crate::text::{
    hex, hex_of, lines, lines_of, parse_i32, parse_i32_spec, same_text, split_once,
    split_once_exec, trim, trim_exec, trim_start, trim_start_exec, words, words_of,
};
use crate::transport::{remote_command, remote_command_spec};
use crate::workspace::Workspace;

verus! {

/// What the OS mount table reports for a mounted root.
#[derive(Clone, Debug)]
pub struct MountIdentity {
    pub source: String,
    pub filesystem: String,
    pub id: Vec<u8>,
}

impl MountIdentity {
    pub open spec fn same_as(self, other: MountIdentity) -> bool {
        self.source@ == other.source@ && self.filesystem@ == other.filesystem@ && self.id@
            == other.id@
    }

    /// Field-by-field equality.
    pub fn same(&self, other: &MountIdentity) -> (b: bool)
        ensures
            b == self.same_as(*other),
    {
        if !same_text(self.source.as_str(), other.source.as_str()) || !same_text(
            self.filesystem.as_str(),
            other.filesystem.as_str(),
        ) || self.id.len() != other.id.len() {
            return false;
        }
        let mut i: usize = 0;
        while i < self.id.len()
            invariant
                self.id@.len() == other.id@.len(),
                i <= self.id@.len(),
                forall|j: int| 0 <= j < i ==> self.id@[j] == other.id@[j],
            decreases self.id.len() - i,
        {
            if self.id[i] != other.id[i] {
                return false;
            }
            i += 1;
        }
        assert(self.id@ =~= other.id@);
        true
    }
}

/// What `record` stores and `verified` compares: the destination and
/// local root a mount was attested for, and its identity then.
#[derive(Clone, Debug)]
pub struct Receipt {
    pub host: String,
    pub remote: String,
    pub root: String,
    pub identity: MountIdentity,
}

/// `config-` and the hexadecimal bytes of the configuration's file name, so
/// that configurations in one directory keep apart.
pub open spec fn config_namespace_spec(config_path: Seq<char>) -> Seq<char> {
    let name = match file_name(config_path) {
        Some(n) => n,
        None => config_path,
    };
    "config-"@ + hex_of(encode_utf8(name))
}

pub fn config_namespace(config_path: &str) -> (r: String)
    ensures
        r@ == config_namespace_spec(config_path@),
{
    let name = match file_name_of(config_path) {
        Some(n) => n,
        None => config_path.to_owned(),
    };
    let mut r = String::from_str("config-");
    r.append(hex(name.as_str().as_bytes()).as_str());
    r
}

/// The directory a path's siblings live in: its parent, or `.` for a bare name.
pub open spec fn parent_or_here(p: Seq<char>) -> Seq<char> {
    match parent(p) {
        Some(d) => if d.len() > 0 {
            d
        } else {
            "."@
        },
        None => "."@,
    }
}

fn parent_or_here_exec(p: &str) -> (r: String)
    ensures
        r@ == parent_or_here(p@),
{
    match parent_of(p) {
        Some(d) => if d.unicode_len() > 0 {
            d
        } else {
            String::from_str(".")
        },
        None => String::from_str("."),
    }
}

pub open spec fn generated_state_directory_spec(config_path: Seq<char>, generation: Option<Seq<char>>) -> Option<Seq<char>> {
    match generation {
        None => None,
        Some(g) => Some(
            join(
                join(join(parent_or_here(config_path), "mount-state"@), g),
                config_namespace_spec(config_path),
            ),
        ),
    }
}

pub open spec fn generation_view(config: Config) -> Option<Seq<char>> {
    match config.mount_state_generation {
        Some(g) => Some(g@),
        None => None,
    }
}

/// `DIR/mount-state/GENERATION/config-HEX` when the configuration names a
/// durable state generation.
pub fn generated_state_directory(config_path: &str, config: &Config) -> (r: Option<String>)
    ensures
        match r {
            Some(d) => generated_state_directory_spec(config_path@, generation_view(*config))
                == Some(d@),
            None => generated_state_directory_spec(config_path@, generation_view(*config)) is None,
        },
{
    match &config.mount_state_generation {
        None => None,
        Some(g) => {
            let base = join_path(parent_or_here_exec(config_path).as_str(), "mount-state");
            let generation = join_path(base.as_str(), g.as_str());
            Some(join_path(generation.as_str(), config_namespace(config_path).as_str()))
        },
    }
}

pub open spec fn receipt_path_spec(config_path: Seq<char>, generation: Option<Seq<char>>, name: Seq<char>) -> Seq<char> {
    match generated_state_directory_spec(config_path, generation) {
        Some(d) => join(d, name + ".json"@),
        None => join(config_path + ".mount-state"@, name + ".json"@),
    }
}

/// Where the receipt of workspace `w` lives: in the generated state
/// directory, or else beside the configuration file (`CONFIG.mount-state`).
pub fn receipt_path(config_path: &str, config: &Config, w: &Workspace) -> (r: String)
    ensures
        r@ == receipt_path_spec(config_path@, generation_view(*config), w.name@),
{
    let mut file = w.name.clone();
    file.append(".json");
    match generated_state_directory(config_path, config) {
        Some(d) => join_path(d.as_str(), file.as_str()),
        None => {
            let mut d = config_path.to_owned();
            d.append(".mount-state");
            join_path(d.as_str(), file.as_str())
        },
    }
}

pub open spec fn legacy_lock_path_spec(config_path: Seq<char>, generation: Option<Seq<char>>, name: Seq<char>) -> Seq<char> {
    let receipt = receipt_path_spec(config_path, generation, name);
    let directory = match generated_state_directory_spec(config_path, generation) {
        Some(d) => d,
        None => config_path + ".mount-state"@,
    };
    if name.len() == 0 || name.last() == '/' {
        receipt + ".lock"@
    } else {
        join(directory, name + ".lock"@)
    }
}

/// The receipt path with its `json` extension replaced by `lock`: the
/// per-generation sentinel that older versions used as the operation lock.
pub fn legacy_lock_path(config_path: &str, config: &Config, w: &Workspace) -> (r: String)
    ensures
        r@ == legacy_lock_path_spec(config_path@, generation_view(*config), w.name@),
{
    let n = crate::text::chars_of(w.name.as_str());
    if n.len() == 0 || n[n.len() - 1] == '/' {
        let mut r = receipt_path(config_path, config, w);
        r.append(".lock");
        return r;
    }
    let directory = match generated_state_directory(config_path, config) {
        Some(d) => d,
        None => {
            let mut d = config_path.to_owned();
            d.append(".mount-state");
            d
        },
    };
    let mut file = w.name.clone();
    file.append(".lock");
    join_path(directory.as_str(), file.as_str())
}

pub open spec fn generated_state_directories_spec(config_path: Seq<char>, generation: Option<Seq<char>>) -> Option<Seq<Seq<char>>> {
    match generated_state_directory_spec(config_path, generation) {
        None => None,
        Some(namespace) => match parent(namespace) {
            None => None,
            Some(g) => match parent(g) {
                None => None,
                Some(root) => Some(seq![root, g, namespace]),
            },
        },
    }
}

/// The `mount-state` root, the generation and the namespace directory, in
/// the order they are created and checked.
pub fn generated_state_directories(config_path: &str, config: &Config) -> (r: Option<Vec<String>>)
    ensures
        match r {
            Some(v) => generated_state_directories_spec(config_path@, generation_view(*config))
                == Some(v.deep_view()),
            None => generated_state_directories_spec(config_path@, generation_view(*config)) is None,
        },
{
    let namespace = generated_state_directory(config_path, config)?;
    let g = parent_of(namespace.as_str())?;
    let root = parent_of(g.as_str())?;
    let mut v: Vec<String> = Vec::new();
    v.push(root);
    v.push(g);
    v.push(namespace);
    assert(v.deep_view() =~= seq![v@[0]@, v@[1]@, v@[2]@]);
    Some(v)
}

/// The operation-lock directory of a (resolved) configuration path.
pub open spec fn operation_lock_directory_spec(config_path: Seq<char>) -> Seq<char> {
    join(parent_or_here(config_path), config_namespace_spec(config_path) + ".mount-operations"@)
}

pub fn operation_lock_directory(config_path: &str) -> (r: String)
    ensures
        r@ == operation_lock_directory_spec(config_path@),
{
    let mut name = config_namespace(config_path);
    name.append(".mount-operations");
    join_path(parent_or_here_exec(config_path).as_str(), name.as_str())
}

/// The advisory lock file of one workspace in that directory.
pub fn advisory_lock_path(directory: &str, w: &Workspace) -> (r: String)
    ensures
        r@ == join(directory@, w.name@ + ".lock"@),
{
    let mut file = w.name.clone();
    file.append(".lock");
    join_path(directory, file.as_str())
}

pub open spec fn legacy_owner_spec(contents: Seq<char>) -> Option<int> {
    match parse_i32_spec(trim(contents)) {
        Some(pid) => if pid > 0 {
            Some(pid)
        } else {
            None
        },
        None => None,
    }
}

/// The process that wrote a legacy lock sentinel, when it names one.
pub fn legacy_owner(contents: &str) -> (r: Option<i32>)
    ensures
        match r {
            Some(p) => legacy_owner_spec(contents@) == Some(p as int),
            None => legacy_owner_spec(contents@) is None,
        },
{
    match parse_i32(trim_exec(contents).as_str()) {
        Some(p) => if p > 0 {
            Some(p)
        } else {
            None
        },
        None => None,
    }
}

pub open spec fn receipt_matches_spec(r: Receipt, w: Workspace, actual: MountIdentity) -> bool {
    &&& r.host@ == w.host@
    &&& r.remote@ == w.remote_root@
    &&& same_path(r.root@, w.mount_root@)
    &&& r.identity.same_as(actual)
}

pub open spec fn verified_spec(
    generation: Option<Seq<char>>,
    state_safe: bool,
    receipt_safe: bool,
    receipt: Option<Receipt>,
    w: Workspace,
    actual: MountIdentity,
) -> bool {
    &&& (generation is Some ==> state_safe && receipt_safe)
    &&& receipt matches Some(r) && receipt_matches_spec(r, w, actual)
}

/// Whether a stored receipt authorizes the mount `actual` for `w`. With a
/// durable generation, the state directories and the receipt file must be
/// private and real (`state_safe`, `receipt_safe`); `receipt` is what the
/// receipt file held, if it could be read and parsed.
pub fn verified(
    config: &Config,
    state_safe: bool,
    receipt_safe: bool,
    receipt: Option<&Receipt>,
    w: &Workspace,
    actual: &MountIdentity,
) -> (b: bool)
    ensures
        b == verified_spec(
            generation_view(*config),
            state_safe,
            receipt_safe,
            match receipt {
                Some(r) => Some(*r),
                None => None,
            },
            *w,
            *actual,
        ),
{
    if config.mount_state_generation.is_some() && !(state_safe && receipt_safe) {
        return false;
    }
    match receipt {
        None => false,
        Some(r) => same_text(r.host.as_str(), w.host.as_str()) && same_text(
            r.remote.as_str(),
            w.remote_root.as_str(),
        ) && same_path_exec(r.root.as_str(), w.mount_root.as_str()) && r.identity.same(actual),
    }
}

/// The receipt that `record` writes for `w` and its identity.
pub fn receipt_for(w: &Workspace, identity: MountIdentity) -> (r: Receipt)
    ensures
        r.host@ == w.host@,
        r.remote@ == w.remote_root@,
        r.root@ == w.mount_root@,
        r.identity == identity,
{
    Receipt {
        host: w.host.clone(),
        remote: w.remote_root.clone(),
        root: w.mount_root.clone(),
        identity,
    }
}

pub open spec fn server_matches_at(words: Seq<Seq<char>>, offset: int, program: Seq<char>, source: Seq<char>, mount_root: Seq<char>) -> bool {
    &&& offset + 2 < words.len()
    &&& words[offset] == program
    &&& words[offset + 1] == source
    &&& words[offset + 2] == mount_root
}

/// The pid of a `ps -axo pid=,command=` line that runs `program SOURCE
/// MOUNT_ROOT`, directly or under an interpreter.
pub open spec fn stale_server_pid(line: Seq<char>, program: Seq<char>, source: Seq<char>, mount_root: Seq<char>) -> Option<int> {
    match split_once(trim_start(line), seq![' ']) {
        None => None,
        Some((pid, command)) => {
            let ws = words(command);
            if server_matches_at(ws, 0, program, source, mount_root) || server_matches_at(
                ws,
                1,
                program,
                source,
                mount_root,
            ) {
                parse_i32_spec(pid)
            } else {
                None
            }
        },
    }
}

pub open spec fn stale_server_pids_spec(ls: Seq<Seq<char>>, program: Seq<char>, source: Seq<char>, mount_root: Seq<char>) -> Seq<int>
    decreases ls.len(),
{
    if ls.len() == 0 {
        Seq::empty()
    } else {
        stale_server_pids_spec(ls.drop_last(), program, source, mount_root) + match stale_server_pid(
            ls.last(),
            program,
            source,
            mount_root,
        ) {
            Some(p) => seq![p],
            None => Seq::empty(),
        }
    }
}

fn matches_at(ws: &Vec<String>, offset: usize, program: &str, source: &str, mount_root: &str) -> (b: bool)
    requires
        offset <= 1,
    ensures
        b == server_matches_at(ws.deep_view(), offset as int, program@, source@, mount_root@),
{
    if offset + 2 >= ws.len() {
        return false;
    }
    assert(ws.deep_view()[offset as int] == ws@[offset as int]@);
    assert(ws.deep_view()[offset + 1] == ws@[offset + 1]@);
    assert(ws.deep_view()[offset + 2] == ws@[offset + 2]@);
    same_text(ws[offset].as_str(), program) && same_text(ws[offset + 1].as_str(), source)
        && same_text(ws[offset + 2].as_str(), mount_root)
}

/// SSHFS servers started for exactly this workspace, from `ps` output: the
/// executable, the source and the mount point as adjacent words. Nothing
/// looser matches, so a path with spaces never matches.
pub fn stale_server_pids(ps_output: &str, program: &str, source: &str, mount_root: &str) -> (r: Vec<i32>)
    ensures
        r@.map_values(|p: i32| p as int) == stale_server_pids_spec(lines(ps_output@), program@, source@, mount_root@),
{
    let ls = lines_of(ps_output);
    let mut out: Vec<i32> = Vec::new();
    let mut i: usize = 0;
    proof {
        assert(ls.deep_view().take(0) =~= Seq::<Seq<char>>::empty());
        assert(out@.map_values(|p: i32| p as int) =~= Seq::<int>::empty());
        reveal_strlit(" ");
    }
    while i < ls.len()
        invariant
            ls.deep_view() == lines(ps_output@),
            i <= ls.len(),
            out@.map_values(|p: i32| p as int) == stale_server_pids_spec(ls.deep_view().take(i as int), program@, source@, mount_root@),
            " "@ == seq![' '],
        decreases ls.len() - i,
    {
        proof {
            assert(ls.deep_view().take(i + 1).drop_last() =~= ls.deep_view().take(i as int));
            assert(ls.deep_view().take(i + 1).last() == ls@[i as int]@);
        }
        let ghost before = out@;
        let t = trim_start_exec(ls[i].as_str());
        if let Some((pid, command)) = split_once_exec(t.as_str(), " ") {
            let ws = words_of(command.as_str());
            if matches_at(&ws, 0, program, source, mount_root) || matches_at(&ws, 1, program, source, mount_root) {
                if let Some(p) = parse_i32(pid.as_str()) {
                    out.push(p);
                    proof {
                        assert(out@.map_values(|p: i32| p as int) =~= before.map_values(|p: i32| p as int).push(p as int));
                    }
                }
            }
        }
        proof {
            assert(out@.map_values(|p: i32| p as int) =~= stale_server_pids_spec(ls.deep_view().take(i + 1), program@, source@, mount_root@));
        }
        i += 1;
    }
    proof {
        assert(ls.deep_view().take(i as int) =~= ls.deep_view());
    }
    out
}

/// The remote script that creates the challenge: an exclusive private
/// directory holding the token, removed again if the write fails.
pub const CREATE_CHALLENGE: &'static str = "umask 077; mkdir -- \"$1\" || exit 1; if ! printf '%s' \"$2\" > \"$1/proof\"; then rm -f -- \"$1/proof\"; rmdir -- \"$1\"; exit 1; fi";

/// The remote script that removes a challenge only when it holds our token.
pub const REMOVE_CHALLENGE: &'static str = "[ -f \"$1/proof\" ] && [ \"$(cat -- \"$1/proof\")\" = \"$2\" ] && rm -- \"$1/proof\" && rmdir -- \"$1\"";

/// The random token and the challenge directory named after it.
pub fn challenge(random: &[u8]) -> (r: (String, String))
    ensures
        r.0@ == hex_of(random@),
        r.1@ == ".rws-verify-"@ + hex_of(random@),
{
    let token = hex(random);
    let mut directory = String::from_str(".rws-verify-");
    directory.append(token.as_str());
    (token, directory)
}

pub open spec fn challenge_argv(script: Seq<char>, args: Seq<Seq<char>>) -> Seq<Seq<char>> {
    seq!["sh"@, "-c"@, script, "rws-verify"@] + args
}

/// The remote command that runs a challenge script with its arguments in
/// the workspace's remote root.
pub fn challenge_command(remote_root: &str, script: &str, args: &[String]) -> (r: Result<String, String>)
    ensures
        r matches Ok(c) ==> remote_command_spec(remote_root@, challenge_argv(script@, args@.map_values(|a: String| a@))) == Ok::<Seq<char>, Seq<char>>(c@),
        r matches Err(e) ==> remote_command_spec(remote_root@, challenge_argv(script@, args@.map_values(|a: String| a@))) == Err::<Seq<char>, Seq<char>>(e@),
{
    let mut argv: Vec<String> = Vec::new();
    argv.push(String::from_str("sh"));
    argv.push(String::from_str("-c"));
    argv.push(script.to_owned());
    argv.push(String::from_str("rws-verify"));
    let mut i: usize = 0;
    while i < args.len()
        invariant
            i <= args@.len(),
            argv.deep_view() == challenge_argv(script@, args@.map_values(|a: String| a@).take(i as int)),
        decreases args.len() - i,
    {
        let ghost before = argv.deep_view();
        argv.push(args[i].clone());
        proof {
            assert(argv.deep_view() =~= before.push(args@[i as int]@));
            assert(args@.map_values(|a: String| a@).take(i + 1) =~= args@.map_values(|a: String| a@).take(i as int).push(args@[i as int]@));
        }
        i += 1;
    }
    proof {
        assert(args@.map_values(|a: String| a@).take(i as int) =~= args@.map_values(|a: String| a@));
    }
    remote_command(remote_root, argv.as_slice())
}

/// Why a challenge could not be created, and whether its traces were removed.
pub fn challenge_failure(detail: &str, removed: bool, remote_root: &str, directory: &str) -> (m: String)
    ensures
        m@ == "cannot create remote verification challenge (workspace must be writable): "@
            + detail@ + "; "@ + (if removed {
            "removed"@
        } else {
            "inspect for any remaining challenge at"@
        }) + " "@ + remote_root@ + "/"@ + directory@,
{
    let mut m = String::from_str("cannot create remote verification challenge (workspace must be writable): ");
    m.append(detail);
    m.append("; ");
    if removed {
        m.append("removed");
    } else {
        m.append("inspect for any remaining challenge at");
    }
    m.append(" ");
    m.append(remote_root);
    m.append("/");
    m.append(directory);
    m
}

/// The mount is adopted only when the file read through it holds the token.
pub fn proof_matches(read_succeeded: bool, contents: &[u8], token: &str) -> (b: bool)
    ensures
        b == (read_succeeded && contents@ == encode_utf8(token@)),
{
    if !read_succeeded {
        return false;
    }
    let t = token.as_bytes();
    if contents.len() != t.len() {
        return false;
    }
    let mut i: usize = 0;
    while i < t.len()
        invariant
            contents@.len() == t@.len(),
            t@ == encode_utf8(token@),
            i <= t@.len(),
            forall|j: int| 0 <= j < i ==> contents@[j] == t@[j],
        decreases t.len() - i,
    {
        if contents[i] != t[i] {
            return false;
        }
        i += 1;
    }
    assert(contents@ =~= t@);
    true
}

/// Why a challenge that was read could not be cleaned up.
pub fn cleanup_failure(remote_root: &str, directory: &str) -> (m: String)
    ensures
        m@ == "remote verification cleanup failed; inspect "@ + remote_root@ + "/"@ + directory@
            + "; mount not adopted"@,
{
    let mut m = String::from_str("remote verification cleanup failed; inspect ");
    m.append(remote_root);
    m.append("/");
    m.append(directory);
    m.append("; mount not adopted");
    m
}

} // verus!

verus! {

/// The mount identity where no mount table can be read: only macOS
/// exposes one to this program, so elsewhere the question is refused.
pub fn identity(root: &str) -> (r: Result<Option<MountIdentity>, String>)
    ensures
        r matches Err(e) && e@ == "mount inspection is currently supported on macOS only"@,
{
    Err(String::from_str("mount inspection is currently supported on macOS only"))
}

} // verus!

verus! {

/// A receipt recorded for a workspace and a mount identity vouches for a
/// mount of that workspace exactly when the mount still has that identity
/// (and, with a durable generation, the state is private and real).
pub proof fn lemma_recorded_receipt_verifies(
    r: Receipt,
    w: Workspace,
    recorded: MountIdentity,
    actual: MountIdentity,
    generation: Option<Seq<char>>,
)
    requires
        r.host@ == w.host@,
        r.remote@ == w.remote_root@,
        r.root@ == w.mount_root@,
        r.identity == recorded,
    ensures
        verified_spec(generation, true, true, Some(r), w, actual) <==> recorded.same_as(actual),
        verified_spec(generation, true, true, Some(r), w, recorded),
{
}

/// A receipt never vouches for a workspace with another SSH destination or
/// remote root.
pub proof fn lemma_receipt_binds_destination(
    r: Receipt,
    w: Workspace,
    actual: MountIdentity,
    generation: Option<Seq<char>>,
    state_safe: bool,
    receipt_safe: bool,
)
    requires
        r.host@ != w.host@ || r.remote@ != w.remote_root@,
    ensures
        !verified_spec(generation, state_safe, receipt_safe, Some(r), w, actual),
{
}

} // verus!

verus! {

proof fn lemma_hex_digit_injective(a: int, b: int)
    requires
        0 <= a < 16,
        0 <= b < 16,
        crate::text::hex_digit(a) == crate::text::hex_digit(b),
    ensures
        a == b,
{
    let ca = crate::text::hex_digit(a);
    let cb = crate::text::hex_digit(b);
    assert(ca as int == if a < 10 { 48 + a } else { 97 + a - 10 });
    assert(cb as int == if b < 10 { 48 + b } else { 97 + b - 10 });
}

proof fn lemma_hex_len(u: Seq<u8>)
    ensures
        hex_of(u).len() == 2 * u.len(),
    decreases u.len(),
{
    if u.len() > 0 {
        lemma_hex_len(u.drop_last());
    }
}

/// Different bytes never write the same hexadecimal text.
pub proof fn lemma_hex_injective(u: Seq<u8>, v: Seq<u8>)
    requires
        hex_of(u) == hex_of(v),
    ensures
        u == v,
    decreases u.len(),
{
    lemma_hex_len(u);
    lemma_hex_len(v);
    if u.len() > 0 {
        let h = hex_of(u);
        let n = h.len();
        assert(hex_of(u.drop_last()) =~= h.take(n - 2));
        assert(hex_of(v.drop_last()) =~= h.take(n - 2));
        lemma_hex_injective(u.drop_last(), v.drop_last());
        let a = u.last();
        let b = v.last();
        assert(h[n - 2] == crate::text::hex_digit(a as int / 16));
        assert(h[n - 2] == crate::text::hex_digit(b as int / 16));
        assert(h[n - 1] == crate::text::hex_digit(a as int % 16));
        assert(h[n - 1] == crate::text::hex_digit(b as int % 16));
        lemma_hex_digit_injective(a as int / 16, b as int / 16);
        lemma_hex_digit_injective(a as int % 16, b as int % 16);
        assert(a == b);
        assert(u =~= u.drop_last().push(a));
        assert(v =~= v.drop_last().push(b));
    }
}

/// Configuration files in one directory keep their receipts apart: the
/// namespace is the hexadecimal UTF-8 of the file name, and different names
/// give different receipt paths in every generation.
#[verifier::spinoff_prover]
pub proof fn lemma_separate_configs_separate_receipts(a: Seq<char>, b: Seq<char>, generation: Seq<char>, name: Seq<char>)
    requires
        parent(a) == parent(b),
        file_name(a) is Some,
        file_name(b) is Some,
        file_name(a) != file_name(b),
        name.len() == 0 || name[0] != '/',
    ensures
        config_namespace_spec(a) != config_namespace_spec(b),
        receipt_path_spec(a, Some(generation), name) != receipt_path_spec(b, Some(generation), name),
{
    reveal_strlit("config-");
    reveal_strlit(".json");
    let na = file_name(a)->0;
    let nb = file_name(b)->0;
    let ha = hex_of(encode_utf8(na));
    let hb = hex_of(encode_utf8(nb));
    let sa = config_namespace_spec(a);
    let sb = config_namespace_spec(b);
    if sa == sb {
        assert(ha =~= sa.skip(7));
        assert(hb =~= sb.skip(7));
        lemma_hex_injective(encode_utf8(na), encode_utf8(nb));
        vstd::utf8::encode_utf8_decode_utf8(na);
        vstd::utf8::encode_utf8_decode_utf8(nb);
    }
    let g = join(join(parent_or_here(a), "mount-state"@), generation);
    assert(parent_or_here(a) == parent_or_here(b));
    let file = name + ".json"@;
    assert(sa[0] == 'c' && sb[0] == 'c');
    assert(!crate::paths::is_absolute(sa) && !crate::paths::is_absolute(sb));
    let sep: Seq<char> = if g.len() > 0 && g.last() != '/' {
        seq!['/']
    } else {
        Seq::empty()
    };
    let da = join(g, sa);
    let db = join(g, sb);
    assert(da == g + sep + sa);
    assert(db == g + sep + sb);
    lemma_hex_len(encode_utf8(na));
    lemma_hex_len(encode_utf8(nb));
    let ra = receipt_path_spec(a, Some(generation), name);
    let rb = receipt_path_spec(b, Some(generation), name);
    assert(!crate::paths::is_absolute(file)) by {
        if name.len() == 0 {
            assert(file[0] == '.');
        } else {
            assert(file[0] == name[0]);
        }
    }
    assert(da.len() > 0 && da.last() != '/') by {
        assert(da.last() == sa.last());
        if sa.len() > 7 {
            assert(sa.last() == ha.last());
            assert(ha.last() as int >= 48);
        }
    }
    assert(db.len() > 0 && db.last() != '/') by {
        assert(db.last() == sb.last());
        if sb.len() > 7 {
            assert(sb.last() == hb.last());
            assert(hb.last() as int >= 48);
        }
    }
    assert(ra == da + seq!['/'] + file);
    assert(rb == db + seq!['/'] + file);
    assert(ra.len() == g.len() + sep.len() + sa.len() + 1 + file.len());
    assert(rb.len() == g.len() + sep.len() + sb.len() + 1 + file.len());
    if ra == rb {
        assert(sa.len() == sb.len());
        assert forall|i: int| 0 <= i < sa.len() implies sa[i] == sb[i] by {
            assert(ra[g.len() + sep.len() + i] == sa[i]);
            assert(rb[g.len() + sep.len() + i] == sb[i]);
        }
        assert(sa =~= sb);
    }
}

} // verus!

verus! {

/// What the file system says about a path of the private state: its kind,
/// whether this user owns it, and its permission bits.
pub struct PathFacts {
    pub is_symlink: bool,
    pub is_dir: bool,
    pub is_file: bool,
    pub owned: bool,
    pub mode: u32,
}

/// Only this user may reach the private state: owned, and mode `0?00`.
pub open spec fn private_to_user(f: PathFacts) -> bool {
    f.owned && f.mode & 0o077 == 0
}

pub open spec fn state_directory_check_spec(directory: Seq<char>, facts: Result<PathFacts, String>) -> Result<(), Seq<char>> {
    match facts {
        Err(e) => Err("inspect generated mount state "@ + directory + ": "@ + e@),
        Ok(f) => if f.is_symlink || !f.is_dir {
            Err("unsafe generated mount state directory: "@ + directory)
        } else if !private_to_user(f) {
            Err(
                "generated mount state directory must be owned by this user and mode 0700: "@
                    + directory,
            )
        } else {
            Ok(())
        },
    }
}

/// A generated state directory must be a real directory private to this
/// user. `facts` is what inspecting it found, or why that failed.
pub fn state_directory_check(directory: &str, facts: Result<PathFacts, String>) -> (r: Result<(), String>)
    ensures
        r is Ok <==> state_directory_check_spec(directory@, facts) is Ok,
        r matches Err(e) ==> state_directory_check_spec(directory@, facts) == Err::<(), Seq<char>>(e@),
{
    match facts {
        Err(e) => {
            let mut m = String::from_str("inspect generated mount state ");
            m.append(directory);
            m.append(": ");
            m.append(e.as_str());
            Err(m)
        },
        Ok(f) => {
            if f.is_symlink || !f.is_dir {
                let mut m = String::from_str("unsafe generated mount state directory: ");
                m.append(directory);
                return Err(m);
            }
            if !f.owned || f.mode & 0o077 != 0 {
                let mut m = String::from_str(
                    "generated mount state directory must be owned by this user and mode 0700: ",
                );
                m.append(directory);
                return Err(m);
            }
            Ok(())
        },
    }
}

/// A durable receipt is trusted only as a regular file private to this
/// user; `facts` is `None` when it could not be inspected.
pub fn receipt_file_safe(facts: Option<PathFacts>) -> (b: bool)
    ensures
        b == (facts matches Some(f) && !f.is_symlink && f.is_file && private_to_user(f)),
{
    match facts {
        None => false,
        Some(f) => !f.is_symlink && f.is_file && f.owned && f.mode & 0o077 == 0,
    }
}

} // verus!

verus! {

/// What the challenge creation reported: `None` when it succeeded, else
/// the detail to report (the trimmed standard error, or why SSH failed).
pub fn creation_failure_detail(created: Result<(bool, String), String>) -> (r: Option<String>)
    ensures
        match created {
            Ok((true, _)) => r is None,
            Ok((false, stderr)) => r matches Some(d) && d@ == trim(stderr@),
            Err(e) => r == Some(e),
        },
{
    match created {
        Ok((true, _)) => None,
        Ok((false, stderr)) => Some(trim_exec(stderr.as_str())),
        Err(e) => Some(e),
    }
}

pub open spec fn identity_changed_error() -> Seq<char> {
    "mount identity changed during verification"@
}

/// The mount at the root must still be the one being attested.
pub fn identity_unchanged(current: Result<Option<MountIdentity>, String>, expected: &MountIdentity) -> (r: Result<(), String>)
    ensures
        match current {
            Err(e) => r == Err::<(), String>(e),
            Ok(Some(a)) => if a.same_as(*expected) {
                r is Ok
            } else {
                r matches Err(e) && e@ == identity_changed_error()
            },
            Ok(None) => r matches Err(e) && e@ == identity_changed_error(),
        },
{
    match current {
        Err(e) => Err(e),
        Ok(Some(a)) => if a.same(expected) {
            Ok(())
        } else {
            Err(String::from_str("mount identity changed during verification"))
        },
        Ok(None) => Err(String::from_str("mount identity changed during verification")),
    }
}

/// The proof file read through the mount must hold the token. `read` is
/// whether the read succeeded and what it produced, or why it could not run.
pub fn proof_check(read: Result<(bool, Vec<u8>), String>, token: &str) -> (r: Result<(), String>)
    ensures
        match read {
            Err(e) => r == Err::<(), String>(e),
            Ok((ok, contents)) => if ok && contents@ == encode_utf8(token@) {
                r is Ok
            } else {
                r matches Err(e) && e@ == "mounted files do not match the configured SSH destination"@
            },
        },
{
    match read {
        Err(e) => Err(e),
        Ok((ok, contents)) => if proof_matches(ok, contents.as_slice(), token) {
            Ok(())
        } else {
            Err(String::from_str("mounted files do not match the configured SSH destination"))
        },
    }
}

/// The observations of an attestation, in the order they are made: the
/// identity before the proof is read, the proof, and the identity after.
#[derive(Clone, Copy, Debug, PartialEq, Eq, Structural)]
pub enum AttestStage {
    CheckBefore,
    ReadProof,
    CheckAfter,
}

/// What an attestation does next: observe a stage, or finish with a result.
pub enum AttestNext {
    Observe(AttestStage),
    Finish(Result<(), String>),
}

/// An attestation starts by checking the identity.
pub fn attest_start() -> (n: AttestNext)
    ensures
        n == AttestNext::Observe(AttestStage::CheckBefore),
{
    AttestNext::Observe(AttestStage::CheckBefore)
}

/// After a stage's outcome: the first failure ends the attestation with
/// that failure; otherwise the next stage follows, and after the last the
/// attestation succeeds.
pub fn attest_advance(stage: AttestStage, outcome: Result<(), String>) -> (n: AttestNext)
    ensures
        match outcome {
            Err(e) => n == AttestNext::Finish(Err::<(), String>(e)),
            Ok(()) => match stage {
                AttestStage::CheckBefore => n == AttestNext::Observe(AttestStage::ReadProof),
                AttestStage::ReadProof => n == AttestNext::Observe(AttestStage::CheckAfter),
                AttestStage::CheckAfter => n == AttestNext::Finish(Ok::<(), String>(())),
            },
        },
{
    match outcome {
        Err(e) => AttestNext::Finish(Err(e)),
        Ok(()) => match stage {
            AttestStage::CheckBefore => AttestNext::Observe(AttestStage::ReadProof),
            AttestStage::ReadProof => AttestNext::Observe(AttestStage::CheckAfter),
            AttestStage::CheckAfter => AttestNext::Finish(Ok(())),
        },
    }
}

/// The result of an attestation once its challenge was removed (or not):
/// a failed cleanup overrides any result, so the mount is never adopted
/// while the challenge remains.
pub fn attest_verdict(checks: Result<(), String>, cleanup_ok: bool, remote_root: &str, directory: &str) -> (r: Result<(), String>)
    ensures
        !cleanup_ok ==> (r matches Err(e) && e@ == "remote verification cleanup failed; inspect "@
            + remote_root@ + "/"@ + directory@ + "; mount not adopted"@),
        cleanup_ok ==> r == checks,
{
    if !cleanup_ok {
        return Err(cleanup_failure(remote_root, directory));
    }
    checks
}

} // verus!
