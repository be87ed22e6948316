//! Which registered workspace a local directory belongs to, and how Git's
//! Mac-side metadata paths are scoped to one remote command. The caller
//! resolves paths on disk; every decision is taken here.
use vstd::prelude::*;
use crate::config::Config;
use crate::paths::{
    components, components_of, is_absolute, is_absolute_exec, join, join_path, path_starts_with,
    same_path, same_path_exec, starts_with_path,
};
use crate::text::{
    chars_of, contains_char, decimal_digits, decimal_string, has_char, has_prefix, join_with,
    starts_with, string_of, trim_end_char, trim_end_char_exec,
};
use crate::workspace::{suffix_components, Workspace};

verus! {

pub open spec fn escape_error() -> Seq<char> {
    "working directory escapes its registered RWS workspace through a symlink"@
}

/// The remote directory for `physical` in `w`, as `Workspace::remote_path`
/// computes it after canonicalizing the mount root (`canonical_root`).
pub open spec fn remote_for(w: Workspace, canonical_root: Result<Seq<char>, Seq<char>>, physical: Seq<char>) -> Result<Seq<char>, Seq<char>> {
    if !w.is_valid() {
        Err(w.validation_error().unwrap())
    } else {
        match canonical_root {
            Err(e) => Err(e),
            Ok(root) => w.remote_path_spec(root, physical),
        }
    }
}

/// What one workspace says of the directory: an error, its remote
/// directory when it contains the directory, or nothing.
pub open spec fn workspace_step(
    w: Workspace,
    root: Result<Seq<char>, Seq<char>>,
    canonical_root: Result<Seq<char>, Seq<char>>,
    directory: Seq<char>,
    physical: Seq<char>,
    ancestors: Seq<Seq<char>>,
) -> Result<Option<Seq<char>>, Seq<char>> {
    match root {
        Err(e) => Err(e),
        Ok(r) => {
            let aliased = path_starts_with(directory, w.mount_root@) || exists|i: int|
                0 <= i < ancestors.len() && path_starts_with(#[trigger] ancestors[i], r);
            if aliased && !path_starts_with(physical, r) {
                Err(escape_error())
            } else if path_starts_with(physical, r) {
                match remote_for(w, canonical_root, physical) {
                    Err(e) => Err(e),
                    Ok(remote) => Ok(Some(remote)),
                }
            } else {
                Ok(None)
            }
        },
    }
}

pub open spec fn res_view(r: Result<String, String>) -> Result<Seq<char>, Seq<char>> {
    match r {
        Ok(s) => Ok(s@),
        Err(e) => Err(e@),
    }
}

/// The matches among the first `n` workspaces, in order, or the first error.
pub open spec fn scan(
    ws: Seq<Workspace>,
    roots: Seq<Result<String, String>>,
    canonical_roots: Seq<Result<String, String>>,
    directory: Seq<char>,
    physical: Seq<char>,
    ancestors: Seq<Seq<char>>,
    n: nat,
) -> Result<Seq<(Workspace, Seq<char>)>, Seq<char>>
    decreases n,
{
    if n == 0 {
        Ok(Seq::empty())
    } else {
        match scan(ws, roots, canonical_roots, directory, physical, ancestors, (n - 1) as nat) {
            Err(e) => Err(e),
            Ok(prev) => match workspace_step(
                ws[n - 1],
                res_view(roots[n - 1]),
                res_view(canonical_roots[n - 1]),
                directory,
                physical,
                ancestors,
            ) {
                Err(e) => Err(e),
                Ok(Some(remote)) => Ok(prev.push((ws[n - 1], remote))),
                Ok(None) => Ok(prev),
            },
        }
    }
}

/// A directory under `/Volumes/RWS-*`.
pub open spec fn on_rws_volume(directory: Seq<char>) -> bool {
    path_starts_with(directory, "/Volumes"@) && components(directory).len() > 2 && has_prefix(
        components(directory)[2],
        "RWS-"@,
    )
}

pub open spec fn resolve_directory_spec(
    ws: Seq<Workspace>,
    directory: Seq<char>,
    physical: Seq<char>,
    is_dir: bool,
    ancestors: Seq<Seq<char>>,
    roots: Seq<Result<String, String>>,
    canonical_roots: Seq<Result<String, String>>,
) -> Result<Option<(Workspace, Seq<char>)>, Seq<char>> {
    if !is_absolute(directory) {
        Err("working directory must be an absolute filesystem path, not a worktree:// URI"@)
    } else if !is_dir {
        Err("working directory must be a directory"@)
    } else {
        match scan(ws, roots, canonical_roots, directory, physical, ancestors, ws.len()) {
            Err(e) => Err(e),
            Ok(matches) => if matches.len() == 0 {
                if on_rws_volume(directory) {
                    Err(
                        "unregistered RWS volume; register it before running commands; no local fallback"@,
                    )
                } else {
                    Ok(None)
                }
            } else if matches.len() == 1 {
                Ok(Some(matches[0]))
            } else {
                Err("working directory matches multiple RWS workspaces"@)
            },
        }
    }
}

fn step_exec(
    w: &Workspace,
    root: &Result<String, String>,
    canonical_root: &Result<String, String>,
    directory: &str,
    physical: &str,
    ancestors: &[String],
) -> (r: Result<Option<String>, String>)
    ensures
        match workspace_step(*w, res_view(*root), res_view(*canonical_root), directory@, physical@, ancestors@.map_values(|a: String| a@)) {
            Err(e) => r matches Err(f) && f@ == e,
            Ok(None) => r matches Ok(None),
            Ok(Some(x)) => r matches Ok(Some(y)) && y@ == x,
        },
{
    let r = match root {
        Err(e) => {
            return Err(e.clone());
        },
        Ok(r) => r,
    };
    let ghost av = ancestors@.map_values(|a: String| a@);
    let mut aliased = starts_with_path(directory, w.mount_root.as_str());
    let mut i: usize = 0;
    while i < ancestors.len() && !aliased
        invariant
            av == ancestors@.map_values(|a: String| a@),
            i <= ancestors@.len(),
            aliased <==> (path_starts_with(directory@, w.mount_root@) || exists|k: int|
                0 <= k < i && path_starts_with(#[trigger] av[k], r@)),
        decreases ancestors.len() - i,
    {
        if starts_with_path(ancestors[i].as_str(), r.as_str()) {
            assert(path_starts_with(av[i as int], r@));
            aliased = true;
        }
        i += 1;
    }
    proof {
        if !aliased {
            assert(i == ancestors@.len());
        }
    }
    let inside = starts_with_path(physical, r.as_str());
    if aliased && !inside {
        return Err(String::from_str("working directory escapes its registered RWS workspace through a symlink"));
    }
    if !inside {
        return Ok(None);
    }
    w.validate()?;
    match canonical_root {
        Err(e) => Err(e.clone()),
        Ok(cr) => {
            let remote = w.remote_path(cr.as_str(), physical)?;
            Ok(Some(remote))
        },
    }
}

fn on_rws_volume_exec(directory: &str) -> (b: bool)
    ensures
        b == on_rws_volume(directory@),
{
    if !starts_with_path(directory, "/Volumes") {
        return false;
    }
    let cs = components_of(directory);
    if cs.len() <= 2 {
        return false;
    }
    assert(cs.deep_view()[2] == cs@[2]@);
    starts_with(cs[2].as_str(), "RWS-")
}

/// The workspace that contains `directory` and the remote directory it maps
/// to, or `None` outside every workspace. The caller supplies what it
/// resolved on disk: `physical`, the canonical directory, and whether it is
/// a directory; `ancestors`, the canonical form of each proper ancestor;
/// and, for each workspace in order, its mount root resolved through its
/// deepest existing ancestor (`roots`) and canonicalized (`canonical_roots`).
/// A directory that reaches a workspace through a symlinked alias without
/// being inside it is refused.
pub fn resolve_directory(
    config: &Config,
    directory: &str,
    physical: &str,
    is_dir: bool,
    ancestors: &[String],
    roots: &[Result<String, String>],
    canonical_roots: &[Result<String, String>],
) -> (r: Result<Option<(Workspace, String)>, String>)
    requires
        roots@.len() == config.workspaces@.len(),
        canonical_roots@.len() == config.workspaces@.len(),
    ensures
        match resolve_directory_spec(config.workspaces@, directory@, physical@, is_dir, ancestors@.map_values(|a: String| a@), roots@, canonical_roots@) {
            Err(e) => r matches Err(f) && f@ == e,
            Ok(None) => r matches Ok(None),
            Ok(Some((w, x))) => r matches Ok(Some((v, y))) && v == w && y@ == x,
        },
{
    if !is_absolute_exec(directory) {
        return Err(String::from_str("working directory must be an absolute filesystem path, not a worktree:// URI"));
    }
    if !is_dir {
        return Err(String::from_str("working directory must be a directory"));
    }
    let ghost ws = config.workspaces@;
    let ghost av = ancestors@.map_values(|a: String| a@);
    let mut matches: Vec<(Workspace, String)> = Vec::new();
    let mut i: usize = 0;
    while i < config.workspaces.len()
        invariant
            ws == config.workspaces@,
            av == ancestors@.map_values(|a: String| a@),
            is_absolute(directory@),
            is_dir,
            roots@.len() == ws.len(),
            canonical_roots@.len() == ws.len(),
            i <= ws.len(),
            scan(ws, roots@, canonical_roots@, directory@, physical@, av, i as nat) matches Ok(m)
                && m.len() == matches@.len() && forall|k: int| 0 <= k < m.len() ==> (
            #[trigger] m[k]).0 == matches@[k].0 && m[k].1 == matches@[k].1@,
        decreases ws.len() - i,
    {
        let step = step_exec(&config.workspaces[i], &roots[i], &canonical_roots[i], directory, physical, ancestors);
        match step {
            Err(e) => {
                proof {
                    lemma_scan_error(ws, roots@, canonical_roots@, directory@, physical@, av, (i + 1) as nat, ws.len());
                }
                return Err(e);
            },
            Ok(None) => {},
            Ok(Some(remote)) => {
                let w = config.workspaces[i].duplicate();
                matches.push((w, remote));
            },
        }
        i += 1;
    }
    let ghost m = scan(ws, roots@, canonical_roots@, directory@, physical@, av, ws.len())->Ok_0;
    if matches.len() == 0 {
        if on_rws_volume_exec(directory) {
            return Err(String::from_str("unregistered RWS volume; register it before running commands; no local fallback"));
        }
        return Ok(None);
    }
    if matches.len() == 1 {
        let only = matches.pop().unwrap();
        assert(m[0].0 == only.0 && m[0].1 == only.1@);
        return Ok(Some(only));
    }
    Err(String::from_str("working directory matches multiple RWS workspaces"))
}

proof fn lemma_scan_error(
    ws: Seq<Workspace>,
    roots: Seq<Result<String, String>>,
    canonical_roots: Seq<Result<String, String>>,
    directory: Seq<char>,
    physical: Seq<char>,
    ancestors: Seq<Seq<char>>,
    n: nat,
    m: nat,
)
    requires
        n <= m,
        scan(ws, roots, canonical_roots, directory, physical, ancestors, n) is Err,
    ensures
        scan(ws, roots, canonical_roots, directory, physical, ancestors, m) == scan(
            ws,
            roots,
            canonical_roots,
            directory,
            physical,
            ancestors,
            n,
        ),
    decreases m - n,
{
    if n < m {
        lemma_scan_error(ws, roots, canonical_roots, directory, physical, ancestors, n, (m - 1) as nat);
    }
}

pub open spec fn unsupported_path(value: Seq<char>) -> bool {
    value.len() == 0 || has_char(value, '\0') || has_char(value, '\n') || has_char(value, '\r')
}

/// `Path::strip_prefix`, as the remaining components joined by `/`.
pub open spec fn stripped(p: Seq<char>, base: Seq<char>) -> Seq<char> {
    join_with(suffix_components(p, base), seq!['/'])
}

/// A path that Git metadata names: an absolute remote path under the
/// workspace's remote root maps to the mount; anything else is taken
/// relative to `base`.
pub open spec fn git_path_spec(w: Workspace, base: Seq<char>, value: Seq<char>) -> Result<Seq<char>, Seq<char>> {
    if unsupported_path(value) {
        Err("unsupported Git metadata path"@)
    } else if is_absolute(value) && !path_starts_with(value, w.mount_root@) && path_starts_with(
        value,
        w.remote_root@,
    ) {
        Ok(join(w.mount_root@, stripped(value, w.remote_root@)))
    } else {
        Ok(join(base, value))
    }
}

fn stripped_exec(p: &str, base: &str) -> (r: String)
    requires
        path_starts_with(p@, base@),
    ensures
        r@ == stripped(p@, base@),
{
    let pc = components_of(p);
    let bc = components_of(base);
    let mut out = String::new();
    let mut i = bc.len();
    let ghost rest = suffix_components(p@, base@);
    proof {
        assert(pc.deep_view().skip(bc.len() as int).take(0) =~= Seq::<Seq<char>>::empty());
    }
    while i < pc.len()
        invariant
            bc.len() <= i <= pc.len(),
            pc.deep_view() == components(p@),
            bc.deep_view() == components(base@),
            rest == pc.deep_view().skip(bc.len() as int),
            out@ == join_with(rest.take(i - bc.len()), seq!['/']),
        decreases pc.len() - i,
    {
        let ghost k = i - bc.len();
        proof {
            assert(rest.take(k + 1).drop_last() =~= rest.take(k));
        }
        if i > bc.len() {
            crate::text::push_char(&mut out, '/');
        }
        out.append(pc[i].as_str());
        i += 1;
    }
    proof {
        assert(rest.take(i - bc.len()) =~= rest);
    }
    out
}

pub fn git_path(w: &Workspace, base: &str, value: &str) -> (r: Result<String, String>)
    ensures
        r matches Ok(p) ==> git_path_spec(*w, base@, value@) == Ok::<Seq<char>, Seq<char>>(p@),
        r matches Err(e) ==> git_path_spec(*w, base@, value@) == Err::<Seq<char>, Seq<char>>(e@),
{
    if value.unicode_len() == 0 || contains_char(value, '\0') || contains_char(value, '\n')
        || contains_char(value, '\r') {
        return Err(String::from_str("unsupported Git metadata path"));
    }
    if is_absolute_exec(value) && !starts_with_path(value, w.mount_root.as_str()) && starts_with_path(
        value,
        w.remote_root.as_str(),
    ) {
        let suffix = stripped_exec(value, w.remote_root.as_str());
        return Ok(join_path(w.mount_root.as_str(), suffix.as_str()));
    }
    Ok(join_path(base, value))
}

/// `s` without trailing `\r` and `\n` characters.
pub open spec fn trim_line_end(s: Seq<char>) -> Seq<char>
    decreases s.len(),
{
    if s.len() > 0 && (s.last() == '\r' || s.last() == '\n') {
        trim_line_end(s.drop_last())
    } else {
        s
    }
}

pub fn trim_line_end_exec(s: &str) -> (r: String)
    ensures
        r@ == trim_line_end(s@),
{
    let v = chars_of(s);
    let mut n = v.len();
    proof {
        assert(v@.take(n as int) =~= v@);
    }
    while n > 0 && (v[n - 1] == '\r' || v[n - 1] == '\n')
        invariant
            n <= v@.len(),
            trim_line_end(v@.take(n as int)) == trim_line_end(s@),
            v@ == s@,
        decreases n,
    {
        proof {
            assert(v@.take(n as int).drop_last() =~= v@.take(n - 1));
        }
        n -= 1;
    }
    string_of(&v, 0, n)
}

pub open spec fn gitdir_value_spec(contents: Seq<char>) -> Result<Seq<char>, Seq<char>> {
    if has_prefix(contents, "gitdir: "@) {
        Ok(trim_line_end(contents.skip(8)))
    } else {
        Err("unsupported .git file (expected gitdir:)"@)
    }
}

/// The path a `.git` file points to.
pub fn gitdir_value(contents: &str) -> (r: Result<String, String>)
    ensures
        r matches Ok(v) ==> gitdir_value_spec(contents@) == Ok::<Seq<char>, Seq<char>>(v@),
        r matches Err(e) ==> gitdir_value_spec(contents@) == Err::<Seq<char>, Seq<char>>(e@),
{
    proof {
        reveal_strlit("gitdir: ");
    }
    if !starts_with(contents, "gitdir: ") {
        return Err(String::from_str("unsupported .git file (expected gitdir:)"));
    }
    let v = chars_of(contents);
    let rest = string_of(&v, 8, v.len());
    assert(rest@ =~= contents@.skip(8));
    Ok(trim_line_end_exec(rest.as_str()))
}

/// The mounted prefixes that Git remote URLs may use: the mount root, and
/// its canonical form when that differs.
pub open spec fn url_prefixes(w: Workspace, root: Seq<char>) -> Seq<Seq<char>> {
    if !same_path(root, w.mount_root@) {
        seq![w.mount_root@, root]
    } else {
        seq![w.mount_root@]
    }
}

pub open spec fn git_config_entries(w: Workspace, prefixes: Seq<Seq<char>>) -> Seq<(Seq<char>, Seq<char>)>
    decreases prefixes.len(),
{
    if prefixes.len() == 0 {
        Seq::empty()
    } else {
        let i = prefixes.len() - 1;
        git_config_entries(w, prefixes.drop_last()) + seq![
            ("GIT_CONFIG_KEY_"@ + decimal_digits(i as nat), "url."@ + trim_end_char(w.remote_root@, '/') + "/.insteadOf"@),
            ("GIT_CONFIG_VALUE_"@ + decimal_digits(i as nat), trim_end_char(prefixes[i], '/') + "/"@),
        ]
    }
}

pub open spec fn git_environment_spec(
    w: Workspace,
    root: Seq<char>,
    git_dir: Seq<char>,
    work_tree: Seq<char>,
    common_dir: Seq<char>,
) -> Seq<(Seq<char>, Seq<char>)> {
    let prefixes = url_prefixes(w, root);
    seq![
        ("GIT_DIR"@, git_dir),
        ("GIT_WORK_TREE"@, work_tree),
        ("GIT_COMMON_DIR"@, common_dir),
        ("GIT_CONFIG_COUNT"@, decimal_digits(prefixes.len())),
    ] + git_config_entries(w, prefixes)
}

pub open spec fn pairs_view(v: Seq<(String, String)>) -> Seq<(Seq<char>, Seq<char>)> {
    v.map_values(|p: (String, String)| (p.0@, p.1@))
}

fn pair(k: String, v: String) -> (p: (String, String))
    ensures
        p.0 == k,
        p.1 == v,
{
    (k, v)
}

/// The environment that points Git at this repository's remote metadata,
/// with `url.REMOTE/.insteadOf` rewrites for the mounted prefixes. `root` is
/// the canonical mount root; the other three are remote paths.
pub fn git_environment(
    w: &Workspace,
    root: &str,
    git_dir: String,
    work_tree: String,
    common_dir: String,
) -> (r: Vec<(String, String)>)
    ensures
        pairs_view(r@) == git_environment_spec(*w, root@, git_dir@, work_tree@, common_dir@),
{
    let mut prefixes: Vec<String> = Vec::new();
    prefixes.push(w.mount_root.clone());
    if !same_path_exec(root, w.mount_root.as_str()) {
        prefixes.push(root.to_owned());
    }
    let ghost ps = url_prefixes(*w, root@);
    assert(prefixes.deep_view() =~= ps);
    let mut env: Vec<(String, String)> = Vec::new();
    env.push(pair(String::from_str("GIT_DIR"), git_dir));
    env.push(pair(String::from_str("GIT_WORK_TREE"), work_tree));
    env.push(pair(String::from_str("GIT_COMMON_DIR"), common_dir));
    env.push(pair(String::from_str("GIT_CONFIG_COUNT"), decimal_string(prefixes.len() as u128)));
    let ghost head = pairs_view(env@);
    let base = trim_end_char_exec(w.remote_root.as_str(), '/');
    let mut i: usize = 0;
    proof {
        assert(ps.take(0) =~= Seq::<Seq<char>>::empty());
        assert(pairs_view(env@) =~= head + git_config_entries(*w, ps.take(0)));
    }
    while i < prefixes.len()
        invariant
            prefixes.deep_view() == ps,
            base@ == trim_end_char(w.remote_root@, '/'),
            i <= ps.len(),
            pairs_view(env@) == head + git_config_entries(*w, ps.take(i as int)),
        decreases prefixes.len() - i,
    {
        let mut key = String::from_str("GIT_CONFIG_KEY_");
        key.append(decimal_string(i as u128).as_str());
        let mut url = String::from_str("url.");
        url.append(base.as_str());
        url.append("/.insteadOf");
        let mut vkey = String::from_str("GIT_CONFIG_VALUE_");
        vkey.append(decimal_string(i as u128).as_str());
        let mut value = trim_end_char_exec(prefixes[i].as_str(), '/');
        value.append("/");
        let ghost before = env@;
        let ghost kv = key@;
        let ghost uv = url@;
        let ghost vk = vkey@;
        let ghost vv = value@;
        env.push(pair(key, url));
        env.push(pair(vkey, value));
        proof {
            assert(prefixes.deep_view()[i as int] == prefixes@[i as int]@);
            assert(ps.take(i + 1).drop_last() =~= ps.take(i as int));
            assert(pairs_view(env@) =~= pairs_view(before) + seq![(kv, uv), (vk, vv)]);
            assert(pairs_view(env@) =~= head + git_config_entries(*w, ps.take(i + 1)));
        }
        i += 1;
    }
    proof {
        assert(ps.take(i as int) =~= ps);
    }
    env
}

} // verus!
