//! The workspace registry and its mount settings, as held in memory. Reading
//! and atomically replacing the file is the caller's part; every rule that
//! decides whether a registry or a change is acceptable is here.
use vstd::prelude::*;
use crate::paths::{is_absolute, is_absolute_exec, path_starts_with, starts_with_path};
use crate::text::{ascii_alnum, chars_of, contains_char, has_char, is_ascii_alnum};
use crate::workspace::Workspace;

verus! {

#[derive(Clone, Copy, Debug, PartialEq, Eq, Structural)]
pub enum MountIntent {
    Connected,
    Paused,
}

impl Default for MountIntent {
    fn default() -> (r: Self)
        ensures
            r == MountIntent::Connected,
    {
        MountIntent::Connected
    }
}

#[derive(Clone, Debug, Default)]
pub struct MountOptions {
    pub sshfs: Option<String>,
    pub fskit: bool,
    pub nfs: bool,
}

#[derive(Clone)]
pub struct Config {
    pub version: u32,
    pub workspaces: Vec<Workspace>,
    pub mount: MountOptions,
    pub mount_state_generation: Option<String>,
    /// Desired state per workspace name; a later entry for a name wins.
    pub mount_intent: Vec<(String, MountIntent)>,
}

pub open spec fn generation_char(c: char) -> bool {
    is_ascii_alnum(c) || c == '-' || c == '_'
}

pub open spec fn valid_generation(g: Seq<char>) -> bool {
    g.len() > 0 && forall|i: int| 0 <= i < g.len() ==> generation_char(#[trigger] g[i])
}

pub open spec fn generation_error() -> Seq<char> {
    "mount-state generation must contain only ASCII letters, digits, hyphens, or underscores"@
}

/// A generation names a directory: it must be a plain, non-empty token.
pub fn validate_mount_state_generation(generation: &str) -> (r: Result<(), String>)
    ensures
        r is Ok <==> valid_generation(generation@),
        r matches Err(e) ==> e@ == generation_error(),
{
    let v = chars_of(generation);
    let mut ok = v.len() > 0;
    let mut i: usize = 0;
    while i < v.len()
        invariant
            v@ == generation@,
            i <= v@.len(),
            ok == (v@.len() > 0 && forall|j: int| 0 <= j < i ==> generation_char(#[trigger] v@[j])),
        decreases v.len() - i,
    {
        let c = v[i];
        if !(ascii_alnum(c) || c == '-' || c == '_') {
            ok = false;
        }
        i += 1;
    }
    if !ok {
        return Err(
            String::from_str(
                "mount-state generation must contain only ASCII letters, digits, hyphens, or underscores",
            ),
        );
    }
    Ok(())
}

pub open spec fn sshfs_error() -> Seq<char> {
    "saved SSHFS executable must be an absolute path without NUL"@
}

impl MountOptions {
    pub open spec fn is_valid(&self) -> bool {
        match self.sshfs {
            Some(p) => is_absolute(p@) && !has_char(p@, '\0'),
            None => true,
        }
    }

    /// A saved SSHFS executable must be absolute and contain no NUL.
    pub fn validate(&self) -> (r: Result<(), String>)
        ensures
            r is Ok <==> self.is_valid(),
            r matches Err(e) ==> e@ == sshfs_error(),
    {
        match &self.sshfs {
            Some(p) => {
                if !is_absolute_exec(p.as_str()) || contains_char(p.as_str(), '\0') {
                    return Err(
                        String::from_str("saved SSHFS executable must be an absolute path without NUL"),
                    );
                }
                Ok(())
            },
            None => Ok(()),
        }
    }
}

pub open spec fn overlap_error() -> Seq<char> {
    "workspace name already exists or mount roots overlap"@
}

/// Two workspaces conflict when they share a name or one mount root
/// contains the other.
pub open spec fn conflicts(name_a: Seq<char>, root_a: Seq<char>, name_b: Seq<char>, root_b: Seq<char>) -> bool {
    name_a == name_b || path_starts_with(root_a, root_b) || path_starts_with(root_b, root_a)
}

/// Two workspaces are kept apart when their names differ and neither mount
/// root lies inside the other (a root counts as lying inside itself).
pub open spec fn apart(name_a: Seq<char>, root_a: Seq<char>, name_b: Seq<char>, root_b: Seq<char>) -> bool {
    &&& name_a != name_b
    &&& !path_starts_with(root_a, root_b)
    &&& !path_starts_with(root_b, root_a)
}

/// Whether two workspaces conflict does not depend on which of them is the
/// new one: a new mount root that contains a registered one conflicts just
/// as one that lies inside it does.
pub proof fn lemma_conflicts_symmetric(name_a: Seq<char>, root_a: Seq<char>, name_b: Seq<char>, root_b: Seq<char>)
    ensures
        conflicts(name_a, root_a, name_b, root_b) == conflicts(name_b, root_b, name_a, root_a),
        conflicts(name_a, root_a, name_b, root_b) == !apart(name_a, root_a, name_b, root_b),
{
}

/// A workspace is refused against a registered one whose resolved mount
/// root contains its own, or lies inside it, or whose name it shares; and
/// the verdict is the same whichever of the two is checked first.
pub proof fn lemma_pair_error_both_ways(a: Workspace, ra: String, b: Workspace, rb: String)
    ensures
        pair_error(a, Ok(ra), b, Ok(rb)) is None <==> apart(a.name@, ra@, b.name@, rb@),
        pair_error(a, Ok(ra), b, Ok(rb)) == pair_error(b, Ok(rb), a, Ok(ra)),
        path_starts_with(rb@, ra@) ==> pair_error(a, Ok(ra), b, Ok(rb)) == Some(overlap_error()),
        path_starts_with(ra@, rb@) ==> pair_error(a, Ok(ra), b, Ok(rb)) == Some(overlap_error()),
{
}

/// In a registry that loads, any two entries are kept apart, whichever
/// was stored first.
pub proof fn lemma_loadable_entries_apart(ws: Seq<Workspace>)
    requires
        workspaces_error(ws) is None,
    ensures
        forall|i: int, j: int|
            0 <= i < ws.len() && 0 <= j < ws.len() && i != j ==> apart(
                #[trigger] ws[i].name@,
                ws[i].mount_root@,
                #[trigger] ws[j].name@,
                ws[j].mount_root@,
            ),
    decreases ws.len(),
{
    if ws.len() > 0 {
        let prev = ws.drop_last();
        lemma_loadable_entries_apart(prev);
        let last = ws.len() - 1;
        assert(!(exists|j: int|
            0 <= j < ws.len() - 1 && #[trigger] conflicts(
                ws.last().name@,
                ws.last().mount_root@,
                ws[j].name@,
                ws[j].mount_root@,
            )));
        assert forall|i: int, j: int|
            0 <= i < ws.len() && 0 <= j < ws.len() && i != j implies apart(
                #[trigger] ws[i].name@,
                ws[i].mount_root@,
                #[trigger] ws[j].name@,
                ws[j].mount_root@,
            ) by {
            if i == last {
                assert(!conflicts(ws.last().name@, ws.last().mount_root@, ws[j].name@, ws[j].mount_root@));
            } else if j == last {
                assert(!conflicts(ws.last().name@, ws.last().mount_root@, ws[i].name@, ws[i].mount_root@));
            } else {
                assert(prev[i] == ws[i]);
                assert(prev[j] == ws[j]);
            }
        }
    }
}

/// The first problem among stored workspaces, in order: an invalid entry,
/// or one that conflicts with an earlier entry.
pub open spec fn workspaces_error(ws: Seq<Workspace>) -> Option<Seq<char>>
    decreases ws.len(),
{
    if ws.len() == 0 {
        None
    } else {
        match workspaces_error(ws.drop_last()) {
            Some(e) => Some(e),
            None => {
                let w = ws.last();
                if !w.is_valid() {
                    w.validation_error()
                } else if exists|j: int|
                    0 <= j < ws.len() - 1 && #[trigger] conflicts(
                        w.name@,
                        w.mount_root@,
                        ws[j].name@,
                        ws[j].mount_root@,
                    ) {
                    Some(overlap_error())
                } else {
                    None
                }
            },
        }
    }
}

/// No two entries of the desired state name the same workspace.
pub open spec fn unique_intent_names(entries: Seq<(String, MountIntent)>) -> bool {
    forall|i: int, j: int| 0 <= i < j < entries.len() ==> entries[i].0@ != entries[j].0@
}

/// Desired state of `name`: the last entry for it, else `Connected`.
pub open spec fn intent_lookup(entries: Seq<(String, MountIntent)>, name: Seq<char>) -> MountIntent
    decreases entries.len(),
{
    if entries.len() == 0 {
        MountIntent::Connected
    } else if entries.last().0@ == name {
        entries.last().1
    } else {
        intent_lookup(entries.drop_last(), name)
    }
}

/// Index of the first workspace called `name`.
pub open spec fn first_named(ws: Seq<Workspace>, name: Seq<char>) -> Option<int> {
    if exists|i: int| 0 <= i < ws.len() && ws[i].name@ == name {
        Some(
            choose|i: int|
                0 <= i < ws.len() && ws[i].name@ == name && forall|j: int|
                    0 <= j < i ==> ws[j].name@ != name,
        )
    } else {
        None
    }
}

pub open spec fn version_error() -> Seq<char> {
    "unsupported config version"@
}

impl Config {
    /// What loading reports for this registry, if anything. Loading checks
    /// what is stored only; mount roots are not resolved here.
    pub open spec fn load_error(&self) -> Option<Seq<char>> {
        if self.version != 1 {
            Some(version_error())
        } else if !self.mount.is_valid() {
            Some(sshfs_error())
        } else if self.mount_state_generation is Some && !valid_generation(
            self.mount_state_generation->0@,
        ) {
            Some(generation_error())
        } else {
            workspaces_error(self.workspaces@)
        }
    }

    /// The registry read from a missing file.
    pub fn empty() -> (c: Self)
        ensures
            c.version == 1,
            c.workspaces@.len() == 0,
            c.mount.sshfs is None,
            !c.mount.fskit,
            !c.mount.nfs,
            c.mount_state_generation is None,
            c.mount_intent@.len() == 0,
    {
        Config {
            version: 1,
            workspaces: Vec::new(),
            mount: MountOptions { sshfs: None, fskit: false, nfs: false },
            mount_state_generation: None,
            mount_intent: Vec::new(),
        }
    }

    /// The checks made on a registry after it has been read.
    pub fn validate(&self) -> (r: Result<(), String>)
        ensures
            r is Ok <==> self.load_error() is None,
            r matches Err(e) ==> Some(e@) == self.load_error(),
            r is Ok ==> forall|i: int, j: int|
                0 <= i < self.workspaces@.len() && 0 <= j < self.workspaces@.len() && i != j ==> apart(
                    #[trigger] self.workspaces@[i].name@,
                    self.workspaces@[i].mount_root@,
                    #[trigger] self.workspaces@[j].name@,
                    self.workspaces@[j].mount_root@,
                ),
    {
        if self.version != 1 {
            return Err(String::from_str("unsupported config version"));
        }
        self.mount.validate()?;
        match &self.mount_state_generation {
            Some(g) => {
                validate_mount_state_generation(g.as_str())?;
            },
            None => {},
        }
        let mut i: usize = 0;
        while i < self.workspaces.len()
            invariant
                i <= self.workspaces@.len(),
                workspaces_error(self.workspaces@.take(i as int)) is None,
                self.version == 1,
                self.mount.is_valid(),
                self.mount_state_generation is Some ==> valid_generation(
                    self.mount_state_generation->0@,
                ),
            decreases self.workspaces.len() - i,
        {
            let ghost prefix = self.workspaces@.take(i + 1);
            proof {
                assert(prefix.drop_last() =~= self.workspaces@.take(i as int));
            }
            let w = &self.workspaces[i];
            assert(prefix.last() == self.workspaces@[i as int]);
            match w.validate() {
                Err(e) => {
                    proof {
                        assert(workspaces_error(prefix) == w.validation_error());
                        lemma_workspaces_error_prefix(self.workspaces@, i + 1);
                    }
                    return Err(e);
                },
                Ok(()) => {},
            }
            let mut j: usize = 0;
            while j < i
                invariant
                    j <= i < self.workspaces@.len(),
                    w == self.workspaces@[i as int],
                    w.is_valid(),
                    prefix == self.workspaces@.take(i + 1),
                    workspaces_error(self.workspaces@.take(i as int)) is None,
                    prefix.drop_last() == self.workspaces@.take(i as int),
                    self.version == 1,
                    self.mount.is_valid(),
                    self.mount_state_generation is Some ==> valid_generation(
                        self.mount_state_generation->0@,
                    ),
                    forall|k: int|
                        0 <= k < j ==> !#[trigger] conflicts(
                            w.name@,
                            w.mount_root@,
                            self.workspaces@[k].name@,
                            self.workspaces@[k].mount_root@,
                        ),
                decreases i - j,
            {
                let other = &self.workspaces[j];
                if w.name == other.name || starts_with_path(w.mount_root.as_str(), other.mount_root.as_str())
                    || starts_with_path(other.mount_root.as_str(), w.mount_root.as_str()) {
                    proof {
                        assert(prefix[j as int] == self.workspaces@[j as int]);
                        assert(conflicts(
                            prefix.last().name@,
                            prefix.last().mount_root@,
                            prefix[j as int].name@,
                            prefix[j as int].mount_root@,
                        ));
                        assert(workspaces_error(prefix) == Some(overlap_error()));
                        lemma_workspaces_error_prefix(self.workspaces@, i + 1);
                    }
                    return Err(String::from_str("workspace name already exists or mount roots overlap"));
                }
                j += 1;
            }
            proof {
                assert forall|k: int| 0 <= k < prefix.len() - 1 implies !#[trigger] conflicts(
                    prefix.last().name@,
                    prefix.last().mount_root@,
                    prefix[k].name@,
                    prefix[k].mount_root@,
                ) by {
                    assert(prefix[k] == self.workspaces@[k]);
                }
            }
            i += 1;
        }
        proof {
            assert(self.workspaces@.take(i as int) =~= self.workspaces@);
            lemma_loadable_entries_apart(self.workspaces@);
        }
        Ok(())
    }
}

/// An error found in a prefix is the error of the whole list.
pub proof fn lemma_workspaces_error_prefix(ws: Seq<Workspace>, n: int)
    requires
        0 <= n <= ws.len(),
        workspaces_error(ws.take(n)) is Some,
    ensures
        workspaces_error(ws) == workspaces_error(ws.take(n)),
    decreases ws.len() - n,
{
    if n == ws.len() {
        assert(ws.take(n) =~= ws);
    } else {
        assert(ws.drop_last().take(n) =~= ws.take(n));
        lemma_workspaces_error_prefix(ws.drop_last(), n);
    }
}

} // verus!

verus! {

pub open spec fn unknown_workspace_error(name: Seq<char>) -> Seq<char> {
    "unknown workspace: "@ + name
}

/// The outcome of checking a new workspace against a registered one, given
/// how each mount root resolved.
pub open spec fn pair_error(
    a: Workspace,
    a_root: Result<String, String>,
    b: Workspace,
    b_root: Result<String, String>,
) -> Option<Seq<char>> {
    match a_root {
        Err(e) => Some(e@),
        Ok(ra) => match b_root {
            Err(e) => Some(e@),
            Ok(rb) => if conflicts(a.name@, ra@, b.name@, rb@) {
                Some(overlap_error())
            } else {
                None
            },
        },
    }
}

/// The first failing pair among the first `n` registered workspaces.
pub open spec fn first_pair_error(
    w: Workspace,
    root: Result<String, String>,
    ws: Seq<Workspace>,
    roots: Seq<Result<String, String>>,
    n: int,
) -> Option<Seq<char>>
    decreases n,
{
    if n <= 0 {
        None
    } else {
        match first_pair_error(w, root, ws, roots, n - 1) {
            Some(e) => Some(e),
            None => pair_error(w, root, ws[n - 1], roots[n - 1]),
        }
    }
}

/// The mount root resolved to the stored text itself.
pub open spec fn root_is_itself(root: Result<String, String>, w: Workspace) -> bool {
    root matches Ok(r) && r@ == w.mount_root@
}

proof fn lemma_pairs_clear(
    w: Workspace,
    root: Result<String, String>,
    ws: Seq<Workspace>,
    roots: Seq<Result<String, String>>,
    n: int,
)
    requires
        first_pair_error(w, root, ws, roots, n) is None,
    ensures
        forall|j: int| 0 <= j < n ==> #[trigger] pair_error(w, root, ws[j], roots[j]) is None,
    decreases n,
{
    if n > 0 {
        lemma_pairs_clear(w, root, ws, roots, n - 1);
    }
}

/// Checks two workspaces, given how their mount roots resolved: resolving
/// aliases such as /tmp and /private/tmp keeps overlaps from hiding.
pub fn check_pair(
    a: &Workspace,
    b: &Workspace,
    a_root: &Result<String, String>,
    b_root: &Result<String, String>,
) -> (r: Result<(), String>)
    ensures
        r is Ok <==> pair_error(*a, *a_root, *b, *b_root) is None,
        r matches Err(e) ==> pair_error(*a, *a_root, *b, *b_root) == Some(e@),
        r is Ok ==> apart(a.name@, a_root->Ok_0@, b.name@, b_root->Ok_0@) && a_root is Ok && b_root is Ok,
{
    let ra = match a_root {
        Ok(x) => x,
        Err(e) => return Err(e.clone()),
    };
    let rb = match b_root {
        Ok(x) => x,
        Err(e) => return Err(e.clone()),
    };
    if a.name == b.name || starts_with_path(ra.as_str(), rb.as_str()) || starts_with_path(
        rb.as_str(),
        ra.as_str(),
    ) {
        Err(String::from_str("workspace name already exists or mount roots overlap"))
    } else {
        Ok(())
    }
}

impl Config {
    /// The first workspace called `name`.
    pub fn find(&self, name: &str) -> (r: Result<&Workspace, String>)
        ensures
            first_named(self.workspaces@, name@) matches Some(i) ==> r == Ok::<&Workspace, String>(
                &self.workspaces@[i],
            ),
            first_named(self.workspaces@, name@) is None ==> (r matches Err(e) && e@
                == unknown_workspace_error(name@)),
    {
        let mut i: usize = 0;
        while i < self.workspaces.len()
            invariant
                i <= self.workspaces@.len(),
                forall|j: int| 0 <= j < i ==> self.workspaces@[j].name@ != name@,
            decreases self.workspaces.len() - i,
        {
            if crate::text::same_text(self.workspaces[i].name.as_str(), name) {
                proof {
                    let ws = self.workspaces@;
                    let k = choose|k: int|
                        0 <= k < ws.len() && ws[k].name@ == name@ && forall|j: int|
                            0 <= j < k ==> ws[j].name@ != name@;
                    assert(k == i) by {
                        if k < i {
                        } else if k > i {
                        }
                    }
                }
                return Ok(&self.workspaces[i]);
            }
            i += 1;
        }
        let mut e = String::from_str("unknown workspace: ");
        e.append(name);
        Err(e)
    }

    /// Desired state of a workspace; `Connected` unless recorded otherwise.
    pub fn mount_intent(&self, name: &str) -> (r: MountIntent)
        ensures
            r == intent_lookup(self.mount_intent@, name@),
    {
        let mut i = self.mount_intent.len();
        proof {
            assert(self.mount_intent@.take(i as int) =~= self.mount_intent@);
        }
        while i > 0
            invariant
                i <= self.mount_intent@.len(),
                intent_lookup(self.mount_intent@.take(i as int), name@) == intent_lookup(
                    self.mount_intent@,
                    name@,
                ),
            decreases i,
        {
            let ghost t = self.mount_intent@.take(i as int);
            proof {
                assert(t.drop_last() =~= self.mount_intent@.take(i - 1));
            }
            if crate::text::same_text(self.mount_intent[i - 1].0.as_str(), name) {
                return self.mount_intent[i - 1].1;
            }
            i -= 1;
        }
        MountIntent::Connected
    }

    /// Records the desired state of a registered workspace.
    pub fn set_mount_intent(&mut self, name: &str, intent: MountIntent) -> (r: Result<(), String>)
        ensures
            r is Ok <==> first_named(old(self).workspaces@, name@) is Some,
            r matches Err(e) ==> e@ == unknown_workspace_error(name@),
            r is Err ==> *final(self) == *old(self),
            r is Ok ==> forall|n: Seq<char>|
                intent_lookup(final(self).mount_intent@, n) == if n == name@ {
                    intent
                } else {
                    intent_lookup(old(self).mount_intent@, n)
                },
            final(self).version == old(self).version,
            final(self).workspaces == old(self).workspaces,
            final(self).mount == old(self).mount,
            final(self).mount_state_generation == old(self).mount_state_generation,
            final(self).load_error() == old(self).load_error(),
            unique_intent_names(old(self).mount_intent@) ==> unique_intent_names(final(self).mount_intent@),
    {
        match self.find(name) {
            Err(e) => return Err(e),
            Ok(_) => {},
        }
        let mut kept: Vec<(String, MountIntent)> = Vec::new();
        let mut i: usize = 0;
        while i < self.mount_intent.len()
            invariant
                i <= self.mount_intent@.len(),
                forall|n: Seq<char>|
                    n != name@ ==> intent_lookup(kept@, n) == intent_lookup(
                        self.mount_intent@.take(i as int),
                        n,
                    ),
                forall|k: int| 0 <= k < kept@.len() ==> (#[trigger] kept@[k]).0@ != name@,
                forall|k: int|
                    0 <= k < kept@.len() ==> exists|j: int|
                        0 <= j < i && #[trigger] self.mount_intent@[j].0@ == (#[trigger] kept@[k]).0@,
                unique_intent_names(self.mount_intent@) ==> unique_intent_names(kept@),
            decreases self.mount_intent.len() - i,
        {
            let ghost t = self.mount_intent@.take(i + 1);
            proof {
                assert(t.drop_last() =~= self.mount_intent@.take(i as int));
            }
            if !crate::text::same_text(self.mount_intent[i].0.as_str(), name) {
                let entry = (self.mount_intent[i].0.clone(), self.mount_intent[i].1);
                let ghost before = kept@;
                kept.push(entry);
                proof {
                    assert(kept@.drop_last() =~= before);
                    assert forall|n: Seq<char>| n != name@ implies intent_lookup(kept@, n)
                        == intent_lookup(t, n) by {
                        assert(kept@.last() == entry);
                        assert(t.last() == self.mount_intent@[i as int]);
                        assert(entry.0@ == self.mount_intent@[i as int].0@);
                        if entry.0@ == n {
                            assert(intent_lookup(kept@, n) == entry.1);
                            assert(intent_lookup(t, n) == entry.1);
                        } else {
                            assert(intent_lookup(kept@, n) == intent_lookup(before, n));
                            assert(intent_lookup(t, n) == intent_lookup(t.drop_last(), n));
                        }
                    }
                }
            } else {
                proof {
                    assert forall|n: Seq<char>| n != name@ implies intent_lookup(kept@, n)
                        == intent_lookup(t, n) by {
                        assert(t.last() == self.mount_intent@[i as int]);
                    }
                }
            }
            i += 1;
        }
        proof {
            assert(self.mount_intent@.take(i as int) =~= self.mount_intent@);
        }
        let ghost before = kept@;
        let key = name.to_owned();
        kept.push((key, intent));
        proof {
            assert(kept@.drop_last() =~= before);
            assert(kept@.last().0@ == name@);
            assert forall|n: Seq<char>|
                intent_lookup(kept@, n) == if n == name@ {
                    intent
                } else {
                    intent_lookup(self.mount_intent@, n)
                } by {
                if n != name@ {
                    assert(intent_lookup(kept@, n) == intent_lookup(before, n));
                    assert(intent_lookup(before, n) == intent_lookup(self.mount_intent@.take(i as int), n));
                }
            }
        }
        self.mount_intent = kept;
        Ok(())
    }

    /// Replaces the mount settings after checking them.
    pub fn set_mount_options(&mut self, options: MountOptions) -> (r: Result<(), String>)
        ensures
            r is Ok <==> options.is_valid(),
            r matches Err(e) ==> e@ == sshfs_error(),
            r is Ok ==> final(self).mount == options,
            r is Err ==> final(self).mount == old(self).mount,
            final(self).version == old(self).version,
            final(self).workspaces == old(self).workspaces,
            final(self).mount_state_generation == old(self).mount_state_generation,
            final(self).mount_intent == old(self).mount_intent,
            old(self).load_error() is None ==> final(self).load_error() is None,
    {
        options.validate()?;
        self.mount = options;
        Ok(())
    }

    /// Registers a workspace. `root` is how its mount root resolved, and
    /// `roots[i]` how that of the `i`-th registered workspace resolved.
    pub fn add(
        &mut self,
        workspace: Workspace,
        root: &Result<String, String>,
        roots: &Vec<Result<String, String>>,
    ) -> (r: Result<(), String>)
        requires
            roots@.len() == old(self).workspaces@.len(),
        ensures
            r is Ok <==> workspace.is_valid() && first_pair_error(
                workspace,
                *root,
                old(self).workspaces@,
                roots@,
                roots@.len() as int,
            ) is None,
            r matches Err(e) ==> Some(e@) == if !workspace.is_valid() {
                workspace.validation_error()
            } else {
                first_pair_error(workspace, *root, old(self).workspaces@, roots@, roots@.len() as int)
            },
            r is Ok ==> final(self).workspaces@ == old(self).workspaces@.push(workspace),
            r is Ok ==> forall|j: int|
                0 <= j < roots@.len() ==> root is Ok && #[trigger] roots@[j] is Ok && apart(
                    workspace.name@,
                    root->Ok_0@,
                    old(self).workspaces@[j].name@,
                    roots@[j]->Ok_0@,
                ),
            r is Err ==> final(self).workspaces@ == old(self).workspaces@,
            final(self).version == old(self).version,
            final(self).mount == old(self).mount,
            final(self).mount_state_generation == old(self).mount_state_generation,
            final(self).mount_intent == old(self).mount_intent,
            // A loadable registry stays loadable when every mount root
            // resolved to itself.
            r is Ok && old(self).load_error() is None && root_is_itself(*root, workspace) && (forall|i: int|
                0 <= i < roots@.len() ==> root_is_itself(#[trigger] roots@[i], old(self).workspaces@[i]))
                ==> final(self).load_error() is None,
    {
        workspace.validate()?;
        let mut i: usize = 0;
        while i < self.workspaces.len()
            invariant
                i <= self.workspaces@.len(),
                roots@.len() == self.workspaces@.len(),
                first_pair_error(workspace, *root, self.workspaces@, roots@, i as int) is None,
                *self == *old(self),
                workspace.is_valid(),
            decreases self.workspaces.len() - i,
        {
            match check_pair(&workspace, &self.workspaces[i], root, &roots[i]) {
                Err(e) => {
                    proof {
                        assert(first_pair_error(workspace, *root, self.workspaces@, roots@, i + 1)
                            == pair_error(workspace, *root, self.workspaces@[i as int], roots@[i as int]));
                        lemma_first_pair_error_extends(
                            workspace,
                            *root,
                            self.workspaces@,
                            roots@,
                            i + 1,
                            roots@.len() as int,
                        );
                    }
                    return Err(e);
                },
                Ok(()) => {},
            }
            i += 1;
        }
        let ghost before = self.workspaces@;
        proof {
            lemma_pairs_clear(workspace, *root, before, roots@, roots@.len() as int);
            assert forall|j: int| 0 <= j < roots@.len() implies root is Ok && #[trigger] roots@[j] is Ok
                && apart(workspace.name@, root->Ok_0@, before[j].name@, roots@[j]->Ok_0@) by {
                assert(pair_error(workspace, *root, before[j], roots@[j]) is None);
            }
        }
        self.workspaces.push(workspace);
        proof {
            if old(self).load_error() is None && root_is_itself(*root, workspace) && (forall|i: int|
                0 <= i < roots@.len() ==> root_is_itself(#[trigger] roots@[i], before[i])) {
                lemma_pairs_clear(workspace, *root, before, roots@, roots@.len() as int);
                let ws = self.workspaces@;
                assert(ws.drop_last() =~= before);
                assert(ws.last() == workspace);
                assert forall|j: int| 0 <= j < ws.len() - 1 implies !#[trigger] conflicts(
                    workspace.name@,
                    workspace.mount_root@,
                    ws[j].name@,
                    ws[j].mount_root@,
                ) by {
                    assert(pair_error(workspace, *root, before[j], roots@[j]) is None);
                    assert(root_is_itself(roots@[j], before[j]));
                }
            }
        }
        Ok(())
    }
}

} // verus!

verus! {

/// A failing pair among the first `m` stays the first failure among more.
pub proof fn lemma_first_pair_error_extends(
    w: Workspace,
    root: Result<String, String>,
    ws: Seq<Workspace>,
    roots: Seq<Result<String, String>>,
    m: int,
    n: int,
)
    requires
        0 <= m <= n,
        first_pair_error(w, root, ws, roots, m) is Some,
    ensures
        first_pair_error(w, root, ws, roots, n) == first_pair_error(w, root, ws, roots, m),
    decreases n - m,
{
    if n > m {
        lemma_first_pair_error_extends(w, root, ws, roots, m, n - 1);
    }
}

} // verus!
