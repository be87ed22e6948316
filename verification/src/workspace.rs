//! A registered workspace: an SSH destination, its remote root, and the
//! local mount point that mirrors it.
use vstd::prelude::*;
use crate::paths::{
    components, components_of, is_absolute, is_absolute_exec, parent, parent_of, path_starts_with,
    starts_with_path,
};
use crate::text::{
    ascii_alnum, chars_of, count_char, has_char, is_ascii_alnum, join_with, trim_end_char,
    trim_end_char_exec,
};

verus! {

#[derive(Debug, Clone)]
pub struct Workspace {
    pub name: String,
    pub host: String,
    pub remote_root: String,
    pub mount_root: String,
}

pub open spec fn valid_name(n: Seq<char>) -> bool {
    n.len() > 0 && forall|i: int| 0 <= i < n.len() ==> is_ascii_alnum(#[trigger] n[i]) || n[i]
        == '_' || n[i] == '-'
}

pub open spec fn host_char(c: char) -> bool {
    is_ascii_alnum(c) || c == '.' || c == '_' || c == '-' || c == '@'
}

/// An SSH alias or `user@host`: one `@` at most, no empty part, no leading `-`.
pub open spec fn valid_host(h: Seq<char>) -> bool {
    &&& h.len() > 0
    &&& h[0] != '-'
    &&& count_char(h, '@') <= 1
    &&& h[0] != '@'
    &&& h.last() != '@'
    &&& forall|i: int| 0 <= i < h.len() ==> host_char(#[trigger] h[i])
}

/// Absolute, with no `..` component and no NUL.
pub open spec fn valid_root(p: Seq<char>) -> bool {
    &&& is_absolute(p)
    &&& !components(p).contains(seq!['.', '.'])
    &&& !has_char(p, '\0')
}

pub open spec fn name_error() -> Seq<char> {
    "workspace name must contain only letters, digits, _ or -"@
}

pub open spec fn host_error() -> Seq<char> {
    "use an SSH alias or user@host (configure ports and IPv6 in SSH config)"@
}

pub open spec fn root_error() -> Seq<char> {
    "workspace roots must be absolute UTF-8 paths without .. or NUL"@
}

pub open spec fn filesystem_root_error() -> Seq<char> {
    "the filesystem root cannot be a mount point"@
}

impl Workspace {
    /// The first rule that the workspace breaks, as its message.
    pub open spec fn validation_error(&self) -> Option<Seq<char>> {
        if !valid_name(self.name@) {
            Some(name_error())
        } else if !valid_host(self.host@) {
            Some(host_error())
        } else if !valid_root(self.remote_root@) || !valid_root(self.mount_root@) {
            Some(root_error())
        } else if parent(self.mount_root@) is None {
            Some(filesystem_root_error())
        } else {
            None
        }
    }

    pub open spec fn is_valid(&self) -> bool {
        self.validation_error() is None
    }

    pub fn validate(&self) -> (r: Result<(), String>)
        ensures
            r is Ok <==> self.is_valid(),
            r matches Err(e) ==> Some(e@) == self.validation_error(),
            r is Ok ==> plain_name(self.name@) && plain_destination(self.host@),
    {
        proof {
            lemma_accepted_names_and_destinations(self.name@, self.host@);
        }
        if !check_name(&self.name) {
            return Err(String::from_str("workspace name must contain only letters, digits, _ or -"));
        }
        if !check_host(&self.host) {
            return Err(
                String::from_str(
                    "use an SSH alias or user@host (configure ports and IPv6 in SSH config)",
                ),
            );
        }
        if !check_root(&self.remote_root) || !check_root(&self.mount_root) {
            return Err(
                String::from_str("workspace roots must be absolute UTF-8 paths without .. or NUL"),
            );
        }
        if parent_of(&self.mount_root).is_none() {
            return Err(String::from_str("the filesystem root cannot be a mount point"));
        }
        Ok(())
    }
}

fn check_name(n: &String) -> (b: bool)
    ensures
        b == valid_name(n@),
{
    let v = chars_of(n.as_str());
    if v.len() == 0 {
        return false;
    }
    let mut i: usize = 0;
    while i < v.len()
        invariant
            v@ == n@,
            i <= v@.len(),
            forall|j: int| 0 <= j < i ==> is_ascii_alnum(#[trigger] v@[j]) || v@[j] == '_' || v@[j]
                == '-',
        decreases v.len() - i,
    {
        let c = v[i];
        if !(ascii_alnum(c) || c == '_' || c == '-') {
            return false;
        }
        i += 1;
    }
    true
}

proof fn lemma_count_char_take(s: Seq<char>, c: char, i: int)
    requires
        0 <= i < s.len(),
    ensures
        count_char(s.take(i + 1), c) == count_char(s.take(i), c) + if s[i] == c {
            1nat
        } else {
            0nat
        },
{
    assert(s.take(i + 1).drop_last() =~= s.take(i));
}

fn check_host(h: &String) -> (b: bool)
    ensures
        b == valid_host(h@),
{
    let v = chars_of(h.as_str());
    if v.len() == 0 || v[0] == '-' || v[0] == '@' || v[v.len() - 1] == '@' {
        return false;
    }
    let mut ats: usize = 0;
    let mut i: usize = 0;
    proof {
        assert(v@.take(0) =~= Seq::<char>::empty());
    }
    while i < v.len()
        invariant
            v@ == h@,
            i <= v@.len(),
            ats as nat == count_char(v@.take(i as int), '@'),
            ats <= 1,
            forall|j: int| 0 <= j < i ==> host_char(#[trigger] v@[j]),
        decreases v.len() - i,
    {
        let c = v[i];
        proof {
            lemma_count_char_take(v@, '@', i as int);
        }
        if !(ascii_alnum(c) || c == '.' || c == '_' || c == '-' || c == '@') {
            assert(!host_char(v@[i as int]));
            return false;
        }
        if c == '@' {
            if ats == 1 {
                proof {
                    assert(count_char(v@.take(i + 1), '@') == 2);
                    lemma_count_char_monotone(v@, i + 1);
                }
                return false;
            }
            ats = 1;
        }
        i += 1;
    }
    assert(v@.take(v@.len() as int) =~= v@);
    true
}

proof fn lemma_count_char_monotone(s: Seq<char>, i: int)
    requires
        0 <= i <= s.len(),
    ensures
        count_char(s.take(i), '@') <= count_char(s, '@'),
    decreases s.len() - i,
{
    if i == s.len() {
        assert(s.take(i) =~= s);
    } else {
        lemma_count_char_take(s, '@', i);
        lemma_count_char_monotone(s, i + 1);
    }
}

fn check_root(p: &String) -> (b: bool)
    ensures
        b == valid_root(p@),
{
    if !is_absolute_exec(p.as_str()) {
        return false;
    }
    let comps = components_of(p.as_str());
    let mut i: usize = 0;
    while i < comps.len()
        invariant
            comps.deep_view() == components(p@),
            i <= comps.len(),
            forall|j: int| 0 <= j < i ==> comps.deep_view()[j] != seq!['.', '.'],
        decreases comps.len() - i,
    {
        let c = chars_of(comps[i].as_str());
        if c.len() == 2 && c[0] == '.' && c[1] == '.' {
            assert(comps.deep_view()[i as int] =~= seq!['.', '.']);
            return false;
        }
        assert(comps.deep_view()[i as int] != seq!['.', '.']) by {
            if comps.deep_view()[i as int] == seq!['.', '.'] {
                assert(c@ =~= seq!['.', '.']);
            }
        }
        i += 1;
    }
    assert(!components(p@).contains(seq!['.', '.'])) by {
        if components(p@).contains(seq!['.', '.']) {
            let k = choose|k: int| 0 <= k < components(p@).len() && components(p@)[k] == seq![
                '.',
                '.',
            ];
            assert(comps.deep_view()[k] != seq!['.', '.']);
        }
    }
    !crate::text::contains_char(p.as_str(), '\0')
}

/// Components of `p` after those of `base` (when `p` starts with `base`).
pub open spec fn suffix_components(p: Seq<char>, base: Seq<char>) -> Seq<Seq<char>> {
    components(p).skip(components(base).len() as int)
}

impl Workspace {
    /// A field-for-field copy.
    pub fn duplicate(&self) -> (r: Workspace)
        ensures
            r == *self,
    {
        Workspace {
            name: self.name.clone(),
            host: self.host.clone(),
            remote_root: self.remote_root.clone(),
            mount_root: self.mount_root.clone(),
        }
    }

    /// The remote directory for a local directory, given the canonical mount
    /// root and the canonical local directory.
    pub open spec fn remote_path_spec(&self, root: Seq<char>, local: Seq<char>) -> Result<
        Seq<char>,
        Seq<char>,
    > {
        if !self.is_valid() {
            Err(self.validation_error().unwrap())
        } else if !path_starts_with(local, root) {
            Err("path is outside workspace"@)
        } else {
            let suffix = join_with(suffix_components(local, root), seq!['/']);
            if suffix.len() == 0 {
                Ok(self.remote_root@)
            } else {
                Ok(trim_end_char(self.remote_root@, '/') + seq!['/'] + suffix)
            }
        }
    }

    /// Maps a canonical local directory under the canonical mount root to its
    /// remote directory.
    pub fn remote_path(&self, root: &str, local: &str) -> (r: Result<String, String>)
        ensures
            r matches Ok(s) ==> self.remote_path_spec(root@, local@) == Ok::<Seq<char>, Seq<char>>(s@),
            r matches Err(e) ==> self.remote_path_spec(root@, local@) == Err::<Seq<char>, Seq<char>>(e@),
    {
        self.validate()?;
        if !starts_with_path(local, root) {
            return Err(String::from_str("path is outside workspace"));
        }
        let lc = components_of(local);
        let rc = components_of(root);
        let mut suffix = String::new();
        let mut i = rc.len();
        let ghost rest = suffix_components(local@, root@);
        proof {
            assert(lc.deep_view().skip(rc.len() as int).take(0) =~= Seq::<Seq<char>>::empty());
        }
        while i < lc.len()
            invariant
                rc.len() <= i <= lc.len(),
                lc.deep_view() == components(local@),
                rc.deep_view() == components(root@),
                rest == lc.deep_view().skip(rc.len() as int),
                suffix@ == join_with(rest.take(i - rc.len()), seq!['/']),
            decreases lc.len() - i,
        {
            let ghost k = i - rc.len();
            proof {
                assert(rest.take(k + 1).drop_last() =~= rest.take(k));
            }
            if i > rc.len() {
                crate::text::push_char(&mut suffix, '/');
            }
            suffix.append(lc[i].as_str());
            i += 1;
        }
        proof {
            assert(rest.take(i - rc.len()) =~= rest);
            assert(suffix@ == join_with(suffix_components(local@, root@), seq!['/']));
            assert(self.is_valid());
            assert(path_starts_with(local@, root@));
        }
        if suffix.unicode_len() == 0 {
            let r = self.remote_root.clone();
            assert(self.remote_path_spec(root@, local@) == Ok::<Seq<char>, Seq<char>>(r@));
            Ok(r)
        } else {
            let mut r = trim_end_char_exec(self.remote_root.as_str(), '/');
            crate::text::push_char(&mut r, '/');
            r.append(suffix.as_str());
            assert(r@ =~= trim_end_char(self.remote_root@, '/') + seq!['/'] + suffix@);
            assert(self.remote_path_spec(root@, local@) == Ok::<Seq<char>, Seq<char>>(r@));
            Ok(r)
        }
    }
}

} // verus!

verus! {

/// The mount root itself maps to the remote root.
pub proof fn lemma_remote_path_of_root(w: Workspace, root: Seq<char>)
    requires
        w.is_valid(),
    ensures
        w.remote_path_spec(root, root) == Ok::<Seq<char>, Seq<char>>(w.remote_root@),
{
    assert(components(root).take(components(root).len() as int) =~= components(root));
    assert(suffix_components(root, root) =~= Seq::<Seq<char>>::empty());
    assert(join_with(Seq::<Seq<char>>::empty(), seq!['/']) =~= Seq::<char>::empty());
}

} // verus!

verus! {

/// A name is made of ASCII letters, digits, `_` and `-`.
pub open spec fn plain_name(n: Seq<char>) -> bool {
    n.len() > 0 && forall|i: int|
        0 <= i < n.len() ==> ('a' <= #[trigger] n[i] <= 'z') || ('A' <= n[i] <= 'Z') || ('0' <= n[i] <= '9')
            || n[i] == '_' || n[i] == '-'
}

/// An SSH alias or `user@host` that SSH cannot mistake for an option: ASCII
/// letters, digits, `.`, `_`, `-` and `@`, not starting with `-`, and at
/// most one `@`, with text on both sides of it.
pub open spec fn plain_destination(h: Seq<char>) -> bool {
    &&& h.len() > 0
    &&& h[0] != '-'
    &&& h[0] != '@'
    &&& h[h.len() - 1] != '@'
    &&& forall|i: int|
        0 <= i < h.len() ==> ('a' <= #[trigger] h[i] <= 'z') || ('A' <= h[i] <= 'Z') || ('0' <= h[i] <= '9')
            || h[i] == '.' || h[i] == '_' || h[i] == '-' || h[i] == '@'
    &&& forall|i: int, j: int| 0 <= i < j < h.len() && h[i] == '@' ==> h[j] != '@'
}

proof fn lemma_no_char(s: Seq<char>, c: char)
    ensures
        count_char(s, c) == 0 <==> forall|i: int| 0 <= i < s.len() ==> s[i] != c,
    decreases s.len(),
{
    if s.len() > 0 {
        let p = s.drop_last();
        lemma_no_char(p, c);
        if count_char(s, c) == 0 {
            assert forall|i: int| 0 <= i < s.len() implies s[i] != c by {
                if i < p.len() {
                    assert(p[i] == s[i]);
                }
            }
        }
        if forall|i: int| 0 <= i < s.len() ==> s[i] != c {
            assert forall|i: int| 0 <= i < p.len() implies p[i] != c by {
                assert(p[i] == s[i]);
            }
        }
    }
}

proof fn lemma_at_most_one_char(s: Seq<char>, c: char)
    ensures
        count_char(s, c) <= 1 <==> forall|i: int, j: int| 0 <= i < j < s.len() && s[i] == c ==> s[j] != c,
    decreases s.len(),
{
    if s.len() > 0 {
        let p = s.drop_last();
        let n = s.len() - 1;
        lemma_at_most_one_char(p, c);
        lemma_no_char(p, c);
        if count_char(s, c) <= 1 {
            assert forall|i: int, j: int| 0 <= i < j < s.len() && s[i] == c implies s[j] != c by {
                assert(p[i] == s[i]);
                if j < n {
                    assert(p[j] == s[j]);
                }
            }
        }
        if forall|i: int, j: int| 0 <= i < j < s.len() && s[i] == c ==> s[j] != c {
            assert forall|i: int, j: int| 0 <= i < j < p.len() && p[i] == c implies p[j] != c by {
                assert(p[i] == s[i]);
                assert(p[j] == s[j]);
            }
            if s[n] == c {
                assert forall|i: int| 0 <= i < p.len() implies p[i] != c by {
                    assert(p[i] == s[i]);
                }
            }
        }
    }
}

/// Exactly the plain names and SSH destinations are accepted: an ordinary
/// alias or `user@host` passes, and a destination that SSH could read as
/// an option (a leading `-`) or that names two users is refused.
pub proof fn lemma_accepted_names_and_destinations(name: Seq<char>, host: Seq<char>)
    ensures
        valid_name(name) <==> plain_name(name),
        valid_host(host) <==> plain_destination(host),
{
    lemma_at_most_one_char(host, '@');
    if valid_host(host) {
        assert forall|i: int| 0 <= i < host.len() implies ('a' <= #[trigger] host[i] <= 'z') || ('A' <= host[i]
            <= 'Z') || ('0' <= host[i] <= '9') || host[i] == '.' || host[i] == '_' || host[i] == '-' || host[i]
            == '@' by {
            assert(host_char(host[i]));
        }
    }
    if plain_destination(host) {
        assert forall|i: int| 0 <= i < host.len() implies host_char(#[trigger] host[i]) by {
            assert(plain_destination(host));
        }
    }
    if valid_name(name) {
        assert forall|i: int| 0 <= i < name.len() implies ('a' <= #[trigger] name[i] <= 'z') || ('A' <= name[i]
            <= 'Z') || ('0' <= name[i] <= '9') || name[i] == '_' || name[i] == '-' by {
            assert(is_ascii_alnum(name[i]) || name[i] == '_' || name[i] == '-');
        }
    }
    if plain_name(name) {
        assert forall|i: int| 0 <= i < name.len() implies is_ascii_alnum(#[trigger] name[i]) || name[i] == '_'
            || name[i] == '-' by {
            assert(plain_name(name));
        }
    }
}

} // verus!
