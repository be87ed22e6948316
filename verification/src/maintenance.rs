//! Read-only diagnostics and evidence-based repair: how checks read, which
//! managed integrations belong to a configuration, and which mounts a
//! repair may touch. Probing the system is the caller's.
use vstd::prelude::*;
use crate::autostart::Status;
use crate::paths::{same_path, same_path_exec};
use crate::shell_hook::MARKER;
use crate::text::{
    chars_of, contains_seq, contains_str, escape_single_quotes, has_prefix, is_white, lines,
    lines_of, same_text, single_quoted, split_once, split_once_exec, starts_with, string_of,
    trim, trim_exec, trim_start, trim_start_exec, white, lemma_leading_white,
};

verus! {

/// A character that `shell_word` refuses outside quotes: expansions and
/// shell syntax that the generators never write.
pub open spec fn is_special(c: char) -> bool {
    c == '"' || c == '$' || c == '`' || c == ';' || c == '|' || c == '&' || c == '(' || c == ')'
        || c == '<' || c == '>'
}

/// Reads an unquoted stretch of a word; `acc` is what was decoded so far.
pub open spec fn scan_word(s: Seq<char>, acc: Seq<char>) -> Option<(Seq<char>, Seq<char>)>
    decreases s.len(), 1int,
{
    if s.len() == 0 {
        Some((acc, Seq::empty()))
    } else if s[0] == '\'' {
        scan_quoted(s.skip(1), acc)
    } else if s[0] == '\\' {
        if s.len() >= 2 {
            scan_word(s.skip(2), acc.push(s[1]))
        } else {
            None
        }
    } else if is_white(s[0]) {
        Some((acc, s))
    } else if is_special(s[0]) {
        None
    } else {
        scan_word(s.skip(1), acc.push(s[0]))
    }
}

/// Reads inside single quotes, up to the closing quote.
pub open spec fn scan_quoted(s: Seq<char>, acc: Seq<char>) -> Option<(Seq<char>, Seq<char>)>
    decreases s.len(), 0int,
{
    if s.len() == 0 {
        None
    } else if s[0] == '\'' {
        scan_word(s.skip(1), acc)
    } else {
        scan_quoted(s.skip(1), acc.push(s[0]))
    }
}

/// The first shell word of `input` with the text after it, decoding the
/// single quotes and backslash escapes that the generators write.
pub open spec fn shell_word_spec(input: Seq<char>) -> Option<(Seq<char>, Seq<char>)> {
    let t = trim_start(input);
    if t.len() == 0 {
        None
    } else {
        scan_word(t, Seq::empty())
    }
}

pub fn shell_word(input: &str) -> (r: Option<(String, String)>)
    ensures
        match shell_word_spec(input@) {
            Some((w, rest)) => r matches Some((a, b)) && a@ == w && b@ == rest,
            None => r is None,
        },
{
    let t = trim_start_exec(input);
    let v = chars_of(t.as_str());
    if v.len() == 0 {
        return None;
    }
    let mut acc = String::new();
    let mut i: usize = 0;
    let mut quoted = false;
    proof {
        assert(v@.skip(0) =~= v@);
        assert(acc@ =~= Seq::<char>::empty());
    }
    while i < v.len()
        invariant
            v@ == t@,
            t@ == trim_start(input@),
            t@.len() > 0,
            i <= v@.len(),
            shell_word_spec(input@) == if quoted {
                scan_quoted(v@.skip(i as int), acc@)
            } else {
                scan_word(v@.skip(i as int), acc@)
            },
        decreases v.len() - i,
    {
        let c = v[i];
        let ghost s = v@.skip(i as int);
        proof {
            assert(s[0] == c);
            assert(s.skip(1) =~= v@.skip(i + 1));
        }
        if quoted {
            if c == '\'' {
                quoted = false;
            } else {
                crate::text::push_char(&mut acc, c);
            }
            i += 1;
        } else if c == '\'' {
            quoted = true;
            i += 1;
        } else if c == '\\' {
            if i + 1 >= v.len() {
                return None;
            }
            proof {
                assert(s[1] == v@[i + 1]);
                assert(s.skip(2) =~= v@.skip(i + 2));
            }
            crate::text::push_char(&mut acc, v[i + 1]);
            i += 2;
        } else if white(c) {
            let rest = string_of(&v, i, v.len());
            assert(rest@ =~= s);
            return Some((acc, rest));
        } else if c == '"' || c == '$' || c == '`' || c == ';' || c == '|' || c == '&' || c == '('
            || c == ')' || c == '<' || c == '>' {
            return None;
        } else {
            crate::text::push_char(&mut acc, c);
            i += 1;
        }
    }
    if quoted {
        return None;
    }
    Some((acc, String::new()))
}

pub proof fn lemma_escape_concat(a: Seq<char>, b: Seq<char>)
    ensures
        escape_single_quotes(a + b) == escape_single_quotes(a) + escape_single_quotes(b),
    decreases b.len(),
{
    if b.len() == 0 {
        assert(a + b =~= a);
        assert(escape_single_quotes(a) + escape_single_quotes(b) =~= escape_single_quotes(a));
    } else {
        assert((a + b).drop_last() =~= a + b.drop_last());
        lemma_escape_concat(a, b.drop_last());
    }
}

proof fn lemma_escape_plain(y: Seq<char>)
    requires
        forall|i: int| 0 <= i < y.len() ==> y[i] != '\'',
    ensures
        escape_single_quotes(y) == y,
    decreases y.len(),
{
    if y.len() > 0 {
        lemma_escape_plain(y.drop_last());
        assert(escape_single_quotes(y) =~= y.drop_last() + seq![y.last()]);
        assert(y.drop_last() + seq![y.last()] =~= y);
    }
}

proof fn lemma_quoted_plain(y: Seq<char>, r: Seq<char>, acc: Seq<char>)
    requires
        forall|i: int| 0 <= i < y.len() ==> y[i] != '\'',
    ensures
        scan_quoted(y + seq!['\''] + r, acc) == scan_word(r, acc + y),
    decreases y.len(),
{
    let s = y + seq!['\''] + r;
    if y.len() == 0 {
        assert(s[0] == '\'');
        assert(s.skip(1) =~= r);
        assert(acc + y =~= acc);
    } else {
        assert(s[0] == y[0]);
        assert(s.skip(1) =~= y.skip(1) + seq!['\''] + r);
        lemma_quoted_plain(y.skip(1), r, acc.push(y[0]));
        assert(acc.push(y[0]) + y.skip(1) =~= acc + y);
    }
}

proof fn lemma_escape_quote()
    ensures
        escape_single_quotes(seq!['\'']) == seq!['\'', '\\', '\'', '\''],
{
    let q = seq!['\''];
    assert(q.drop_last() =~= Seq::<char>::empty());
    assert(escape_single_quotes(Seq::<char>::empty()) == Seq::<char>::empty());
    assert(escape_single_quotes(q) =~= seq!['\'', '\\', '\'', '\'']);
}

proof fn lemma_quoted_roundtrip(x: Seq<char>, r: Seq<char>, acc: Seq<char>)
    ensures
        scan_quoted(escape_single_quotes(x) + seq!['\''] + r, acc) == scan_word(r, acc + x),
    decreases x.len(),
{
    if forall|i: int| 0 <= i < x.len() ==> x[i] != '\'' {
        lemma_escape_plain(x);
        lemma_quoted_plain(x, r, acc);
    } else {
        assert(exists|i: int| 0 <= i < x.len() && x[i] == '\'');
        lemma_first_quote(x);
        let k = choose|k: int|
            0 <= k < x.len() && x[k] == '\'' && forall|j: int| 0 <= j < k ==> x[j] != '\'';
        let y = x.take(k);
        let z = x.skip(k + 1);
        assert(x =~= y + seq!['\''] + z);
        let e = escape_single_quotes(z) + seq!['\''] + r;
        let s1 = seq!['\\', '\'', '\''] + e;
        assert(escape_single_quotes(x) + seq!['\''] + r == y + seq!['\''] + s1) by {
            lemma_escape_concat(y + seq!['\''], z);
            lemma_escape_concat(y, seq!['\'']);
            lemma_escape_plain(y);
            lemma_escape_quote();
            assert(escape_single_quotes(x) + seq!['\''] + r =~= y + seq!['\''] + s1);
        }
        assert(scan_quoted(y + seq!['\''] + s1, acc) == scan_word(s1, acc + y)) by {
            lemma_quoted_plain(y, s1, acc);
        }
        let a2 = (acc + y).push('\'');
        let s2 = seq!['\''] + e;
        assert(scan_word(s1, acc + y) == scan_word(s2, a2)) by {
            assert(s1[0] == '\\');
            assert(s1[1] == '\'');
            assert(s1.skip(2) =~= s2);
        }
        assert(scan_word(s2, a2) == scan_quoted(e, a2)) by {
            assert(s2[0] == '\'');
            assert(s2.skip(1) =~= e);
        }
        lemma_quoted_roundtrip(z, r, a2);
        assert(a2 + z =~= acc + x);
    }
}

proof fn lemma_first_quote(x: Seq<char>)
    requires
        exists|i: int| 0 <= i < x.len() && x[i] == '\'',
    ensures
        exists|k: int| 0 <= k < x.len() && x[k] == '\'' && forall|j: int| 0 <= j < k ==> x[j] != '\'',
    decreases x.len(),
{
    if x[0] == '\'' {
        assert(forall|j: int| 0 <= j < 0 ==> x[j] != '\'');
    } else {
        let i = choose|i: int| 0 <= i < x.len() && x[i] == '\'';
        assert(x.skip(1)[i - 1] == '\'');
        lemma_first_quote(x.skip(1));
        let k = choose|k: int| 0 <= k < x.skip(1).len() && x.skip(1)[k] == '\'' && forall|j: int|
            0 <= j < k ==> x.skip(1)[j] != '\'';
        assert forall|j: int| 0 <= j < k + 1 implies x[j] != '\'' by {
            if j > 0 {
                assert(x[j] == x.skip(1)[j - 1]);
            }
        }
        assert(x[k + 1] == '\'');
    }
}

/// `shell_word` reads back exactly the word that `shell_quote` writes,
/// when the word ends the text or is followed by whitespace.
pub proof fn lemma_shell_word_reads_quoted(x: Seq<char>, rest: Seq<char>)
    requires
        rest.len() == 0 || is_white(rest[0]),
    ensures
        shell_word_spec(single_quoted(x) + rest) == Some((x, rest)),
{
    let s = single_quoted(x) + rest;
    assert(s[0] == '\'');
    lemma_leading_white(s);
    assert(crate::text::leading_white(s) == 0);
    assert(trim_start(s) =~= s);
    assert(s.skip(1) =~= escape_single_quotes(x) + seq!['\''] + rest);
    lemma_quoted_roundtrip(x, rest, Seq::empty());
    assert(Seq::<char>::empty() + x =~= x);
    if rest.len() > 0 {
        assert(rest[0] != '\'' && rest[0] != '\\');
    }
}

/// One line of a diagnostic report.
#[derive(Clone, Debug)]
pub struct Check {
    pub id: String,
    pub ok: bool,
    pub detail: String,
}

impl Check {
    pub open spec fn status_spec(&self) -> Seq<char> {
        if self.ok {
            "ok"@
        } else {
            "error"@
        }
    }

    /// `ok` or `error`, as reports spell it.
    pub fn status(&self) -> (s: &'static str)
        ensures
            s@ == self.status_spec(),
    {
        if self.ok {
            "ok"
        } else {
            "error"
        }
    }
}

/// A check from the outcome of what it examined.
pub fn check(id: String, result: Result<String, String>) -> (c: Check)
    ensures
        c.id == id,
        match result {
            Ok(d) => c.ok && c.detail == d,
            Err(d) => !c.ok && c.detail == d,
        },
{
    match result {
        Ok(detail) => Check { id, ok: true, detail },
        Err(detail) => Check { id, ok: false, detail },
    }
}

/// `PHASE ID [STATUS]: DETAIL`.
pub fn check_line(phase: &str, c: &Check) -> (l: String)
    ensures
        l@ == phase@ + " "@ + c.id@ + " ["@ + c.status_spec() + "]: "@ + c.detail@,
{
    let mut l = phase.to_owned();
    l.append(" ");
    l.append(c.id.as_str());
    l.append(" [");
    l.append(c.status());
    l.append("]: ");
    l.append(c.detail.as_str());
    l
}

/// What the mount table and the receipts say of one workspace's mount.
pub enum MountState {
    /// The mount table could not be read.
    Unreadable(String),
    Disconnected,
    /// Mounted, but no receipt vouches for it.
    Unverified,
    /// Mounted and vouched for; the outcome of a bounded I/O probe.
    Verified(Result<(), String>),
}

/// The detail of a `mount:NAME` check.
pub fn mount_result(state: MountState, name: &str) -> (r: Result<String, String>)
    ensures
        match state {
            MountState::Unreadable(e) => r == Err::<String, String>(e),
            MountState::Disconnected => r matches Err(e) && e@ == "disconnected"@,
            MountState::Unverified => r matches Err(e) && e@
                == "unverified mount; not eligible for automatic repair"@,
            MountState::Verified(Ok(())) => r matches Ok(d) && d@ == "verified and responsive"@,
            MountState::Verified(Err(e)) => r matches Err(f) && f@ == "verified but unresponsive: "@
                + e@ + "; use repair --mounts --workspace "@ + name@,
        },
{
    match state {
        MountState::Unreadable(e) => Err(e),
        MountState::Disconnected => Err(String::from_str("disconnected")),
        MountState::Unverified => Err(String::from_str("unverified mount; not eligible for automatic repair")),
        MountState::Verified(Ok(())) => Ok(String::from_str("verified and responsive")),
        MountState::Verified(Err(e)) => {
            let mut f = String::from_str("verified but unresponsive: ");
            f.append(e.as_str());
            f.append("; use repair --mounts --workspace ");
            f.append(name);
            Err(f)
        },
    }
}

/// The detail of an `ssh:NAME` check from the remote `pwd`.
pub fn ssh_result(success: bool, stdout: &str, stderr: &str) -> (r: Result<String, String>)
    ensures
        success ==> (r matches Ok(d) && d@ == "reachable: "@ + trim(stdout@)),
        !success ==> (r matches Err(e) && e@ == "SSH failed: "@ + trim(stderr@)),
{
    if success {
        let mut d = String::from_str("reachable: ");
        d.append(trim_exec(stdout).as_str());
        Ok(d)
    } else {
        let mut e = String::from_str("SSH failed: ");
        e.append(trim_exec(stderr).as_str());
        Err(e)
    }
}

/// A required local tool.
pub fn tool_result(available: bool) -> (r: Result<String, String>)
    ensures
        available ==> (r matches Ok(d) && d@ == "available"@),
        !available ==> (r matches Err(e) && e@ == "missing"@),
{
    if available {
        Ok(String::from_str("available"))
    } else {
        Err(String::from_str("missing"))
    }
}

/// The native NFS client (`/sbin/mount_nfs`).
pub fn nfs_client_result(present: bool) -> (r: Result<String, String>)
    ensures
        present ==> (r matches Ok(d) && d@ == "macOS native NFS client available"@),
        !present ==> (r matches Err(e) && e@ == "macOS native NFS client is missing"@),
{
    if present {
        Ok(String::from_str("macOS native NFS client available"))
    } else {
        Err(String::from_str("macOS native NFS client is missing"))
    }
}

/// The `launch_agent` check for an agent in a given state; `None` for a
/// current agent, whose loaded state launchd must confirm.
pub fn launch_agent_result(status: Status) -> (r: Option<Result<String, String>>)
    ensures
        match status {
            Status::Absent => r matches Some(Ok(d)) && d@
                == "not installed; login remount is not configured"@,
            Status::Custom => r matches Some(Ok(d)) && d@
                == "custom or disabled plist preserved; not reconciled"@,
            Status::Current => r is None,
            Status::Stale => r matches Some(Err(e)) && e@
                == "stale on-disk configuration; run repair (effective at next login)"@,
        },
{
    match status {
        Status::Absent => Some(Ok(String::from_str("not installed; login remount is not configured"))),
        Status::Custom => Some(Ok(String::from_str("custom or disabled plist preserved; not reconciled"))),
        Status::Current => None,
        Status::Stale => Some(Err(String::from_str("stale on-disk configuration; run repair (effective at next login)"))),
    }
}

/// What one line of a shell file or rules block claims about the
/// configuration it uses: `Ok(None)` for a line that is not a managed
/// command, `Ok(Some(None))` for a hook that relies on the canonical
/// configuration, `Ok(Some(Some(c)))` for `--config c`, and `Err(())` for a
/// command this reader does not recognize.
pub open spec fn line_claim_spec(line: Seq<char>) -> Result<Option<Option<Seq<char>>>, ()> {
    let l = trim_start(line);
    let command = if has_prefix(l, "eval \"$("@) {
        Some(l.skip(8))
    } else if l.len() > 0 && l[0] == '\'' {
        Some(l)
    } else {
        None
    };
    match command {
        None => Ok(None),
        Some(c) => match shell_word_spec(c) {
            None => Err(()),
            Some((_, rest)) => match shell_word_spec(rest) {
                None => Err(()),
                Some((option, rest2)) => if option == "hook"@ && has_prefix(trim_start(rest2), "zsh)\""@) {
                    Ok(Some(None))
                } else if option != "--config"@ {
                    Err(())
                } else {
                    match shell_word_spec(rest2) {
                        None => Err(()),
                        Some((config, _)) => Ok(Some(Some(config))),
                    }
                },
            },
        },
    }
}

/// A configuration that a managed command names.
#[derive(Clone, Debug)]
pub enum Claim {
    /// `hook zsh` without `--config`: the canonical configuration.
    Canonical,
    /// `--config PATH`.
    Config(String),
}

pub open spec fn claim_view(c: Claim) -> Option<Seq<char>> {
    match c {
        Claim::Canonical => None,
        Claim::Config(p) => Some(p@),
    }
}

pub fn line_claim(line: &str) -> (r: Result<Option<Claim>, ()>)
    ensures
        match line_claim_spec(line@) {
            Err(()) => r is Err,
            Ok(None) => r matches Ok(None),
            Ok(Some(v)) => r matches Ok(Some(c)) && claim_view(c) == v,
        },
{
    let l = trim_start_exec(line);
    let lv = chars_of(l.as_str());
    proof {
        reveal_strlit("eval \"$(");
    }
    let command = if starts_with(l.as_str(), "eval \"$(") {
        let c = string_of(&lv, 8, lv.len());
        assert(c@ =~= l@.skip(8));
        c
    } else if lv.len() > 0 && lv[0] == '\'' {
        l
    } else {
        return Ok(None);
    };
    let (_, rest) = match shell_word(command.as_str()) {
        None => {
            return Err(());
        },
        Some(x) => x,
    };
    let (option, rest2) = match shell_word(rest.as_str()) {
        None => {
            return Err(());
        },
        Some(x) => x,
    };
    if same_text(option.as_str(), "hook") && starts_with(trim_start_exec(rest2.as_str()).as_str(), "zsh)\"") {
        return Ok(Some(Claim::Canonical));
    }
    if !same_text(option.as_str(), "--config") {
        return Err(());
    }
    match shell_word(rest2.as_str()) {
        None => Err(()),
        Some((config, _)) => Ok(Some(Claim::Config(config))),
    }
}

/// The claims of all lines, or `None` when some line is not recognized.
pub open spec fn claims_spec(ls: Seq<Seq<char>>) -> Option<Seq<Option<Seq<char>>>>
    decreases ls.len(),
{
    if ls.len() == 0 {
        Some(Seq::empty())
    } else {
        match claims_spec(ls.drop_last()) {
            None => None,
            Some(prev) => match line_claim_spec(ls.last()) {
                Err(()) => None,
                Ok(None) => Some(prev),
                Ok(Some(c)) => Some(prev.push(c)),
            },
        }
    }
}

proof fn lemma_claims_none(ls: Seq<Seq<char>>, n: int)
    requires
        0 <= n <= ls.len(),
        claims_spec(ls.take(n)) is None,
    ensures
        claims_spec(ls) is None,
    decreases ls.len() - n,
{
    if n == ls.len() {
        assert(ls.take(n) =~= ls);
    } else {
        assert(ls.drop_last().take(n) =~= ls.take(n));
        lemma_claims_none(ls.drop_last(), n);
    }
}

/// The configuration claims of a shell file or rules block, line by line.
pub fn configuration_claims(text: &str) -> (r: Option<Vec<Claim>>)
    ensures
        match claims_spec(lines(text@)) {
            None => r is None,
            Some(cs) => r matches Some(v) && v@.map_values(|c: Claim| claim_view(c)) == cs,
        },
{
    let ls = lines_of(text);
    let mut out: Vec<Claim> = Vec::new();
    let mut i: usize = 0;
    proof {
        assert(ls.deep_view().take(0) =~= Seq::<Seq<char>>::empty());
        assert(out@.map_values(|c: Claim| claim_view(c)) =~= Seq::<Option<Seq<char>>>::empty());
    }
    while i < ls.len()
        invariant
            ls.deep_view() == lines(text@),
            i <= ls.len(),
            claims_spec(ls.deep_view().take(i as int)) matches Some(cs) && out@.map_values(
                |c: Claim| claim_view(c),
            ) == cs,
        decreases ls.len() - i,
    {
        proof {
            assert(ls.deep_view().take(i + 1).drop_last() =~= ls.deep_view().take(i as int));
            assert(ls.deep_view().take(i + 1).last() == ls@[i as int]@);
        }
        let ghost before = out@;
        match line_claim(ls[i].as_str()) {
            Err(()) => {
                proof {
                    lemma_claims_none(ls.deep_view(), i + 1);
                }
                return None;
            },
            Ok(None) => {},
            Ok(Some(c)) => {
                out.push(c);
                proof {
                    assert(out@.map_values(|c: Claim| claim_view(c)) =~= before.map_values(
                        |c: Claim| claim_view(c),
                    ).push(claim_view(out@.last())));
                }
            },
        }
        i += 1;
    }
    proof {
        assert(ls.deep_view().take(i as int) =~= ls.deep_view());
    }
    Some(out)
}

/// Whether one claim lets this setup manage the configuration at `path`.
/// `canonical` is the managed configuration path when it is known;
/// `canonical_same_file` and `same_file` say whether the paths resolve to
/// the same file on disk.
pub open spec fn claim_accepts(
    claim: Option<Seq<char>>,
    path: Seq<char>,
    canonical: Option<Seq<char>>,
    canonical_same_file: bool,
    same_file: bool,
) -> bool {
    match claim {
        None => canonical matches Some(c) && (same_path(path, c) || canonical_same_file),
        Some(config) => same_path(config, path) || same_file || contains_seq(config, "/.rws-local/"@),
    }
}

pub open spec fn manages_configuration_spec(
    claims: Seq<Option<Seq<char>>>,
    path: Seq<char>,
    canonical: Option<Seq<char>>,
    canonical_same_file: bool,
    same_file: Seq<bool>,
) -> bool {
    &&& claims.len() > 0
    &&& forall|i: int|
        0 <= i < claims.len() ==> claim_accepts(
            #[trigger] claims[i],
            path,
            canonical,
            canonical_same_file,
            same_file[i],
        )
}

/// Whether managed lines that name these configurations may be refreshed for
/// the configuration at `path`: this configuration, the canonical one, or
/// a legacy development setup under `/.rws-local/`. An explicit unrelated
/// configuration is the user's choice and is left alone. Only the
/// configuration argument counts; executable paths and comments do not.
pub fn manages_configuration(
    claims: &[Claim],
    path: &str,
    canonical: Option<&str>,
    canonical_same_file: bool,
    same_file: &[bool],
) -> (b: bool)
    requires
        same_file@.len() == claims@.len(),
    ensures
        b == manages_configuration_spec(
            claims@.map_values(|c: Claim| claim_view(c)),
            path@,
            crate::text::opt_view(canonical),
            canonical_same_file,
            same_file@,
        ),
{
    let ghost cs = claims@.map_values(|c: Claim| claim_view(c));
    if claims.len() == 0 {
        return false;
    }
    let mut i: usize = 0;
    while i < claims.len()
        invariant
            cs == claims@.map_values(|c: Claim| claim_view(c)),
            same_file@.len() == claims@.len(),
            i <= claims@.len(),
            forall|j: int|
                0 <= j < i ==> claim_accepts(
                    #[trigger] cs[j],
                    path@,
                    crate::text::opt_view(canonical),
                    canonical_same_file,
                    same_file@[j],
                ),
        decreases claims.len() - i,
    {
        let ok = match &claims[i] {
            Claim::Canonical => match canonical {
                Some(c) => same_path_exec(path, c) || canonical_same_file,
                None => false,
            },
            Claim::Config(config) => same_path_exec(config.as_str(), path) || same_file[i]
                || contains_str(config.as_str(), "/.rws-local/"),
        };
        if !ok {
            assert(!claim_accepts(cs[i as int], path@, crate::text::opt_view(canonical), canonical_same_file, same_file@[i as int]));
            return false;
        }
        i += 1;
    }
    true
}

/// The lines of a shell file that carry the hook marker outside a comment.
pub open spec fn is_managed_hook_line(line: Seq<char>) -> bool {
    contains_seq(line, MARKER@) && !has_prefix(trim_start(line), "#"@)
}

pub open spec fn managed_hook_lines_spec(ls: Seq<Seq<char>>) -> Seq<Seq<char>>
    decreases ls.len(),
{
    if ls.len() == 0 {
        Seq::empty()
    } else {
        managed_hook_lines_spec(ls.drop_last()) + if is_managed_hook_line(ls.last()) {
            seq![ls.last()]
        } else {
            Seq::empty()
        }
    }
}

pub fn managed_hook_lines(text: &str) -> (r: Vec<String>)
    ensures
        r.deep_view() == managed_hook_lines_spec(lines(text@)),
{
    let ls = lines_of(text);
    let mut out: Vec<String> = Vec::new();
    let mut i: usize = 0;
    proof {
        assert(ls.deep_view().take(0) =~= Seq::<Seq<char>>::empty());
    }
    while i < ls.len()
        invariant
            ls.deep_view() == lines(text@),
            i <= ls.len(),
            out.deep_view() == managed_hook_lines_spec(ls.deep_view().take(i as int)),
        decreases ls.len() - i,
    {
        proof {
            assert(ls.deep_view().take(i + 1).drop_last() =~= ls.deep_view().take(i as int));
            assert(ls.deep_view().take(i + 1).last() == ls@[i as int]@);
        }
        let line = ls[i].as_str();
        let ghost before = out.deep_view();
        if contains_str(line, MARKER) && !starts_with(trim_start_exec(line).as_str(), "#") {
            out.push(ls[i].clone());
            proof {
                assert(out.deep_view() =~= before + seq![ls@[i as int]@]);
            }
        } else {
            proof {
                assert(before + Seq::<Seq<char>>::empty() =~= before);
            }
        }
        i += 1;
    }
    proof {
        assert(ls.deep_view().take(i as int) =~= ls.deep_view());
    }
    out
}

/// The text of the managed rules block: after the first begin marker, up
/// to the next end marker.
pub open spec fn rules_block_spec(text: Seq<char>) -> Option<Seq<char>> {
    crate::text::between(text, crate::agent_rules::BEGIN@, crate::agent_rules::END@)
}

pub fn rules_block(text: &str) -> (r: Result<String, String>)
    ensures
        match rules_block_spec(text@) {
            Some(b) => r matches Ok(s) && s@ == b,
            None => r matches Err(e) && e@ == "missing managed rules block"@,
        },
{
    match crate::text::between_exec(text, crate::agent_rules::BEGIN, crate::agent_rules::END) {
        Some(b) => Ok(b),
        None => Err(String::from_str("missing managed rules block")),
    }
}

/// The `shell_hook` check, from what the shell file holds.
pub fn shell_hook_result(any_managed: bool, all_manage: bool, current: bool) -> (r: Result<String, String>)
    ensures
        !any_managed ==> (r matches Ok(d) && d@ == "not enabled (left unchanged)"@),
        any_managed && !all_manage ==> (r matches Ok(d) && d@
            == "custom configuration retained; not reconciled by this setup"@),
        any_managed && all_manage && current ==> (r matches Ok(d) && d@ == "durable references"@),
        any_managed && all_manage && !current ==> (r matches Err(e) && e@
            == "stale or duplicate managed hook references; run repair"@),
{
    if !any_managed {
        Ok(String::from_str("not enabled (left unchanged)"))
    } else if !all_manage {
        Ok(String::from_str("custom configuration retained; not reconciled by this setup"))
    } else if current {
        Ok(String::from_str("durable references"))
    } else {
        Err(String::from_str("stale or duplicate managed hook references; run repair"))
    }
}

/// The `delta_rules` check, from what the rules file holds.
pub fn rules_result(present: bool, for_configuration: bool, current: bool) -> (r: Result<String, String>)
    ensures
        !present ==> (r matches Ok(d) && d@ == "not enabled (left unchanged)"@),
        present && !for_configuration ==> (r matches Ok(d) && d@
            == "custom configuration retained; not reconciled by this setup"@),
        present && for_configuration && current ==> (r matches Ok(d) && d@
            == "durable references; rules do not redirect Delta internal processes"@),
        present && for_configuration && !current ==> (r matches Err(e) && e@
            == "stale managed Delta references; run repair"@),
{
    if !present {
        Ok(String::from_str("not enabled (left unchanged)"))
    } else if !for_configuration {
        Ok(String::from_str("custom configuration retained; not reconciled by this setup"))
    } else if current {
        Ok(String::from_str("durable references; rules do not redirect Delta internal processes"))
    } else {
        Err(String::from_str("stale managed Delta references; run repair"))
    }
}

pub open spec fn gate_ok(c: Check) -> bool {
    (c.id@ == "configuration"@ || c.id@ == "workspace"@) ==> c.ok
}

/// Repairs run only when the configuration (and a selected workspace)
/// checked out before.
pub fn repair_allowed(before: &[Check]) -> (b: bool)
    ensures
        b == forall|i: int| 0 <= i < before@.len() ==> gate_ok(#[trigger] before@[i]),
{
    let mut i: usize = 0;
    while i < before.len()
        invariant
            i <= before@.len(),
            forall|j: int| 0 <= j < i ==> gate_ok(#[trigger] before@[j]),
        decreases before.len() - i,
    {
        let c = &before[i];
        if (same_text(c.id.as_str(), "configuration") || same_text(c.id.as_str(), "workspace")) && !c.ok {
            assert(!gate_ok(before@[i as int]));
            return false;
        }
        i += 1;
    }
    true
}

/// What a mount repair does for one workspace.
#[derive(Clone, Copy, Debug, PartialEq, Eq, Structural)]
pub enum RepairAction {
    /// The mount checked out; nothing to do.
    Healthy,
    /// Not eligible: the mount is not known dead, or SSH did not answer.
    Refuse,
    /// Reconnect if desired; `repair` also ejects a verified dead mount.
    Reconnect { repair: bool },
}

pub const REFUSED_REPAIR: &'static str = "not repaired: requires reachable SSH and a disconnected or verified dead mount";

/// The index of the first check with this id.
pub open spec fn first_check(cs: Seq<Check>, id: Seq<char>) -> Option<int>
    decreases cs.len(),
{
    if cs.len() == 0 {
        None
    } else {
        match first_check(cs.drop_last(), id) {
            Some(i) => Some(i),
            None => if cs.last().id@ == id {
                Some(cs.len() - 1)
            } else {
                None
            },
        }
    }
}

pub open spec fn repair_action_spec(before: Seq<Check>, name: Seq<char>) -> RepairAction {
    let health = first_check(before, "mount:"@ + name);
    let ssh_ok = exists|i: int| 0 <= i < before.len() && (#[trigger] before[i]).id@ == "ssh:"@ + name && before[i].ok;
    match health {
        Some(h) => if before[h].ok {
            RepairAction::Healthy
        } else {
            let dead = has_prefix(before[h].detail@, "verified but unresponsive:"@);
            let eligible = before[h].detail@ == "disconnected"@ || dead;
            if eligible && ssh_ok {
                RepairAction::Reconnect { repair: dead }
            } else {
                RepairAction::Refuse
            }
        },
        None => RepairAction::Refuse,
    }
}

proof fn lemma_first_check(cs: Seq<Check>, id: Seq<char>)
    ensures
        match first_check(cs, id) {
            Some(i) => 0 <= i < cs.len() && cs[i].id@ == id && forall|j: int| 0 <= j < i ==> (#[trigger] cs[j]).id@ != id,
            None => forall|j: int| 0 <= j < cs.len() ==> (#[trigger] cs[j]).id@ != id,
        },
    decreases cs.len(),
{
    if cs.len() > 0 {
        let p = cs.drop_last();
        lemma_first_check(p, id);
        match first_check(p, id) {
            Some(i) => {
                assert(p[i] == cs[i]);
                assert forall|j: int| 0 <= j < i implies (#[trigger] cs[j]).id@ != id by {
                    assert(p[j] == cs[j]);
                }
            },
            None => {
                assert forall|j: int| 0 <= j < cs.len() - 1 implies (#[trigger] cs[j]).id@ != id by {
                    assert(p[j] == cs[j]);
                }
            },
        }
    }
}

/// Decides a mount repair from the checks taken before it.
pub fn repair_action(before: &[Check], name: &str) -> (a: RepairAction)
    ensures
        a == repair_action_spec(before@, name@),
{
    let mut mount_id = String::from_str("mount:");
    mount_id.append(name);
    let mut ssh_id = String::from_str("ssh:");
    ssh_id.append(name);
    proof {
        lemma_first_check(before@, mount_id@);
    }
    let mut health: Option<usize> = None;
    let mut ssh_ok = false;
    let mut i: usize = 0;
    while i < before.len()
        invariant
            i <= before@.len(),
            match health {
                Some(h) => h < i && before@[h as int].id@ == mount_id@ && forall|j: int| 0 <= j < h ==> (#[trigger] before@[j]).id@ != mount_id@,
                None => forall|j: int| 0 <= j < i ==> (#[trigger] before@[j]).id@ != mount_id@,
            },
            ssh_ok == exists|j: int| 0 <= j < i && (#[trigger] before@[j]).id@ == ssh_id@ && before@[j].ok,
        decreases before.len() - i,
    {
        let c = &before[i];
        if health.is_none() && same_text(c.id.as_str(), mount_id.as_str()) {
            health = Some(i);
        }
        if same_text(c.id.as_str(), ssh_id.as_str()) && c.ok {
            ssh_ok = true;
        }
        i += 1;
    }
    proof {
        match first_check(before@, mount_id@) {
            Some(f) => {
                if let Some(h) = health {
                    if (h as int) < f {
                    } else if (h as int) > f {
                        assert(before@[f].id@ == mount_id@);
                    }
                }
            },
            None => {},
        }
    }
    match health {
        None => RepairAction::Refuse,
        Some(h) => {
            let c = &before[h];
            if c.ok {
                return RepairAction::Healthy;
            }
            let dead = starts_with(c.detail.as_str(), "verified but unresponsive:");
            let eligible = same_text(c.detail.as_str(), "disconnected") || dead;
            if eligible && ssh_ok {
                RepairAction::Reconnect { repair: dead }
            } else {
                RepairAction::Refuse
            }
        },
    }
}

pub open spec fn any_error(cs: Seq<Check>) -> bool {
    exists|i: int| 0 <= i < cs.len() && !(#[trigger] cs[i]).ok
}

fn any_error_exec(cs: &[Check]) -> (b: bool)
    ensures
        b == any_error(cs@),
{
    let mut i: usize = 0;
    while i < cs.len()
        invariant
            i <= cs@.len(),
            forall|j: int| 0 <= j < i ==> (#[trigger] cs@[j]).ok,
        decreases cs.len() - i,
    {
        if !cs[i].ok {
            return true;
        }
        i += 1;
    }
    false
}

/// A report fails when a final check (the after-repair checks when there
/// are any, else the first ones) or an action failed.
pub fn report_failed(before: &[Check], actions: &[Check], after: Option<&[Check]>) -> (b: bool)
    ensures
        b == (match after {
            Some(a) => any_error(a@),
            None => any_error(before@),
        } || any_error(actions@)),
{
    let last = match after {
        Some(a) => any_error_exec(a),
        None => any_error_exec(before),
    };
    last || any_error_exec(actions)
}

} // verus!

verus! {

/// Active managed hook lines are refreshed only when every one of them
/// manages this configuration (so always when there are none); `manages`
/// says so for each line, in order.
pub fn hook_refresh_allowed(manages: &[bool]) -> (b: bool)
    ensures
        b == forall|i: int| 0 <= i < manages@.len() ==> #[trigger] manages@[i],
{
    let mut i: usize = 0;
    while i < manages.len()
        invariant
            i <= manages@.len(),
            forall|j: int| 0 <= j < i ==> #[trigger] manages@[j],
        decreases manages.len() - i,
    {
        if !manages[i] {
            return false;
        }
        i += 1;
    }
    true
}

} // verus!
