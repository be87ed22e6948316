//! The managed block of personal agent rules that routes agent shell work
//! through `rws exec`, and how it is merged into a rules file that may hold
//! the user's own rules.
use vstd::prelude::*;
use crate::paths::{is_absolute, is_absolute_exec, join, join_path, parent, parent_of};
use crate::text::{
    chars_of, contains_char, contains_seq, find, find_from, first_occurrence, has_char,
    occurs_at, opt_view, shell_quote, single_quoted, string_of, trim,
};

verus! {

pub const BEGIN: &'static str = "<!-- BEGIN RWS REMOTE EXECUTION -->";

pub const END: &'static str = "<!-- END RWS REMOTE EXECUTION -->";

pub const MALFORMED: &'static str = "malformed or duplicate RWS remote-execution markers; rules left unchanged";

pub const RULES_HEAD: &'static str = "<!-- BEGIN RWS REMOTE EXECUTION -->\n## RWS remote execution — all registered projects\n\nBefore the first terminal command in every task, and whenever the terminal checkout or project changes, obtain its actual absolute filesystem path and run:\n\n```sh\n";

pub const RULES_MIDDLE: &'static str = " context --cwd '/absolute/current/checkout'\n```\n\nRead this command's JSON `mode`. This context check runs locally; it does not forward a workload. A `worktree://` URI is not a filesystem path. Resolve the actual checkout path, including a worktree's directory. Never infer routing from a project name, a previous task, or an earlier checkout. If context fails, is unknown, or the mounted path is inaccessible, stop and report the error. Do not proceed locally as a fallback.\n\nFor `mode: remote`, route EVERY agent shell workload through:\n\n```sh\n";

pub const RULES_TAIL: &'static str = " exec --cwd '/absolute/current/checkout' --git-context -- sh -c 'entire remote script'\n```\n\nReplace the placeholder with the actual absolute checkout path. Keep the complete script inside the quoted remote payload, including shell expansion, pipes, conditionals, command substitutions, and redirects; none may execute in the Mac shell. Correctly shell-quote any embedded single quotes. This applies to Git, file searches, package installation, interpreters, build tools, tests, and scripts. Native file read/edit tools may access the mounted files directly.\n\nFor the first remote workload, run `uname -s; hostname; pwd` through this wrapper and report the resulting OS, host, and directory as evidence. Inspect available Linux interpreters and tools remotely before using them. Do not reuse Mac `/Users/...` executable paths or Mac environment assumptions. Preserve any existing macOS virtual environment; create a separate Linux environment such as `.venv-rws` when needed.\n\n`--git-context` supplies Git metadata only for the current repository. Do not change into another repository or use `git -C` to target another repository within the same invocation. Resolve that repository's actual absolute checkout with a new context check and a new wrapper invocation. Network Git remotes may be used. Mac-local Git remote URL prefixes under the same registered mount are translated through Git `url.insteadOf`; paths under other mounts or outside registered mounts are not automatically mapped.\n\nAfter any routing, mount, or SSH failure, stop and report it. Never retry the workload locally. For `mode: local`, continue the ordinary local workflow and repeat the context check on checkout or project changes.\n\nThese personal rules guide agent-issued commands across all registered RWS projects. They do not move Delta's internal automatic preparation or Git operations to Linux and are not a security boundary.\n<!-- END RWS REMOTE EXECUTION -->";

pub open spec fn quoted_absolute_spec(path: Seq<char>) -> Result<Seq<char>, Seq<char>> {
    if !is_absolute(path) {
        Err("path must be absolute: "@ + path)
    } else if has_char(path, '\n') || has_char(path, '\r') || has_char(path, '\0') {
        Err("path contains a control character"@)
    } else {
        Ok(single_quoted(path))
    }
}

/// An absolute path as one literal shell word.
pub fn quoted_absolute(path: &str) -> (r: Result<String, String>)
    ensures
        r matches Ok(q) ==> quoted_absolute_spec(path@) == Ok::<Seq<char>, Seq<char>>(q@),
        r matches Err(e) ==> quoted_absolute_spec(path@) == Err::<Seq<char>, Seq<char>>(e@),
{
    if !is_absolute_exec(path) {
        let mut e = String::from_str("path must be absolute: ");
        e.append(path);
        return Err(e);
    }
    if contains_char(path, '\n') || contains_char(path, '\r') || contains_char(path, '\0') {
        return Err(String::from_str("path contains a control character"));
    }
    Ok(shell_quote(path))
}

pub open spec fn managed_rules_spec(config: Seq<char>, binary: Seq<char>) -> Result<Seq<char>, Seq<char>> {
    match quoted_absolute_spec(binary) {
        Err(e) => Err(e),
        Ok(qb) => match quoted_absolute_spec(config) {
            Err(e) => Err(e),
            Ok(qc) => {
                let command = qb + " --config "@ + qc;
                Ok(RULES_HEAD@ + command + RULES_MIDDLE@ + command + RULES_TAIL@)
            },
        },
    }
}

/// The managed block, from [`BEGIN`] to [`END`], naming the binary and the
/// configuration it must be run with.
pub fn managed_rules(config: &str, binary: &str) -> (r: Result<String, String>)
    ensures
        r matches Ok(t) ==> managed_rules_spec(config@, binary@) == Ok::<Seq<char>, Seq<char>>(t@),
        r matches Err(e) ==> managed_rules_spec(config@, binary@) == Err::<Seq<char>, Seq<char>>(e@),
{
    let mut command = quoted_absolute(binary)?;
    let qc = quoted_absolute(config)?;
    command.append(" --config ");
    command.append(qc.as_str());
    let mut t = String::from_str(RULES_HEAD);
    t.append(command.as_str());
    t.append(RULES_MIDDLE);
    t.append(command.as_str());
    t.append(RULES_TAIL);
    Ok(t)
}

/// The index of `p` in `s` when it occurs there exactly once.
pub open spec fn sole_occurrence(s: Seq<char>, p: Seq<char>) -> Option<int> {
    match first_occurrence(s, p) {
        None => None,
        Some(i) => if forall|j: int| i < j ==> !occurs_at(s, p, j) {
            Some(i)
        } else {
            None
        },
    }
}

/// A new block is appended on a line of its own; an existing block, and
/// only it, is replaced; anything else is refused.
pub open spec fn merge_spec(original: Seq<char>, block: Seq<char>) -> Result<Seq<char>, Seq<char>> {
    if !contains_seq(original, BEGIN@) && !contains_seq(original, END@) {
        let sep = if original.len() == 0 || original.last() == '\n' {
            Seq::empty()
        } else {
            seq!['\n']
        };
        Ok(original + sep + block + seq!['\n'])
    } else {
        match (sole_occurrence(original, BEGIN@), sole_occurrence(original, END@)) {
            (Some(b), Some(e)) => if b < e {
                Ok(original.take(b) + block + original.skip(e + END@.len()))
            } else {
                Err(MALFORMED@)
            },
            _ => Err(MALFORMED@),
        }
    }
}

fn sole_occurrence_exec(s: &Vec<char>, p: &Vec<char>) -> (r: (bool, Option<usize>))
    requires
        p@.len() > 0,
    ensures
        r.0 == contains_seq(s@, p@),
        r.1 matches Some(i) ==> sole_occurrence(s@, p@) == Some(i as int) && i + p@.len()
            <= s@.len(),
        r.1 is None ==> sole_occurrence(s@, p@) is None,
{
    match find(s, p) {
        None => {
            proof {
                reveal(first_occurrence);
            }
            (false, None)
        },
        Some(i) => {
            assert(occurs_at(s@, p@, i as int));
            assert(i < s.len());
            let again = find_from(s, p, i + 1);
            if again.is_some() {
                (true, None)
            } else {
                (true, Some(i))
            }
        },
    }
}

/// Puts `block` into the rules text `original`.
pub fn merge(original: &str, block: &str) -> (r: Result<String, String>)
    ensures
        r matches Ok(t) ==> merge_spec(original@, block@) == Ok::<Seq<char>, Seq<char>>(t@),
        r matches Err(e) ==> merge_spec(original@, block@) == Err::<Seq<char>, Seq<char>>(e@),
{
    let v = chars_of(original);
    let bv = chars_of(BEGIN);
    let ev = chars_of(END);
    proof {
        reveal_strlit("<!-- BEGIN RWS REMOTE EXECUTION -->");
        reveal_strlit("<!-- END RWS REMOTE EXECUTION -->");
    }
    let (has_begin, begin) = sole_occurrence_exec(&v, &bv);
    let (has_end, end) = sole_occurrence_exec(&v, &ev);
    if !has_begin && !has_end {
        let mut t = original.to_owned();
        let ghost sep: Seq<char> = if original@.len() == 0 || original@.last() == '\n' {
            Seq::empty()
        } else {
            seq!['\n']
        };
        if v.len() > 0 && v[v.len() - 1] != '\n' {
            crate::text::push_char(&mut t, '\n');
        }
        assert(t@ =~= original@ + sep);
        t.append(block);
        crate::text::push_char(&mut t, '\n');
        assert(t@ =~= original@ + sep + block@ + seq!['\n']);
        return Ok(t);
    }
    if let (Some(b), Some(e)) = (begin, end) {
        if b < e {
            let n = v.len();
            assert(e + ev@.len() <= n);
            let mut t = string_of(&v, 0, b);
            t.append(block);
            let tail = string_of(&v, e + ev.len(), v.len());
            t.append(tail.as_str());
            proof {
                assert(tail@ =~= original@.skip(e + END@.len()));
            }
            return Ok(t);
        }
    }
    Err(String::from_str(MALFORMED))
}

pub open spec fn updated_rules_spec(
    config: Seq<char>,
    binary: Seq<char>,
    target: Seq<char>,
    existing: Option<Seq<char>>,
) -> Result<Option<Seq<char>>, Seq<char>> {
    match managed_rules_spec(config, binary) {
        Err(e) => Err(e),
        Ok(block) => match quoted_absolute_spec(target) {
            Err(e) => Err(e),
            Ok(_) => {
                let original = match existing {
                    Some(x) => x,
                    None => Seq::empty(),
                };
                match merge_spec(original, block) {
                    Err(e) => Err(e),
                    Ok(u) => if existing == Some(u) {
                        Ok(None)
                    } else {
                        Ok(Some(u))
                    },
                }
            },
        },
    }
}

/// The rules text to install at `target`, given its current contents
/// (`None` when there is no file), or `None` when it is already current.
pub fn updated_rules(config: &str, binary: &str, target: &str, existing: Option<&str>) -> (r: Result<
    Option<String>,
    String,
>)
    ensures
        r matches Ok(u) ==> updated_rules_spec(config@, binary@, target@, opt_view(existing)) == Ok::<
            Option<Seq<char>>,
            Seq<char>,
        >(opt_string_view(u)),
        r matches Err(e) ==> updated_rules_spec(config@, binary@, target@, opt_view(existing))
            == Err::<Option<Seq<char>>, Seq<char>>(e@),
{
    let block = managed_rules(config, binary)?;
    quoted_absolute(target)?;
    proof {
        reveal_strlit("");
        assert(""@ =~= Seq::<char>::empty());
    }
    let updated = match existing {
        Some(x) => merge(x, block.as_str())?,
        None => merge("", block.as_str())?,
    };
    match existing {
        Some(x) => if crate::text::same_text(x, updated.as_str()) {
            Ok(None)
        } else {
            Ok(Some(updated))
        },
        None => Ok(Some(updated)),
    }
}

pub open spec fn opt_string_view(o: Option<String>) -> Option<Seq<char>> {
    match o {
        Some(x) => Some(x@),
        None => None,
    }
}

pub open spec fn backup_directory_spec(config: Seq<char>) -> Result<Seq<char>, Seq<char>> {
    match parent(config) {
        Some(p) => Ok(join(p, "agent-rule-backups"@)),
        None => Err("config must have a parent directory"@),
    }
}

/// Where the previous rules are kept before they are replaced.
pub fn backup_directory(config: &str) -> (r: Result<String, String>)
    ensures
        r matches Ok(d) ==> backup_directory_spec(config@) == Ok::<Seq<char>, Seq<char>>(d@),
        r matches Err(e) ==> backup_directory_spec(config@) == Err::<Seq<char>, Seq<char>>(e@),
{
    match parent_of(config) {
        Some(p) => Ok(join_path(p.as_str(), "agent-rule-backups")),
        None => Err(String::from_str("config must have a parent directory")),
    }
}

/// Whether a rules file (`None` when absent) already carries a managed block.
pub fn managed_block_present(contents: Option<&str>) -> (b: bool)
    ensures
        b == (contents matches Some(c) && contains_seq(c@, BEGIN@)),
{
    match contents {
        Some(c) => crate::text::contains_str(c, BEGIN),
        None => false,
    }
}

/// The files Delta reads personal rules from, in the order it selects them:
/// `AGENT.md`, then `AGENTS.md`, in the primary and then the fallback
/// directory.
pub open spec fn rules_candidates_spec(primary: Seq<char>, fallback: Option<Seq<char>>) -> Seq<Seq<char>> {
    let first = seq![join(primary, "AGENT.md"@), join(primary, "AGENTS.md"@)];
    match fallback {
        Some(f) => first + seq![join(f, "AGENT.md"@), join(f, "AGENTS.md"@)],
        None => first,
    }
}

pub fn rules_candidates(primary: &str, fallback: Option<&str>) -> (r: Vec<String>)
    ensures
        r.deep_view() == rules_candidates_spec(primary@, opt_view(fallback)),
{
    let mut r: Vec<String> = Vec::new();
    r.push(join_path(primary, "AGENT.md"));
    r.push(join_path(primary, "AGENTS.md"));
    if let Some(f) = fallback {
        r.push(join_path(f, "AGENT.md"));
        r.push(join_path(f, "AGENTS.md"));
    }
    assert(r.deep_view() =~= rules_candidates_spec(primary@, opt_view(fallback)));
    r
}

/// A candidate is selected when it holds more than whitespace.
pub fn selects(contents: &str) -> (b: bool)
    ensures
        b == (trim(contents@).len() > 0),
{
    crate::text::trim_exec(contents).unicode_len() > 0
}

pub open spec fn rules_directories_spec(delta_config_dir: Option<Seq<char>>, home: Option<Seq<char>>) -> Result<(Seq<char>, Option<Seq<char>>), Seq<char>> {
    match delta_config_dir {
        Some(d) => if d.len() == 0 {
            Err("DELTA_CONFIG_DIR is empty"@)
        } else {
            Ok((d, None))
        },
        None => match home {
            None => Err("HOME is not set"@),
            Some(h) => Ok(
                (join(h, ".config/delta"@), Some(join(h, "Library/Application Support/delta"@))),
            ),
        },
    }
}

/// The directories to search: `DELTA_CONFIG_DIR` alone when it is set,
/// otherwise `~/.config/delta` and then the macOS application-support one.
pub fn rules_directories(delta_config_dir: Option<&str>, home: Option<&str>) -> (r: Result<
    (String, Option<String>),
    String,
>)
    ensures
        r matches Ok((p, f)) ==> rules_directories_spec(opt_view(delta_config_dir), opt_view(home))
            == Ok::<(Seq<char>, Option<Seq<char>>), Seq<char>>((p@, opt_string_view(f))),
        r matches Err(e) ==> rules_directories_spec(opt_view(delta_config_dir), opt_view(home))
            == Err::<(Seq<char>, Option<Seq<char>>), Seq<char>>(e@),
{
    match delta_config_dir {
        Some(d) => {
            if d.unicode_len() == 0 {
                return Err(String::from_str("DELTA_CONFIG_DIR is empty"));
            }
            Ok((d.to_owned(), None))
        },
        None => match home {
            None => Err(String::from_str("HOME is not set")),
            Some(h) => Ok(
                (
                    join_path(h, ".config/delta"),
                    Some(join_path(h, "Library/Application Support/delta")),
                ),
            ),
        },
    }
}

} // verus!

verus! {

pub open spec fn references_current_spec(config: Seq<char>, binary: Seq<char>, contents: Option<Seq<char>>) -> Result<bool, Seq<char>> {
    match managed_rules_spec(config, binary) {
        Err(e) => Err(e),
        Ok(block) => Ok(
            match contents {
                Some(c) => merge_spec(c, block) == Ok::<Seq<char>, Seq<char>>(c),
                None => false,
            },
        ),
    }
}

/// Whether the rules file (`None` when absent) already holds the current
/// managed block for this binary and configuration, so that installing
/// would change nothing.
pub fn references_current(config: &str, binary: &str, contents: Option<&str>) -> (r: Result<bool, String>)
    ensures
        r matches Ok(b) ==> references_current_spec(config@, binary@, opt_view(contents)) == Ok::<bool, Seq<char>>(b),
        r matches Err(e) ==> references_current_spec(config@, binary@, opt_view(contents)) == Err::<bool, Seq<char>>(e@),
{
    let block = managed_rules(config, binary)?;
    match contents {
        None => Ok(false),
        Some(c) => match merge(c, block.as_str()) {
            Ok(u) => Ok(crate::text::same_text(u.as_str(), c)),
            Err(_) => Ok(false),
        },
    }
}

} // verus!

verus! {

/// A marker: `<` only at its start, and no line break.
pub open spec fn is_marker(p: Seq<char>) -> bool {
    &&& p.len() > 0
    &&& p[0] == '<'
    &&& forall|k: int| 0 < k < p.len() ==> #[trigger] p[k] != '<'
    &&& forall|k: int| 0 <= k < p.len() ==> #[trigger] p[k] != '\n'
}

proof fn lemma_markers()
    ensures
        is_marker(BEGIN@),
        is_marker(END@),
        BEGIN@.len() == 35,
        END@.len() == 33,
        BEGIN@[5] != END@[5],
{
    reveal_strlit("<!-- BEGIN RWS REMOTE EXECUTION -->");
    reveal_strlit("<!-- END RWS REMOTE EXECUTION -->");
    assert(BEGIN@ =~= seq!['<', '!', '-', '-', ' ', 'B', 'E', 'G', 'I', 'N', ' ', 'R', 'W', 'S', ' ', 'R', 'E', 'M', 'O', 'T', 'E', ' ', 'E', 'X', 'E', 'C', 'U', 'T', 'I', 'O', 'N', ' ', '-', '-', '>']);
    assert(END@ =~= seq!['<', '!', '-', '-', ' ', 'E', 'N', 'D', ' ', 'R', 'W', 'S', ' ', 'R', 'E', 'M', 'O', 'T', 'E', ' ', 'E', 'X', 'E', 'C', 'U', 'T', 'I', 'O', 'N', ' ', '-', '-', '>']);
}

/// A block that carries the begin marker only at its start and the end
/// marker only at its end, as [`managed_rules`] writes it.
pub open spec fn is_block(b: Seq<char>) -> bool {
    &&& sole_occurrence(b, BEGIN@) == Some(0int)
    &&& sole_occurrence(b, END@) == Some(b.len() - END@.len())
}

proof fn lemma_first_exists(s: Seq<char>, p: Seq<char>, k: int)
    requires
        occurs_at(s, p, k),
    ensures
        exists|c: int| occurs_at(s, p, c) && forall|j: int| 0 <= j < c ==> !occurs_at(s, p, j),
    decreases k,
{
    if exists|j: int| 0 <= j < k && occurs_at(s, p, j) {
        let j = choose|j: int| 0 <= j < k && occurs_at(s, p, j);
        lemma_first_exists(s, p, j);
    } else {
        assert(forall|j: int| 0 <= j < k ==> !occurs_at(s, p, j));
    }
}

proof fn lemma_sole_facts(s: Seq<char>, p: Seq<char>, i: int)
    requires
        sole_occurrence(s, p) == Some(i),
    ensures
        occurs_at(s, p, i),
        forall|j: int| #[trigger] occurs_at(s, p, j) ==> j == i,
{
    reveal(first_occurrence);
    assert(contains_seq(s, p));
    let k = choose|k: int| occurs_at(s, p, k);
    lemma_first_exists(s, p, k);
    assert(occurs_at(s, p, i) && forall|j: int| 0 <= j < i ==> !occurs_at(s, p, j));
    assert(forall|j: int| i < j ==> !occurs_at(s, p, j));
    assert forall|j: int| #[trigger] occurs_at(s, p, j) implies j == i by {
        if j < i {
            assert(0 <= j);
        }
    }
}

proof fn lemma_sole_from(s: Seq<char>, p: Seq<char>, i: int)
    requires
        occurs_at(s, p, i),
        forall|j: int| #[trigger] occurs_at(s, p, j) ==> j == i,
    ensures
        sole_occurrence(s, p) == Some(i),
        contains_seq(s, p),
{
    reveal(first_occurrence);
    assert(contains_seq(s, p));
}

proof fn lemma_none_facts(s: Seq<char>, p: Seq<char>)
    requires
        !contains_seq(s, p),
    ensures
        forall|j: int| !#[trigger] occurs_at(s, p, j),
{
}

/// An occurrence of a marker in `x + y` that starts in `x` lies in `x`
/// when `y` starts with `<` or a line break.
proof fn lemma_left_part(x: Seq<char>, y: Seq<char>, p: Seq<char>, i: int)
    requires
        is_marker(p),
        y.len() > 0,
        y[0] == '<' || y[0] == '\n',
        occurs_at(x + y, p, i),
        i < x.len(),
    ensures
        occurs_at(x, p, i),
{
    let s = x + y;
    if i + p.len() > x.len() {
        let k = x.len() - i;
        assert(s.subrange(i, i + p.len())[k] == s[x.len() as int]);
        assert(p[k] == y[0]);
    } else {
        assert(s.subrange(i, i + p.len()) =~= x.subrange(i, i + p.len()));
    }
}

proof fn lemma_right_part(x: Seq<char>, y: Seq<char>, p: Seq<char>, i: int)
    requires
        i >= x.len(),
    ensures
        occurs_at(x + y, p, i) == occurs_at(y, p, i - x.len()),
{
    let s = x + y;
    if 0 <= i && i + p.len() <= s.len() {
        assert(s.subrange(i, i + p.len()) =~= y.subrange(i - x.len(), i - x.len() + p.len()));
    }
}

proof fn lemma_shift(x: Seq<char>, y: Seq<char>, p: Seq<char>, i: int)
    requires
        0 <= i,
        i + p.len() <= x.len(),
    ensures
        occurs_at(x + y, p, i) == occurs_at(x, p, i),
{
    assert((x + y).subrange(i, i + p.len()) =~= x.subrange(i, i + p.len()));
}

/// No marker occurrence runs from a block into what follows it.
proof fn lemma_block_end(b: Seq<char>, y: Seq<char>, p: Seq<char>, t: int)
    requires
        p == BEGIN@ || p == END@,
        is_block(b),
        occurs_at(b + y, p, t),
        t < b.len(),
    ensures
        t + p.len() <= b.len(),
        occurs_at(b, p, t),
{
    lemma_markers();
    lemma_sole_facts(b, END@, b.len() - END@.len());
    let s = b + y;
    let q = b.len() - END@.len();
    assert(b.subrange(q, b.len() as int) == END@);
    if t + p.len() > b.len() {
        if t < q {
            assert(s.subrange(t, t + p.len())[q - t] == s[q]);
            assert(s[q] == b[q]);
            assert(b[q] == END@[0]);
            assert(p[q - t] == '<');
        } else if t == q {
            assert(p == BEGIN@);
            assert(s.subrange(t, t + p.len())[5] == s[q + 5]);
            assert(s[q + 5] == b[q + 5]);
            assert(b[q + 5] == END@[5]);
        } else {
            assert(s.subrange(t, t + p.len())[0] == s[t]);
            assert(s[t] == b[t]);
            assert(b[t] == END@[t - q]);
        }
    }
    lemma_shift(b, y, p, t);
}

/// Installing the same block again changes nothing: the merge of a block
/// that carries its markers only at its ends is a fixed point.
pub proof fn lemma_merge_idempotent(original: Seq<char>, block: Seq<char>)
    requires
        is_block(block),
        merge_spec(original, block) is Ok,
    ensures
        merge_spec(merge_spec(original, block)->Ok_0, block) == merge_spec(original, block),
{
    lemma_markers();
    let b = block;
    let m = merge_spec(original, block)->Ok_0;
    lemma_sole_facts(b, BEGIN@, 0);
    lemma_sole_facts(b, END@, b.len() - END@.len());
    assert(b.len() > END@.len()) by {
        if b.len() <= END@.len() {
            assert(b.len() == END@.len());
            assert(b.subrange(0, 33)[5] == b[5]);
            assert(b[5] == BEGIN@[5]);
        }
    }
    let (left, right): (Seq<char>, Seq<char>) = if !contains_seq(original, BEGIN@) && !contains_seq(
        original,
        END@,
    ) {
        let sep: Seq<char> = if original.len() == 0 || original.last() == '\n' {
            Seq::empty()
        } else {
            seq!['\n']
        };
        (original + sep, seq!['\n'])
    } else {
        let bp = sole_occurrence(original, BEGIN@)->0;
        let ep = sole_occurrence(original, END@)->0;
        (original.take(bp), original.skip(ep + END@.len()))
    };
    assert(m =~= left + b + right);
    // Every marker occurrence in `left` or `right` would be one in `original`
    // that the merge excluded.
    assert forall|p: Seq<char>, i: int|
        (p == BEGIN@ || p == END@) && #[trigger] occurs_at(m, p, i) implies (p == BEGIN@ && i
        == left.len()) || (p == END@ && i == left.len() + b.len() - END@.len()) by {
        lemma_position(original, b, left, right, p, i);
    }
    let bpos = left.len() as int;
    let epos = left.len() + b.len() - END@.len();
    lemma_shift(left + b, right, BEGIN@, bpos);
    lemma_right_part(left, b, BEGIN@, bpos);
    lemma_shift(left + b, right, END@, epos);
    lemma_right_part(left, b, END@, epos);
    assert(m =~= (left + b) + right);
    lemma_sole_from(m, BEGIN@, bpos);
    lemma_sole_from(m, END@, epos);
    assert(m.take(bpos) =~= left);
    assert(m.skip(epos + END@.len()) =~= right);
}

proof fn lemma_position(original: Seq<char>, b: Seq<char>, left: Seq<char>, right: Seq<char>, p: Seq<char>, i: int)
    requires
        p == BEGIN@ || p == END@,
        is_block(b),
        b.len() > END@.len(),
        merge_spec(original, b) is Ok,
        (left, right) == (if !contains_seq(original, BEGIN@) && !contains_seq(original, END@) {
            (original + (if original.len() == 0 || original.last() == '\n' {
                Seq::empty()
            } else {
                seq!['\n']
            }), seq!['\n'])
        } else {
            (
                original.take(sole_occurrence(original, BEGIN@)->0),
                original.skip(sole_occurrence(original, END@)->0 + END@.len()),
            )
        }),
        occurs_at(left + b + right, p, i),
    ensures
        (p == BEGIN@ && i == left.len()) || (p == END@ && i == left.len() + b.len() - END@.len()),
{
    lemma_markers();
    lemma_sole_facts(b, BEGIN@, 0);
    lemma_sole_facts(b, END@, b.len() - END@.len());
    let m = left + b + right;
    assert(m =~= left + (b + right));
    if i < left.len() {
        lemma_left_part(left, b + right, p, i);
        if !contains_seq(original, BEGIN@) && !contains_seq(original, END@) {
            lemma_none_facts(original, p);
            if original.len() == 0 || original.last() == '\n' {
                assert(left =~= original);
            } else {
                lemma_left_part(original, seq!['\n'], p, i);
            }
        } else {
            let bp = sole_occurrence(original, BEGIN@)->0;
            let ep = sole_occurrence(original, END@)->0;
            lemma_sole_facts(original, BEGIN@, bp);
            lemma_sole_facts(original, END@, ep);
            assert(original =~= left + original.skip(bp));
            lemma_shift(left, original.skip(bp), p, i);
        }
    } else {
        lemma_right_part(left, b + right, p, i);
        let t = i - left.len();
        if t < b.len() {
            lemma_block_end(b, right, p, t);
        } else {
            lemma_right_part(b, right, p, t);
            let k = t - b.len();
            if !contains_seq(original, BEGIN@) && !contains_seq(original, END@) {
                assert(right[0] == '\n');
                assert(m.subrange(i, i + p.len())[0] == m[i]);
            } else {
                let bp = sole_occurrence(original, BEGIN@)->0;
                let ep = sole_occurrence(original, END@)->0;
                lemma_sole_facts(original, BEGIN@, bp);
                lemma_sole_facts(original, END@, ep);
                let cut = ep + END@.len();
                assert(original =~= original.take(cut) + right);
                lemma_right_part(original.take(cut), right, p, cut + k);
            }
        }
    }
}

} // verus!

verus! {

/// Installing keeps the user's own rules: a first block is appended after
/// all of the text, and a replaced block keeps everything before its begin
/// marker and after its end marker.
pub proof fn lemma_merge_keeps_user_rules(original: Seq<char>, block: Seq<char>)
    requires
        merge_spec(original, block) is Ok,
    ensures
        !contains_seq(original, BEGIN@) && !contains_seq(original, END@) ==> merge_spec(
            original,
            block,
        )->Ok_0.take(original.len() as int) == original,
        contains_seq(original, BEGIN@) || contains_seq(original, END@) ==> {
            let bp = sole_occurrence(original, BEGIN@)->0;
            let ep = sole_occurrence(original, END@)->0;
            &&& bp < ep
            &&& merge_spec(original, block)->Ok_0 == original.take(bp) + block + original.skip(
                ep + END@.len(),
            )
        },
{
    if !contains_seq(original, BEGIN@) && !contains_seq(original, END@) {
        let m = merge_spec(original, block)->Ok_0;
        assert(m.take(original.len() as int) =~= original);
    }
}

} // verus!

verus! {

/// After installing, the rules file refers to the current binary and
/// configuration: what `updated_rules` writes (or, when nothing needs
/// writing, the file as it is) is current. Left out: a block whose quoted
/// paths contain a marker themselves, which is not a block.
pub proof fn lemma_installed_rules_are_current(
    config: Seq<char>,
    binary: Seq<char>,
    target: Seq<char>,
    existing: Option<Seq<char>>,
)
    requires
        updated_rules_spec(config, binary, target, existing) is Ok,
        is_block(managed_rules_spec(config, binary)->Ok_0),
    ensures
        match updated_rules_spec(config, binary, target, existing) {
            Ok(Some(u)) => references_current_spec(config, binary, Some(u)) == Ok::<bool, Seq<char>>(true),
            Ok(None) => references_current_spec(config, binary, existing) == Ok::<bool, Seq<char>>(true),
            Err(_) => true,
        },
{
    let block = managed_rules_spec(config, binary)->Ok_0;
    let original = match existing {
        Some(x) => x,
        None => Seq::empty(),
    };
    lemma_merge_idempotent(original, block);
}

} // verus!
