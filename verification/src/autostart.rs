//! The one generic LaunchAgent that starts `rws autostart run`: its plist
//! text, the earlier plist forms it replaces, and the legacy per-workspace
//! agent files it removes. Reading and writing the files is the caller's.
use vstd::prelude::*;
use crate::paths::{file_name, file_name_of, is_absolute, is_absolute_exec, join, join_path, parent, parent_of};
use crate::text::{
    opt_view, between, between_exec, first_occurrence, has_char,
    ascii_alnum, chars_of, ends_with, has_prefix, has_suffix, is_ascii_alnum, lines, lines_of,
    replace_all, replace_exec, same_text, split_once, split_once_exec, starts_with, string_of,
};

verus! {

pub const LABEL: &'static str = "io.rws.mounts";

pub const PLIST_FILENAME: &'static str = "io.rws.mounts.plist";

pub const LEGACY_LABEL_PREFIX: &'static str = "io.rws.mount.";

/// The two diagnostic logs, inside [`log_directory`].
pub const STDOUT_LOG: &'static str = "autostart.log";

pub const STDERR_LOG: &'static str = "autostart.err.log";

pub const PLIST_HEAD: &'static str = "<?xml version=\"1.0\" encoding=\"UTF-8\"?>\n<!DOCTYPE plist PUBLIC \"-//Apple//DTD PLIST 1.0//EN\" \"http://www.apple.com/DTDs/PropertyList-1.0.dtd\">\n<plist version=\"1.0\"><dict>\n<key>Label</key><string>io.rws.mounts</string>\n<key>ProgramArguments</key><array><string>";

pub const PLIST_AFTER_BINARY: &'static str = "</string><string>autostart</string><string>run</string></array>\n<key>RunAtLoad</key><true/><key>KeepAlive</key><dict><key>SuccessfulExit</key><false/></dict><key>ThrottleInterval</key><integer>30</integer>\n<key>StartInterval</key><integer>30</integer>\n<key>StandardOutPath</key><string>";

pub const PLIST_AFTER_STDOUT: &'static str = "</string>\n<key>StandardErrorPath</key><string>";

pub const PLIST_TAIL: &'static str = "</string>\n</dict></plist>\n";

/// The schedule line that earlier plists did not have.
pub const START_INTERVAL_LINE: &'static str = "<key>StartInterval</key><integer>30</integer>\n";

pub const PROGRAM_ARGUMENTS_OPEN: &'static str = "<key>ProgramArguments</key><array><string>";

/// What is on disk at the agent's path.
#[derive(Clone, Copy, Debug, PartialEq, Eq, Structural)]
pub enum Status {
    Absent,
    Custom,
    Current,
    Stale,
}

/// XML text escaping: `&`, then `<` and `>`.
pub open spec fn xml_spec(v: Seq<char>) -> Seq<char> {
    replace_all(replace_all(replace_all(v, "&"@, "&amp;"@), "<"@, "&lt;"@), ">"@, "&gt;"@)
}

pub fn xml(value: &str) -> (r: String)
    ensures
        r@ == xml_spec(value@),
{
    proof {
        reveal_strlit("&");
        reveal_strlit("<");
        reveal_strlit(">");
    }
    let a = replace_exec(value, "&", "&amp;");
    let b = replace_exec(a.as_str(), "<", "&lt;");
    replace_exec(b.as_str(), ">", "&gt;")
}

pub open spec fn no_root_message() -> Seq<char> {
    "binary has no installation root"@
}

/// `ROOT/logs` for a binary at `ROOT/bin/rws`.
pub open spec fn log_directory_spec(binary: Seq<char>) -> Result<Seq<char>, Seq<char>> {
    match parent(binary) {
        Some(p) => match parent(p) {
            Some(root) => Ok(join(root, "logs"@)),
            None => Err(no_root_message()),
        },
        None => Err(no_root_message()),
    }
}

pub fn log_directory(binary: &str) -> (r: Result<String, String>)
    ensures
        r matches Ok(d) ==> log_directory_spec(binary@) == Ok::<Seq<char>, Seq<char>>(d@),
        r matches Err(e) ==> log_directory_spec(binary@) == Err::<Seq<char>, Seq<char>>(e@),
{
    match parent_of(binary) {
        Some(p) => match parent_of(p.as_str()) {
            Some(root) => Ok(join_path(root.as_str(), "logs")),
            None => Err(String::from_str("binary has no installation root")),
        },
        None => Err(String::from_str("binary has no installation root")),
    }
}

pub open spec fn plist_text(binary: Seq<char>, stdout: Seq<char>, stderr: Seq<char>) -> Seq<char> {
    PLIST_HEAD@ + binary + PLIST_AFTER_BINARY@ + stdout + PLIST_AFTER_STDOUT@ + stderr + PLIST_TAIL@
}

pub open spec fn plist_spec(binary: Seq<char>) -> Result<Seq<char>, Seq<char>> {
    if !is_absolute(binary) {
        Err("autostart requires an absolute binary path"@)
    } else {
        match log_directory_spec(binary) {
            Err(e) => Err(e),
            Ok(logs) => Ok(
                plist_text(
                    xml_spec(binary),
                    xml_spec(join(logs, STDOUT_LOG@)),
                    xml_spec(join(logs, STDERR_LOG@)),
                ),
            ),
        }
    }
}

/// The agent's plist: run `BINARY autostart run` at load and every 30
/// seconds, restart after a failure, log into `ROOT/logs`.
pub fn plist(binary: &str) -> (r: Result<String, String>)
    ensures
        r matches Ok(t) ==> plist_spec(binary@) == Ok::<Seq<char>, Seq<char>>(t@),
        r matches Err(e) ==> plist_spec(binary@) == Err::<Seq<char>, Seq<char>>(e@),
{
    if !is_absolute_exec(binary) {
        return Err(String::from_str("autostart requires an absolute binary path"));
    }
    let logs = log_directory(binary)?;
    let out = join_path(logs.as_str(), STDOUT_LOG);
    let err = join_path(logs.as_str(), STDERR_LOG);
    let mut t = String::from_str(PLIST_HEAD);
    t.append(xml(binary).as_str());
    t.append(PLIST_AFTER_BINARY);
    t.append(xml(out.as_str()).as_str());
    t.append(PLIST_AFTER_STDOUT);
    t.append(xml(err.as_str()).as_str());
    t.append(PLIST_TAIL);
    Ok(t)
}

/// The escaped binary path inside `<key>ProgramArguments</key>`.
pub open spec fn encoded_binary(contents: Seq<char>) -> Option<Seq<char>> {
    between(contents, PROGRAM_ARGUMENTS_OPEN@, "</string>"@)
}

/// Reverses [`xml`] as the agent's reader does: `&lt;`, `&gt;`, then `&amp;`.
pub open spec fn unescape(v: Seq<char>) -> Seq<char> {
    replace_all(replace_all(replace_all(v, "&lt;"@, "<"@), "&gt;"@, ">"@), "&amp;"@, "&"@)
}

/// Each line not naming a log path, each followed by a newline.
pub open spec fn without_log_lines(ls: Seq<Seq<char>>) -> Seq<char>
    decreases ls.len(),
{
    if ls.len() == 0 {
        Seq::empty()
    } else {
        let l = ls.last();
        without_log_lines(ls.drop_last()) + if has_prefix(l, "<key>StandardOutPath"@) || has_prefix(
            l,
            "<key>StandardErrorPath"@,
        ) {
            Seq::empty()
        } else {
            l + seq!['\n']
        }
    }
}

/// The plist as written before the diagnostic logs existed.
pub open spec fn legacy_form(current: Seq<char>) -> Seq<char> {
    without_log_lines(lines(current))
}

/// `contents` is, exactly, one of the four generations of the agent's
/// plist for the binary that it names.
pub open spec fn is_managed_spec(contents: Seq<char>) -> bool {
    &&& encoded_binary(contents) matches Some(b)
    &&& plist_spec(unescape(b)) matches Ok(current)
    &&& {
        let legacy = legacy_form(current);
        ||| contents == current
        ||| contents == legacy
        ||| contents == replace_all(current, START_INTERVAL_LINE@, Seq::empty())
        ||| contents == replace_all(legacy, START_INTERVAL_LINE@, Seq::empty())
    }
}

fn legacy_form_exec(current: &str) -> (r: String)
    ensures
        r@ == legacy_form(current@),
{
    let ls = lines_of(current);
    let mut out = String::new();
    let mut i: usize = 0;
    proof {
        assert(ls.deep_view().take(0) =~= Seq::<Seq<char>>::empty());
    }
    while i < ls.len()
        invariant
            ls.deep_view() == lines(current@),
            i <= ls.len(),
            out@ == without_log_lines(ls.deep_view().take(i as int)),
        decreases ls.len() - i,
    {
        proof {
            assert(ls.deep_view().take(i + 1).drop_last() =~= ls.deep_view().take(i as int));
            assert(ls.deep_view().take(i + 1).last() == ls@[i as int]@);
        }
        let line = ls[i].as_str();
        if !starts_with(line, "<key>StandardOutPath") && !starts_with(line, "<key>StandardErrorPath") {
            out.append(line);
            crate::text::push_char(&mut out, '\n');
            proof {
                assert(out@ =~= without_log_lines(ls.deep_view().take(i as int)) + (ls@[i as int]@
                    + seq!['\n']));
            }
        } else {
            proof {
                assert(without_log_lines(ls.deep_view().take(i + 1)) =~= without_log_lines(
                    ls.deep_view().take(i as int),
                ) + Seq::<char>::empty());
            }
        }
        i += 1;
    }
    proof {
        assert(ls.deep_view().take(i as int) =~= ls.deep_view());
    }
    out
}

fn remove_interval(text: &str) -> (r: String)
    ensures
        r@ == replace_all(text@, START_INTERVAL_LINE@, Seq::empty()),
{
    proof {
        reveal_strlit("<key>StartInterval</key><integer>30</integer>\n");
        reveal_strlit("");
    }
    let r = replace_exec(text, START_INTERVAL_LINE, "");
    assert(""@ =~= Seq::<char>::empty());
    r
}

/// Whether an agent plist on disk is one this program wrote (in any of its
/// generations) and may therefore be refreshed. Custom or hand-edited
/// plists, disabled ones among them, are not.
pub fn is_managed(contents: &str) -> (b: bool)
    ensures
        b == is_managed_spec(contents@),
{
    let encoded = match between_exec(contents, PROGRAM_ARGUMENTS_OPEN, "</string>") {
        None => {
            return false;
        },
        Some(e) => e,
    };
    proof {
        reveal_strlit("&lt;");
        reveal_strlit("&gt;");
        reveal_strlit("&amp;");
    }
    let a = replace_exec(encoded.as_str(), "&lt;", "<");
    let b = replace_exec(a.as_str(), "&gt;", ">");
    let binary = replace_exec(b.as_str(), "&amp;", "&");
    let current = match plist(binary.as_str()) {
        Err(_) => {
            return false;
        },
        Ok(c) => c,
    };
    let legacy = legacy_form_exec(current.as_str());
    let old = remove_interval(current.as_str());
    let old_without_logs = remove_interval(legacy.as_str());
    same_text(contents, current.as_str()) || same_text(contents, legacy.as_str()) || same_text(
        contents,
        old.as_str(),
    ) || same_text(contents, old_without_logs.as_str())
}

pub open spec fn status_spec(existing: Option<Seq<char>>, plist_present: bool, binary: Seq<char>) -> Result<Status, Seq<char>> {
    match existing {
        None => Ok(if plist_present { Status::Custom } else { Status::Absent }),
        Some(x) => match plist_spec(binary) {
            Err(e) => Err(e),
            Ok(p) => Ok(if x == p { Status::Current } else { Status::Stale }),
        },
    }
}

/// Classifies the agent: `existing` is the plist's text when it is a
/// managed one ([`is_managed`]), and `plist_present` says whether anything
/// at all is at the agent's path.
pub fn status(existing: Option<&str>, plist_present: bool, binary: &str) -> (r: Result<Status, String>)
    ensures
        r matches Ok(s) ==> status_spec(opt_view(existing), plist_present, binary@) == Ok::<Status, Seq<char>>(s),
        r matches Err(e) ==> status_spec(opt_view(existing), plist_present, binary@) == Err::<Status, Seq<char>>(e@),
{
    match existing {
        None => Ok(if plist_present { Status::Custom } else { Status::Absent }),
        Some(x) => {
            let p = plist(binary)?;
            Ok(if same_text(x, p.as_str()) { Status::Current } else { Status::Stale })
        },
    }
}

pub open spec fn legacy_name_char(c: char) -> bool {
    is_ascii_alnum(c) || c == '_' || c == '-'
}

pub open spec fn is_legacy_plist_filename_spec(path: Seq<char>) -> bool {
    match file_name(path) {
        None => false,
        Some(f) => {
            let rest = f.skip(LEGACY_LABEL_PREFIX@.len() as int);
            let name = rest.take(rest.len() - 6);
            &&& has_prefix(f, LEGACY_LABEL_PREFIX@)
            &&& has_suffix(rest, ".plist"@)
            &&& name.len() > 0
            &&& forall|i: int| 0 <= i < name.len() ==> legacy_name_char(#[trigger] name[i])
        },
    }
}

/// `io.rws.mount.NAME.plist`, the per-workspace agents of earlier versions,
/// with NAME made of ASCII letters, digits, `_` and `-`.
pub fn is_legacy_plist_filename(path: &str) -> (b: bool)
    ensures
        b == is_legacy_plist_filename_spec(path@),
{
    let f = match file_name_of(path) {
        None => {
            return false;
        },
        Some(f) => f,
    };
    proof {
        reveal_strlit("io.rws.mount.");
        reveal_strlit(".plist");
    }
    if !starts_with(f.as_str(), LEGACY_LABEL_PREFIX) {
        return false;
    }
    let v = chars_of(f.as_str());
    let rest = string_of(&v, 13, v.len());
    assert(rest@ =~= f@.skip(13));
    if !ends_with(rest.as_str(), ".plist") {
        return false;
    }
    let rv = chars_of(rest.as_str());
    let n = rv.len() - 6;
    if n == 0 {
        return false;
    }
    let mut i: usize = 0;
    while i < n
        invariant
            rv@ == rest@,
            file_name(path@) == Some(f@),
            has_prefix(f@, LEGACY_LABEL_PREFIX@),
            LEGACY_LABEL_PREFIX@.len() == 13,
            rest@ == f@.skip(13),
            has_suffix(rest@, ".plist"@),
            ".plist"@.len() == 6,
            n == rv@.len() - 6,
            i <= n,
            forall|j: int| 0 <= j < i ==> legacy_name_char(#[trigger] rv@[j]),
        decreases n - i,
    {
        let c = rv[i];
        if !(ascii_alnum(c) || c == '_' || c == '-') {
            proof {
                let name = rest@.take(rest@.len() - 6);
                assert(name[i as int] == c);
                assert(!legacy_name_char(name[i as int]));
            }
            return false;
        }
        i += 1;
    }
    proof {
        let name = rest@.take(rest@.len() - 6);
        assert forall|j: int| 0 <= j < name.len() implies legacy_name_char(#[trigger] name[j]) by {
            assert(name[j] == rv@[j]);
        }
    }
    true
}

} // verus!

verus! {

/// Every `<` of `k` is followed, within `k`, by text that cannot begin
/// `<key>ProgramArguments`.
pub open spec fn lt_safe(k: Seq<char>) -> bool {
    forall|a: int|
        0 <= a < k.len() && #[trigger] k[a] == '<' ==> a + 5 < k.len() && (k[a + 1] != 'k' || k[a
            + 5] != 'P')
}

proof fn lemma_lt_safe_concat(x: Seq<char>, y: Seq<char>)
    requires
        lt_safe(x),
        lt_safe(y),
    ensures
        lt_safe(x + y),
{
    let s = x + y;
    assert forall|a: int| 0 <= a < s.len() && #[trigger] s[a] == '<' implies a + 5 < s.len() && (
    s[a + 1] != 'k' || s[a + 5] != 'P') by {
        if a < x.len() {
            assert(x[a] == '<');
            assert(s[a + 1] == x[a + 1] && s[a + 5] == x[a + 5]);
        } else {
            assert(y[a - x.len()] == '<');
            assert(s[a + 1] == y[a + 1 - x.len()] && s[a + 5] == y[a + 5 - x.len()]);
        }
    }
}

proof fn lemma_lt_safe_no_open(s: Seq<char>)
    requires
        lt_safe(s),
    ensures
        !crate::text::contains_seq(s, PROGRAM_ARGUMENTS_OPEN@),
{
    reveal_strlit("<key>ProgramArguments</key><array><string>");
    let o = PROGRAM_ARGUMENTS_OPEN@;
    assert forall|j: int| !crate::text::occurs_at(s, o, j) by {
        if crate::text::occurs_at(s, o, j) {
            let w = s.subrange(j, j + o.len());
            assert(s[j] == w[0] && s[j + 1] == w[1] && s[j + 5] == w[5]);
        }
    }
}

pub open spec fn amp_token(c: char) -> Seq<char> {
    if c == '&' {
        "&amp;"@
    } else {
        seq![c]
    }
}

pub open spec fn amp_lt_token(c: char) -> Seq<char> {
    if c == '&' {
        "&amp;"@
    } else if c == '<' {
        "&lt;"@
    } else {
        seq![c]
    }
}

/// How [`xml`] writes one character.
pub open spec fn xml_token(c: char) -> Seq<char> {
    if c == '&' {
        "&amp;"@
    } else if c == '<' {
        "&lt;"@
    } else if c == '>' {
        "&gt;"@
    } else {
        seq![c]
    }
}

pub open spec fn lt_read_token(c: char) -> Seq<char> {
    if c == '&' {
        "&amp;"@
    } else if c == '>' {
        "&gt;"@
    } else {
        seq![c]
    }
}

pub open spec fn lt_gt_read_token(c: char) -> Seq<char> {
    if c == '&' {
        "&amp;"@
    } else {
        seq![c]
    }
}

/// Escaping writes each character on its own, and reading the escapes back
/// gives the text again; escaped text holds no `<`.
proof fn lemma_xml_round_trip(v: Seq<char>)
    ensures
        xml_spec(v) == crate::text::tokens(v, |c: char| xml_token(c)),
        unescape(xml_spec(v)) == v,
        !has_char(xml_spec(v), '<'),
{
    reveal_strlit("&");
    reveal_strlit("<");
    reveal_strlit(">");
    reveal_strlit("&amp;");
    reveal_strlit("&lt;");
    reveal_strlit("&gt;");
    let single = |c: char| seq![c];
    let f1 = |c: char| amp_token(c);
    let f2 = |c: char| amp_lt_token(c);
    let f3 = |c: char| xml_token(c);
    let g1 = |c: char| lt_read_token(c);
    let g2 = |c: char| lt_gt_read_token(c);
    crate::text::lemma_tokens_identity(v, single);
    assert forall|c: char| crate::text::token_replaced(#[trigger] single(c), "&"@, "&amp;"@, f1(c)) by {
        if c == '&' {
            assert(single(c) =~= "&"@);
        }
    }
    crate::text::lemma_replace_tokens(v, single, f1, "&"@, "&amp;"@);
    assert forall|c: char| crate::text::token_replaced(#[trigger] f1(c), "<"@, "&lt;"@, f2(c)) by {
        if c == '<' {
            assert(f1(c) =~= "<"@);
        }
    }
    crate::text::lemma_replace_tokens(v, f1, f2, "<"@, "&lt;"@);
    assert forall|c: char| crate::text::token_replaced(#[trigger] f2(c), ">"@, "&gt;"@, f3(c)) by {
        if c == '>' {
            assert(f2(c) =~= ">"@);
        }
    }
    crate::text::lemma_replace_tokens(v, f2, f3, ">"@, "&gt;"@);
    assert forall|c: char| crate::text::token_replaced(#[trigger] f3(c), "&lt;"@, "<"@, g1(c)) by {
        if c == '&' {
            assert(f3(c).take(4) != "&lt;"@) by {
                assert(f3(c).take(4)[1] != "&lt;"@[1]);
            }
        } else if c == '<' {
            assert(g1(c) =~= "<"@);
        } else if c == '>' {
            assert(f3(c).take(4) != "&lt;"@) by {
                assert(f3(c).take(4)[1] != "&lt;"@[1]);
            }
        }
    }
    crate::text::lemma_replace_tokens(v, f3, g1, "&lt;"@, "<"@);
    assert forall|c: char| crate::text::token_replaced(#[trigger] g1(c), "&gt;"@, ">"@, g2(c)) by {
        if c == '&' {
            assert(g1(c).take(4) != "&gt;"@) by {
                assert(g1(c).take(4)[1] != "&gt;"@[1]);
            }
        } else if c == '>' {
            assert(g2(c) =~= ">"@);
        }
    }
    crate::text::lemma_replace_tokens(v, g1, g2, "&gt;"@, ">"@);
    assert forall|c: char| crate::text::token_replaced(#[trigger] g2(c), "&amp;"@, "&"@, single(c)) by {
        if c == '&' {
            assert(single(c) =~= "&"@);
        }
    }
    crate::text::lemma_replace_tokens(v, g2, single, "&amp;"@, "&"@);
    assert forall|c: char| !has_char(#[trigger] f3(c), '<') by {
    }
    crate::text::lemma_tokens_without(v, f3, '<');
}

/// The head of the plist names the program arguments once, at its end.
#[verifier::spinoff_prover]
#[verifier::rlimit(40)]
proof fn lemma_head_opens_once(rest: Seq<char>)
    ensures
        PLIST_HEAD@.len() == 259,
        PROGRAM_ARGUMENTS_OPEN@.len() == 42,
        first_occurrence(PLIST_HEAD@ + rest, PROGRAM_ARGUMENTS_OPEN@) == Some(217int),
        (PLIST_HEAD@ + rest).skip(259) == rest,
{
    reveal_strlit("<?xml version=\"1.0\" encoding=\"UTF-8\"?>\n<!DOCTYPE plist PUBLIC \"-//Apple//DTD PLIST 1.0//EN\" \"http://www.apple.com/DTDs/PropertyList-1.0.dtd\">\n<plist version=\"1.0\"><dict>\n<key>Label</key><string>io.rws.mounts</string>\n<key>ProgramArguments</key><array><string>");
    reveal_strlit("<key>ProgramArguments</key><array><string>");
    let h = PLIST_HEAD@;
    let o = PROGRAM_ARGUMENTS_OPEN@;
    let c = h + rest;
    assert(h.len() == 259);
    assert(h.subrange(217, 259) =~= o);
    assert(forall|k: int| 0 <= k < 259 && #[trigger] h[k] == 'u' ==> k == 203 || k == 232);
    assert(forall|k: int| 0 <= k < 259 && #[trigger] h[k] == 'A' ==> k == 66 || k == 229);
    assert(crate::text::occurs_at(c, o, 217)) by {
        assert(c.subrange(217, 259) =~= h.subrange(217, 259));
    }
    assert forall|j: int| 0 <= j < 217 implies !crate::text::occurs_at(c, o, j) by {
        if crate::text::occurs_at(c, o, j) {
            let w = c.subrange(j, j + 42);
            assert(w[15] == c[j + 15] && w[12] == c[j + 12]);
            assert(c[j + 15] == h[j + 15] && c[j + 12] == h[j + 12]);
        }
    }
    crate::text::lemma_first_occurrence_at(c, o, 217);
    assert(c.skip(259) =~= rest);
}

/// The constant parts after the binary: none can start a second opening,
/// and the first begins with the closing tag.
#[verifier::spinoff_prover]
#[verifier::rlimit(40)]
proof fn lemma_after_parts()
    ensures
        lt_safe(PLIST_AFTER_BINARY@),
        lt_safe(PLIST_AFTER_STDOUT@),
        lt_safe(PLIST_TAIL@),
        "</string>"@.len() == 9,
        PLIST_AFTER_BINARY@.len() >= 9,
        PLIST_AFTER_BINARY@.subrange(0, 9) == "</string>"@,
        "</string>"@[0] == '<',
{
    reveal_strlit("</string><string>autostart</string><string>run</string></array>\n<key>RunAtLoad</key><true/><key>KeepAlive</key><dict><key>SuccessfulExit</key><false/></dict><key>ThrottleInterval</key><integer>30</integer>\n<key>StartInterval</key><integer>30</integer>\n<key>StandardOutPath</key><string>");
    reveal_strlit("</string>\n<key>StandardErrorPath</key><string>");
    reveal_strlit("</string>\n</dict></plist>\n");
    reveal_strlit("</string>");
    assert(PLIST_AFTER_BINARY@.subrange(0, 9) =~= "</string>"@);
}

/// The agent's reader recognizes every plist that [`plist`] writes, so an
/// agent that this program installed is one it may later refresh, and its
/// status is current.
pub proof fn lemma_plist_is_managed(binary: Seq<char>)
    requires
        plist_spec(binary) is Ok,
    ensures
        is_managed_spec(plist_spec(binary)->Ok_0),
        status_spec(Some(plist_spec(binary)->Ok_0), true, binary) == Ok::<Status, Seq<char>>(Status::Current),
{
    let o = PROGRAM_ARGUMENTS_OPEN@;
    let close = "</string>"@;
    let logs = log_directory_spec(binary)->Ok_0;
    let b = xml_spec(binary);
    let x = xml_spec(join(logs, STDOUT_LOG@));
    let y = xml_spec(join(logs, STDERR_LOG@));
    let a1 = PLIST_AFTER_BINARY@;
    let a2 = PLIST_AFTER_STDOUT@;
    let t = PLIST_TAIL@;
    let c = plist_spec(binary)->Ok_0;
    lemma_xml_round_trip(binary);
    lemma_xml_round_trip(join(logs, STDOUT_LOG@));
    lemma_xml_round_trip(join(logs, STDERR_LOG@));
    let tail = b + a1 + x + a2 + y + t;
    assert(c =~= PLIST_HEAD@ + tail);
    lemma_head_opens_once(tail);
    lemma_after_parts();
    // What follows the head holds no second opening.
    lemma_lt_safe_concat(b, a1);
    lemma_lt_safe_concat(b + a1, x);
    lemma_lt_safe_concat(b + a1 + x, a2);
    lemma_lt_safe_concat(b + a1 + x + a2, y);
    lemma_lt_safe_concat(b + a1 + x + a2 + y, t);
    lemma_lt_safe_no_open(tail);
    assert(first_occurrence(tail, o) is None) by {
        reveal(first_occurrence);
    }
    // The escaped binary runs up to the first closing tag.
    assert(crate::text::occurs_at(tail, close, b.len() as int)) by {
        assert(tail.subrange(b.len() as int, b.len() + 9int) =~= a1.subrange(0, 9));
    }
    assert forall|j: int| 0 <= j < b.len() implies !crate::text::occurs_at(tail, close, j) by {
        if crate::text::occurs_at(tail, close, j) {
            assert(tail.subrange(j, j + 9)[0] == tail[j]);
            assert(tail[j] == b[j]);
        }
    }
    crate::text::lemma_first_occurrence_at(tail, close, b.len() as int);
    assert(tail.take(b.len() as int) =~= b);
    assert(crate::text::split_once(c, o) == Some((c.take(217), tail)));
    assert(crate::text::first_segment(tail, o) == tail);
    assert(crate::text::first_segment(tail, close) == b);
    assert(encoded_binary(c) == Some(b));
}

} // verus!
