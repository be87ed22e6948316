//! The zsh integration that switches into `rws shell` on entering a mount:
//! the snippet, the one `.zshrc` line that loads it, and the rewrite of a
//! shell file that keeps everything but that line byte for byte.
use vstd::prelude::*;
use vstd::utf8::{decode_utf8, encode_utf8, valid_utf8};
use crate::text::{
    chars_of, contains_char, find, first_occurrence, has_char, has_prefix, lemma_pieces_nonempty,
    opt_view, pieces, shell_quote, single_quoted, starts_with, string_of,
};

verus! {

/// Marker comment identifying the `.zshrc` line managed by `rws hook install`.
pub const MARKER: &'static str = "# RWS auto-shell hook";

pub const DUPLICATE_HOOKS: &'static str = "duplicate active RWS hooks; keep exactly one active managed hook in the shell file, then retry repair (file left unchanged)";

pub const SNIPPET_HEAD: &'static str = "# RWS: switch into the workspace's remote shell when entering its mount.\n_rws_auto_shell() {\n  [[ -n ${RWS_NO_AUTO_SHELL-} ]] && return 0\n  local prefix=${RWS_AUTO_PREFIX:-/Volumes}\n  if [[ $PWD != $prefix/* ]]; then\n    unset _RWS_AUTO_SUPPRESS\n    return 0\n  fi\n  local rest=${PWD#$prefix/}\n  local volume=$prefix/${rest%%/*}\n  if [[ -n ${_RWS_AUTO_SUPPRESS-} && ( $PWD == $_RWS_AUTO_SUPPRESS || $PWD == $_RWS_AUTO_SUPPRESS/* ) ]]; then\n    return 0\n  fi\n  unset _RWS_AUTO_SUPPRESS\n  local -a rws_cmd\n  rws_cmd=(";

pub const SNIPPET_MIDDLE: &'static str = ")\n  ";

pub const SNIPPET_TAIL: &'static str = "\n  local context\n  if ! context=$(\"${rws_cmd[@]}\" context --cwd \"$PWD\" 2>&1); then\n    print -u2 \"rws auto-shell: $context\"\n    _RWS_AUTO_SUPPRESS=$volume\n    return 0\n  fi\n  [[ $context == *'\"mode\":\"remote\"'* ]] || return 0\n  local ws=${context#*\\\"workspace\\\":\\\"}\n  ws=${ws%%\\\"*}\n  local host=${context#*\\\"host\\\":\\\"}\n  host=${host%%\\\"*}\n  typeset -gA _RWS_AUTO_CHOICE\n  local choice=${RWS_AUTO_MODE-}\n  [[ -z $choice ]] && choice=${_RWS_AUTO_CHOICE[$ws]-}\n  if [[ -z $choice ]]; then\n    # No controlling terminal (script, IDE subprocess): never prompt or switch.\n    if ! { : < /dev/tty; } 2>/dev/null; then\n      return 0\n    fi\n    local reply=''\n    IFS= read -r -k 1 \"reply?RWS: switch to $host ($ws)? [Y/n] \" < /dev/tty || return 0\n    [[ $reply == $'\\n' ]] || print -u2 ''\n    case $reply in\n      ($'\\n'|y|Y|o|O) choice=remote ;;\n      (*) choice=local ;;\n    esac\n    _RWS_AUTO_CHOICE[$ws]=$choice\n  fi\n  [[ $choice == remote ]] || return 0\n  \"${rws_cmd[@]}\" shell\n  _RWS_AUTO_SUPPRESS=$volume\n}\ntypeset -ga chpwd_functions\nif (( ! ${chpwd_functions[(I)_rws_auto_shell]} )); then\n  chpwd_functions+=(_rws_auto_shell)\nfi\n# Also cover a shell that starts inside a mounted workspace.\n_rws_auto_shell\n";

pub const CONFIG_FROM_ENVIRONMENT: &'static str = "[[ -n ${RWS_CONFIG-} ]] && rws_cmd+=(--config \"$RWS_CONFIG\")";

pub const CONFIG_BAKED_HEAD: &'static str = "if [[ -n ${RWS_CONFIG-} ]]; then\n    rws_cmd+=(--config \"$RWS_CONFIG\")\n  else\n    rws_cmd+=(--config ";

pub const CONFIG_BAKED_TAIL: &'static str = ")\n  fi";

pub open spec fn quote_spec(label: Seq<char>, path: Seq<char>) -> Result<Seq<char>, Seq<char>> {
    if has_char(path, '\n') || has_char(path, '\r') || has_char(path, '\0') {
        Err(label + " path must not contain newlines or NUL"@)
    } else {
        Ok(single_quoted(path))
    }
}

/// One literal shell word for a path; a path that would break the line it
/// is written on is refused, naming `label`.
pub fn quote(label: &str, path: &str) -> (r: Result<String, String>)
    ensures
        r matches Ok(q) ==> quote_spec(label@, path@) == Ok::<Seq<char>, Seq<char>>(q@),
        r matches Err(e) ==> quote_spec(label@, path@) == Err::<Seq<char>, Seq<char>>(e@),
{
    if contains_char(path, '\n') || contains_char(path, '\r') || contains_char(path, '\0') {
        let mut e = label.to_owned();
        e.append(" path must not contain newlines or NUL");
        return Err(e);
    }
    Ok(shell_quote(path))
}

pub open spec fn config_selection_spec(config: Option<Seq<char>>) -> Result<Seq<char>, Seq<char>> {
    match config {
        None => Ok(CONFIG_FROM_ENVIRONMENT@),
        Some(c) => match quote_spec("configuration"@, c) {
            Err(e) => Err(e),
            Ok(q) => Ok(CONFIG_BAKED_HEAD@ + q + CONFIG_BAKED_TAIL@),
        },
    }
}

pub open spec fn zsh_snippet_spec(rws: Seq<char>, config: Option<Seq<char>>) -> Result<Seq<char>, Seq<char>> {
    match quote_spec("rws executable"@, rws) {
        Err(e) => Err(e),
        Ok(q) => match config_selection_spec(config) {
            Err(e) => Err(e),
            Ok(selection) => Ok(SNIPPET_HEAD@ + q + SNIPPET_MIDDLE@ + selection + SNIPPET_TAIL@),
        },
    }
}

/// The zsh snippet for `eval "$(rws hook zsh)"`. It runs the given
/// executable, never one found on `PATH`; a given configuration path is
/// baked in, and `RWS_CONFIG` in the environment takes priority over it.
pub fn zsh_snippet(rws: &str, config: Option<&str>) -> (r: Result<String, String>)
    ensures
        r matches Ok(s) ==> zsh_snippet_spec(rws@, opt_view(config)) == Ok::<Seq<char>, Seq<char>>(s@),
        r matches Err(e) ==> zsh_snippet_spec(rws@, opt_view(config)) == Err::<Seq<char>, Seq<char>>(e@),
{
    let quoted = quote("rws executable", rws)?;
    let selection = match config {
        Some(c) => {
            let q = quote("configuration", c)?;
            let mut s = String::from_str(CONFIG_BAKED_HEAD);
            s.append(q.as_str());
            s.append(CONFIG_BAKED_TAIL);
            s
        },
        None => String::from_str(CONFIG_FROM_ENVIRONMENT),
    };
    let mut s = String::from_str(SNIPPET_HEAD);
    s.append(quoted.as_str());
    s.append(SNIPPET_MIDDLE);
    s.append(selection.as_str());
    s.append(SNIPPET_TAIL);
    Ok(s)
}

pub open spec fn install_line_spec(rws: Seq<char>, config: Option<Seq<char>>) -> Result<Seq<char>, Seq<char>> {
    match quote_spec("rws executable"@, rws) {
        Err(e) => Err(e),
        Ok(q) => match config {
            None => Ok("eval \"$("@ + q + " hook zsh)\" "@ + MARKER@),
            Some(c) => match quote_spec("configuration"@, c) {
                Err(e) => Err(e),
                Ok(qc) => Ok("eval \"$("@ + q + " --config "@ + qc + " hook zsh)\" "@ + MARKER@),
            },
        },
    }
}

/// The single `.zshrc` line that `rws hook install` manages.
pub fn install_line(rws: &str, config: Option<&str>) -> (r: Result<String, String>)
    ensures
        r matches Ok(l) ==> install_line_spec(rws@, opt_view(config)) == Ok::<Seq<char>, Seq<char>>(l@),
        r matches Err(e) ==> install_line_spec(rws@, opt_view(config)) == Err::<Seq<char>, Seq<char>>(e@),
{
    let q = quote("rws executable", rws)?;
    let mut l = String::from_str("eval \"$(");
    l.append(q.as_str());
    if let Some(c) = config {
        let qc = quote("configuration", c)?;
        l.append(" --config ");
        l.append(qc.as_str());
    }
    l.append(" hook zsh)\" ");
    l.append(MARKER);
    Ok(l)
}

/// Number of leading spaces and tabs.
pub open spec fn indent_len(line: Seq<char>) -> int
    decreases line.len(),
{
    if line.len() > 0 && (line[0] == ' ' || line[0] == '\t') {
        1 + indent_len(line.skip(1))
    } else {
        0
    }
}

proof fn lemma_indent_at(s: Seq<char>, k: int)
    requires
        0 <= k <= s.len(),
        forall|i: int| 0 <= i < k ==> (#[trigger] s[i] == ' ' || s[i] == '\t'),
        k < s.len() ==> !(s[k] == ' ' || s[k] == '\t'),
    ensures
        indent_len(s) == k,
    decreases s.len(),
{
    if k > 0 {
        assert forall|i: int| 0 <= i < k - 1 implies (#[trigger] s.skip(1)[i] == ' ' || s.skip(1)[i]
            == '\t') by {
            assert(s.skip(1)[i] == s[i + 1]);
        }
        lemma_indent_at(s.skip(1), k - 1);
    }
}

/// An active managed line: after its indentation it runs `eval "$(`, and it
/// carries the marker. The range runs from the end of the indentation to the
/// end of the first marker, in characters; what precedes and follows it
/// (indentation, a personal comment, the line break) belongs to the user.
pub open spec fn managed_range_spec(line: Seq<char>) -> Option<(int, int)> {
    let k = indent_len(line);
    let active = line.skip(k);
    if !has_prefix(active, "eval \"$("@) {
        None
    } else {
        match first_occurrence(active, MARKER@) {
            None => None,
            Some(m) => Some((k, k + m + MARKER@.len())),
        }
    }
}

pub fn managed_range(line: &str) -> (r: Option<(usize, usize)>)
    ensures
        match r {
            Some((s, e)) => managed_range_spec(line@) == Some((s as int, e as int)) && s <= e
                <= line@.len(),
            None => managed_range_spec(line@) is None,
        },
{
    let v = chars_of(line);
    let mut k: usize = 0;
    while k < v.len() && (v[k] == ' ' || v[k] == '\t')
        invariant
            k <= v@.len(),
            forall|i: int| 0 <= i < k ==> (#[trigger] v@[i] == ' ' || v@[i] == '\t'),
        decreases v.len() - k,
    {
        k += 1;
    }
    proof {
        lemma_indent_at(v@, k as int);
    }
    let active = string_of(&v, k, v.len());
    assert(active@ =~= line@.skip(k as int));
    if !starts_with(active.as_str(), "eval \"$(") {
        return None;
    }
    let av = chars_of(active.as_str());
    let mv = chars_of(MARKER);
    match find(&av, &mv) {
        None => None,
        Some(m) => Some((k, k + m + mv.len())),
    }
}

/// `std::str::from_utf8`: the text of `bytes` when they are valid UTF-8.
#[verifier::external_body]
fn decode(bytes: &[u8]) -> (r: Option<String>)
    ensures
        r is Some <==> valid_utf8(bytes@),
        r matches Some(s) ==> s@ == decode_utf8(bytes@),
{
    match std::str::from_utf8(bytes) {
        Ok(s) => Some(s.to_string()),
        Err(_) => None,
    }
}

/// The line of a `\n`-terminated piece of the file with its managed range,
/// when it is valid UTF-8 and managed.
pub open spec fn managed_piece(p: Seq<u8>) -> Option<(Seq<char>, int, int)> {
    if valid_utf8(p) {
        let l = decode_utf8(p);
        match managed_range_spec(l) {
            Some((s, e)) => Some((l, s, e)),
            None => None,
        }
    } else {
        None
    }
}

/// The managed command text of each managed piece, in order.
pub open spec fn managed_segments(ps: Seq<Seq<u8>>) -> Seq<Seq<char>>
    decreases ps.len(),
{
    if ps.len() == 0 {
        Seq::empty()
    } else {
        managed_segments(ps.drop_last()) + match managed_piece(ps.last()) {
            Some((l, s, e)) => seq![l.subrange(s, e)],
            None => Seq::empty(),
        }
    }
}

/// A piece with its managed range replaced; other pieces unchanged.
pub open spec fn piece_out(p: Seq<u8>, replacement: Seq<char>) -> Seq<u8> {
    match managed_piece(p) {
        Some((l, s, e)) => encode_utf8(l.take(s) + replacement + l.skip(e)),
        None => p,
    }
}

pub open spec fn rewritten(ps: Seq<Seq<u8>>, replacement: Seq<char>) -> Seq<u8>
    decreases ps.len(),
{
    if ps.len() == 0 {
        Seq::empty()
    } else {
        rewritten(ps.drop_last(), replacement) + piece_out(ps.last(), replacement)
    }
}

/// The new contents of a shell file: the one managed line replaced, or,
/// when there is none and `append_missing` holds, `replacement` added as a
/// line of its own. More than one managed line is refused.
pub open spec fn rewrite_spec(original: Seq<u8>, replacement: Seq<char>, append_missing: bool) -> Result<Seq<u8>, Seq<char>> {
    let ps = pieces(original, 10u8);
    let n = managed_segments(ps).len();
    if n > 1 {
        Err(DUPLICATE_HOOKS@)
    } else {
        let body = rewritten(ps, replacement);
        if n == 0 && append_missing {
            let b = if body.len() > 0 && body.last() != 10u8 {
                body.push(10u8)
            } else {
                body
            };
            Ok(b + encode_utf8(replacement) + seq![10u8])
        } else {
            Ok(body)
        }
    }
}

/// `split_inclusive` on newline bytes.
pub fn byte_pieces_of(s: &[u8]) -> (r: Vec<Vec<u8>>)
    ensures
        r.deep_view() == pieces(s@, 10u8),
{
    let mut out: Vec<Vec<u8>> = Vec::new();
    let mut cur: Vec<u8> = Vec::new();
    let mut i: usize = 0;
    proof {
        assert(s@.take(0) =~= Seq::<u8>::empty());
    }
    while i < s.len()
        invariant
            i <= s@.len(),
            cur@.len() == 0 ==> out.deep_view() == pieces(s@.take(i as int), 10u8),
            cur@.len() > 0 ==> out.deep_view().push(cur@) == pieces(s@.take(i as int), 10u8),
            cur@.len() > 0 ==> cur@.last() != 10u8,
            cur@.len() == 0 && out.deep_view().len() > 0 ==> out.deep_view().last().len() > 0
                && out.deep_view().last().last() == 10u8,
        decreases s.len() - i,
    {
        let ghost before = s@.take(i as int);
        proof {
            assert(s@.take(i + 1).drop_last() =~= before);
            lemma_pieces_nonempty(before, 10u8);
            if cur@.len() > 0 {
                assert(pieces(before, 10u8).last() == cur@);
            } else if pieces(before, 10u8).len() > 0 {
                assert(i > 0);
            }
        }
        let b = s[i];
        let ghost old_out = out.deep_view();
        let ghost old_cur = cur@;
        cur.push(b);
        if b == 10u8 {
            assert(cur.deep_view() =~= cur@);
            out.push(cur);
            cur = Vec::new();
            proof {
                if old_cur.len() == 0 {
                    assert(pieces(s@.take(i + 1), 10u8) =~= old_out.push(seq![b]));
                    assert(out.deep_view() =~= old_out.push(old_cur.push(b)));
                    assert(old_cur.push(b) =~= seq![b]);
                } else {
                    assert(pieces(s@.take(i + 1), 10u8) =~= old_out.push(old_cur.push(b)));
                    assert(out.deep_view() =~= old_out.push(old_cur.push(b)));
                }
            }
        } else {
            proof {
                if old_cur.len() == 0 {
                    assert(old_cur.push(b) =~= seq![b]);
                    assert(pieces(s@.take(i + 1), 10u8) =~= old_out.push(seq![b]));
                } else {
                    assert(pieces(s@.take(i + 1), 10u8) =~= old_out.push(old_cur.push(b)));
                }
            }
        }
        i += 1;
    }
    proof {
        assert(s@.take(i as int) =~= s@);
    }
    if cur.len() > 0 {
        let ghost o = out.deep_view();
        assert(cur.deep_view() =~= cur@);
        out.push(cur);
        proof {
            assert(out.deep_view() =~= o.push(cur@));
        }
    }
    out
}

fn append_bytes(out: &mut Vec<u8>, b: &[u8])
    ensures
        final(out)@ == old(out)@ + b@,
{
    let mut i: usize = 0;
    while i < b.len()
        invariant
            i <= b@.len(),
            out@ == old(out)@ + b@.take(i as int),
        decreases b.len() - i,
    {
        out.push(b[i]);
        i += 1;
        assert(out@ =~= old(out)@ + b@.take(i as int));
    }
    assert(b@.take(i as int) =~= b@);
}

proof fn lemma_segments_grow(ps: Seq<Seq<u8>>, n: int)
    requires
        0 <= n <= ps.len(),
    ensures
        managed_segments(ps.take(n)).len() <= managed_segments(ps).len(),
        managed_segments(ps.take(n)) =~= managed_segments(ps).take(
            managed_segments(ps.take(n)).len() as int,
        ),
    decreases ps.len() - n,
{
    if n < ps.len() {
        assert(ps.drop_last().take(n) =~= ps.take(n));
        lemma_segments_grow(ps.drop_last(), n);
    } else {
        assert(ps.take(n) =~= ps);
    }
}

/// The piece with its managed range replaced, and whether it was managed.
fn piece_out_exec(p: &Vec<u8>, replacement: &str) -> (r: (Vec<u8>, Option<String>))
    ensures
        r.0@ == piece_out(p@, replacement@),
        match managed_piece(p@) {
            Some((l, s, e)) => r.1 matches Some(seg) && seg@ == l.subrange(s, e),
            None => r.1 is None,
        },
{
    let line = match decode(p.as_slice()) {
        None => {
            return (p.clone(), None);
        },
        Some(l) => l,
    };
    match managed_range(line.as_str()) {
        None => (p.clone(), None),
        Some((s, e)) => {
            let v = chars_of(line.as_str());
            let mut t = string_of(&v, 0, s);
            t.append(replacement);
            let tail = string_of(&v, e, v.len());
            t.append(tail.as_str());
            let seg = string_of(&v, s, e);
            proof {
                assert(tail@ =~= line@.skip(e as int));
            }
            let mut out: Vec<u8> = Vec::new();
            append_bytes(&mut out, t.as_str().as_bytes());
            assert(out@ =~= encode_utf8(t@));
            (out, Some(seg))
        },
    }
}

/// The contents after installing (`append_missing`) or refreshing the
/// managed line `replacement`.
pub fn rewrite(original: &[u8], replacement: &str, append_missing: bool) -> (r: Result<Vec<u8>, String>)
    ensures
        r matches Ok(b) ==> rewrite_spec(original@, replacement@, append_missing) == Ok::<Seq<u8>, Seq<char>>(b@),
        r matches Err(e) ==> rewrite_spec(original@, replacement@, append_missing) == Err::<Seq<u8>, Seq<char>>(e@),
{
    let ps = byte_pieces_of(original);
    let ghost all = ps.deep_view();
    let mut updated: Vec<u8> = Vec::new();
    let mut found = false;
    let mut i: usize = 0;
    proof {
        assert(all.take(0) =~= Seq::<Seq<u8>>::empty());
    }
    while i < ps.len()
        invariant
            all == ps.deep_view(),
            all == pieces(original@, 10u8),
            i <= ps.len(),
            updated@ == rewritten(all.take(i as int), replacement@),
            found <==> managed_segments(all.take(i as int)).len() == 1,
            managed_segments(all.take(i as int)).len() <= 1,
        decreases ps.len() - i,
    {
        proof {
            assert(all.take(i + 1).drop_last() =~= all.take(i as int));
            assert(ps@[i as int].deep_view() =~= ps@[i as int]@);
            assert(all.take(i + 1).last() == ps@[i as int]@);
        }
        let (out, seg) = piece_out_exec(&ps[i], replacement);
        if seg.is_some() {
            if found {
                proof {
                    lemma_segments_grow(all, i + 1);
                }
                return Err(String::from_str(DUPLICATE_HOOKS));
            }
            found = true;
        }
        append_bytes(&mut updated, out.as_slice());
        i += 1;
    }
    proof {
        assert(all.take(i as int) =~= all);
    }
    let ghost body = updated@;
    assert(body == rewritten(all, replacement@));
    if !found && append_missing {
        let n = updated.len();
        if n > 0 && updated[n - 1] != 10u8 {
            updated.push(10u8);
        }
        let ghost b = updated@;
        assert(b == if body.len() > 0 && body.last() != 10u8 {
            body.push(10u8)
        } else {
            body
        });
        let rb = replacement.as_bytes();
        assert(rb@ == encode_utf8(replacement@));
        append_bytes(&mut updated, rb);
        updated.push(10u8);
        assert(updated@ =~= b + encode_utf8(replacement@) + seq![10u8]);
    }
    Ok(updated)
}

fn same_bytes(a: &Vec<u8>, b: &[u8]) -> (r: bool)
    ensures
        r == (a@ == b@),
{
    if a.len() != b.len() {
        return false;
    }
    let mut i: usize = 0;
    while i < a.len()
        invariant
            a@.len() == b@.len(),
            i <= a@.len(),
            forall|j: int| 0 <= j < i ==> a@[j] == b@[j],
        decreases a.len() - i,
    {
        if a[i] != b[i] {
            return false;
        }
        i += 1;
    }
    assert(a@ =~= b@);
    true
}

/// The bytes to write to the shell file, or `None` when the rewrite would
/// leave it as it is.
pub fn update(original: &[u8], replacement: &str, append_missing: bool) -> (r: Result<Option<Vec<u8>>, String>)
    ensures
        match rewrite_spec(original@, replacement@, append_missing) {
            Err(e) => r matches Err(f) && f@ == e,
            Ok(b) => if b == original@ {
                r matches Ok(None)
            } else {
                r matches Ok(Some(u)) && u@ == b
            },
        },
{
    let updated = rewrite(original, replacement, append_missing)?;
    if same_bytes(&updated, original) {
        Ok(None)
    } else {
        Ok(Some(updated))
    }
}

pub open spec fn bytes_view(o: Option<&[u8]>) -> Option<Seq<u8>> {
    match o {
        Some(b) => Some(b@),
        None => None,
    }
}

pub open spec fn references_current_spec(contents: Option<Seq<u8>>, rws: Seq<char>, config: Option<Seq<char>>) -> Result<bool, Seq<char>> {
    match install_line_spec(rws, config) {
        Err(e) => Err(e),
        Ok(expected) => match contents {
            None => Ok(false),
            Some(c) => {
                let segs = managed_segments(pieces(c, 10u8));
                Ok(segs.len() == 1 && segs[0] == expected)
            },
        },
    }
}

/// Whether the shell file (`None` when it does not exist) has exactly one
/// active managed hook and that hook runs the expected command. Indentation
/// and trailing personal comments do not count as drift.
pub fn references_current(contents: Option<&[u8]>, rws: &str, config: Option<&str>) -> (r: Result<bool, String>)
    ensures
        r matches Ok(b) ==> references_current_spec(bytes_view(contents), rws@, opt_view(config)) == Ok::<bool, Seq<char>>(b),
        r matches Err(e) ==> references_current_spec(bytes_view(contents), rws@, opt_view(config)) == Err::<bool, Seq<char>>(e@),
{
    let expected = install_line(rws, config)?;
    let bytes = match contents {
        None => {
            return Ok(false);
        },
        Some(b) => b,
    };
    let ps = byte_pieces_of(bytes);
    let ghost all = ps.deep_view();
    let mut count: usize = 0;
    let mut matches = false;
    let mut i: usize = 0;
    proof {
        assert(all.take(0) =~= Seq::<Seq<u8>>::empty());
    }
    while i < ps.len()
        invariant
            all == ps.deep_view(),
            all == pieces(bytes@, 10u8),
            i <= ps.len(),
            count <= i,
            count as int == managed_segments(all.take(i as int)).len(),
            count > 0 ==> (matches <==> managed_segments(all.take(i as int)).last() == expected@),
        decreases ps.len() - i,
    {
        proof {
            assert(all.take(i + 1).drop_last() =~= all.take(i as int));
            assert(ps@[i as int].deep_view() =~= ps@[i as int]@);
            assert(all.take(i + 1).last() == ps@[i as int]@);
        }
        let (_, seg) = piece_out_exec(&ps[i], "");
        if let Some(s) = seg {
            count += 1;
            matches = crate::text::same_text(s.as_str(), expected.as_str());
        }
        i += 1;
    }
    proof {
        assert(all.take(i as int) =~= all);
    }
    Ok(count == 1 && matches)
}

} // verus!

verus! {

pub open spec fn refresh_existing_spec(contents: Option<Seq<u8>>, rws: Seq<char>, config: Option<Seq<char>>) -> Result<Option<Seq<u8>>, Seq<char>> {
    match install_line_spec(rws, config) {
        Err(e) => Err(e),
        Ok(line) => match contents {
            None => Ok(None),
            Some(c) => match rewrite_spec(c, line, false) {
                Err(e) => Err(e),
                Ok(u) => if u == c {
                    Ok(None)
                } else {
                    Ok(Some(u))
                },
            },
        },
    }
}

/// Refreshes active managed hooks only: the new contents of the shell file
/// (`None` when it is missing) when any byte changes. Disabled hooks, a
/// missing file and everything else are left alone.
pub fn refresh_existing(contents: Option<&[u8]>, rws: &str, config: Option<&str>) -> (r: Result<Option<Vec<u8>>, String>)
    ensures
        match refresh_existing_spec(bytes_view(contents), rws@, opt_view(config)) {
            Err(e) => r matches Err(f) && f@ == e,
            Ok(None) => r matches Ok(None),
            Ok(Some(u)) => r matches Ok(Some(v)) && v@ == u,
        },
{
    let line = install_line(rws, config)?;
    match contents {
        None => Ok(None),
        Some(c) => update(c, line.as_str(), false),
    }
}

pub open spec fn install_spec(contents: Option<Seq<u8>>, rws: Seq<char>, config: Option<Seq<char>>) -> Result<(Seq<char>, Option<Seq<u8>>), Seq<char>> {
    match install_line_spec(rws, config) {
        Err(e) => Err(e),
        Ok(line) => {
            let c = match contents {
                Some(c) => c,
                None => Seq::empty(),
            };
            match rewrite_spec(c, line, true) {
                Err(e) => Err(e),
                Ok(u) => Ok((line, if u == c && contents is Some { None } else { Some(u) })),
            }
        },
    }
}

/// Installs the managed line: it replaces the one managed line, or is
/// appended as a line of its own. Returns the line and the contents to
/// write when anything changes; a missing file is created.
pub fn install(contents: Option<&[u8]>, rws: &str, config: Option<&str>) -> (r: Result<(String, Option<Vec<u8>>), String>)
    ensures
        match install_spec(bytes_view(contents), rws@, opt_view(config)) {
            Err(e) => r matches Err(f) && f@ == e,
            Ok((line, None)) => r matches Ok((l, None)) && l@ == line,
            Ok((line, Some(u))) => r matches Ok((l, Some(v))) && l@ == line && v@ == u,
        },
{
    let line = install_line(rws, config)?;
    match contents {
        Some(c) => {
            let u = update(c, line.as_str(), true)?;
            Ok((line, u))
        },
        None => {
            let empty: Vec<u8> = Vec::new();
            let u = rewrite(empty.as_slice(), line.as_str(), true)?;
            assert(empty@ =~= Seq::<u8>::empty());
            Ok((line, Some(u)))
        },
    }
}

} // verus!

verus! {

proof fn lemma_rewritten_unmanaged(ps: Seq<Seq<u8>>, replacement: Seq<char>)
    requires
        managed_segments(ps).len() == 0,
    ensures
        rewritten(ps, replacement) == crate::text::flatten(ps),
    decreases ps.len(),
{
    if ps.len() > 0 {
        let tail: Seq<Seq<char>> = match managed_piece(ps.last()) {
            Some((l, s, e)) => seq![l.subrange(s, e)],
            None => Seq::empty(),
        };
        assert(managed_segments(ps) == managed_segments(ps.drop_last()) + tail);
        assert(managed_segments(ps.drop_last()).len() == 0);
        assert(managed_piece(ps.last()) is None);
        lemma_rewritten_unmanaged(ps.drop_last(), replacement);
    }
}

/// A refresh leaves a shell file without an active managed hook exactly as
/// it is: disabled hooks, comments and other bytes are never touched.
pub proof fn lemma_refresh_without_hooks_keeps_file(original: Seq<u8>, replacement: Seq<char>)
    requires
        managed_segments(pieces(original, 10u8)).len() == 0,
    ensures
        rewrite_spec(original, replacement, false) == Ok::<Seq<u8>, Seq<char>>(original),
{
    lemma_rewritten_unmanaged(pieces(original, 10u8), replacement);
    crate::text::lemma_flatten_pieces(original, 10u8);
}

/// Any rewrite keeps every piece that is not the managed line: the result
/// is the pieces of the file in order, each unchanged unless managed.
pub proof fn lemma_rewrite_keeps_other_lines(original: Seq<u8>, replacement: Seq<char>, append_missing: bool)
    requires
        rewrite_spec(original, replacement, append_missing) is Ok,
        managed_segments(pieces(original, 10u8)).len() == 1 || !append_missing,
    ensures
        rewrite_spec(original, replacement, append_missing) == Ok::<Seq<u8>, Seq<char>>(
            rewritten(pieces(original, 10u8), replacement),
        ),
        forall|p: Seq<u8>| managed_piece(p) is None ==> piece_out(p, replacement) == p,
{
}

} // verus!

verus! {

/// A line fit to be the managed hook: it runs `eval "$(`, holds no line
/// break, and its first marker is the one it ends with.
pub open spec fn hook_line_shape(r: Seq<char>) -> bool {
    &&& has_prefix(r, "eval \"$("@)
    &&& r.len() >= MARKER@.len()
    &&& first_occurrence(r, MARKER@) == Some(r.len() - MARKER@.len())
    &&& !has_char(r, '\n')
}

/// The marker of a hook-shaped line stays its first one whatever follows.
proof fn lemma_first_marker(r: Seq<char>, tail: Seq<char>)
    requires
        hook_line_shape(r),
    ensures
        has_prefix(r + tail, "eval \"$("@),
        first_occurrence(r + tail, MARKER@) == Some(r.len() - MARKER@.len()),
{
    reveal_strlit("eval \"$(");
    let m = MARKER@;
    let x = r + tail;
    let i = r.len() - m.len();
    crate::text::lemma_first_occurrence_at(r, m, i);
    crate::text::lemma_first_occurrence_at(x, m, i);
    assert(x.subrange(0, 8) =~= r.subrange(0, 8));
    assert(x.subrange(i, i + m.len()) =~= r.subrange(i, i + m.len()));
    assert forall|j: int| 0 <= j < i implies !crate::text::occurs_at(x, m, j) by {
        assert(!crate::text::occurs_at(r, m, j));
        assert(x.subrange(j, j + m.len()) =~= r.subrange(j, j + m.len()));
    }
}

proof fn lemma_scalar_newline(c: char)
    ensures
        vstd::utf8::encode_scalar(c as u32).len() > 0,
        c == '\n' ==> vstd::utf8::encode_scalar(c as u32) == seq![10u8],
        c != '\n' ==> forall|k: int|
            0 <= k < vstd::utf8::encode_scalar(c as u32).len() ==> #[trigger] vstd::utf8::encode_scalar(
                c as u32,
            )[k] != 10u8,
{
    let v = c as u32;
    vstd::utf8::char_u32_cast(c, v);
    vstd::utf8::char_u32_cast('\n', '\n' as u32);
    assert('\n' as u32 == 10u32);
    if vstd::utf8::has_width_1_encoding(v) {
        assert(v <= 0x7F ==> (((v & 0x7F) as u8 == 10u8) == (v == 10u32))) by (bit_vector);
    } else if vstd::utf8::has_width_2_encoding(v) {
        assert((0xC0u8 | ((v >> 6) & 0x1F) as u8) != 10u8) by (bit_vector);
        assert((0x80u8 | (v & 0x3F) as u8) != 10u8) by (bit_vector);
    } else if vstd::utf8::has_width_3_encoding(v) {
        assert((0xE0u8 | ((v >> 12) & 0x0F) as u8) != 10u8) by (bit_vector);
        assert((0x80u8 | ((v >> 6) & 0x3F) as u8) != 10u8) by (bit_vector);
        assert((0x80u8 | (v & 0x3F) as u8) != 10u8) by (bit_vector);
    } else {
        assert((0xF0u8 | ((v >> 18) & 0x7) as u8) != 10u8) by (bit_vector);
        assert((0x80u8 | ((v >> 12) & 0x3F) as u8) != 10u8) by (bit_vector);
        assert((0x80u8 | ((v >> 6) & 0x3F) as u8) != 10u8) by (bit_vector);
        assert((0x80u8 | (v & 0x3F) as u8) != 10u8) by (bit_vector);
    }
}

proof fn lemma_encode_concat(a: Seq<char>, b: Seq<char>)
    ensures
        encode_utf8(a + b) == encode_utf8(a) + encode_utf8(b),
    decreases a.len(),
{
    if a.len() == 0 {
        assert(a + b =~= b);
        assert(encode_utf8(a) + encode_utf8(b) =~= encode_utf8(b));
    } else {
        assert((a + b).drop_first() =~= a.drop_first() + b);
        assert((a + b)[0] == a[0]);
        lemma_encode_concat(a.drop_first(), b);
        assert(encode_utf8(a + b) =~= encode_utf8(a) + encode_utf8(b));
    }
}

proof fn lemma_encode_one(x: char)
    ensures
        encode_utf8(seq![x]) == vstd::utf8::encode_scalar(x as u32),
{
    assert(seq![x].drop_first() =~= Seq::<char>::empty());
    assert(seq![x][0] == x);
    assert(encode_utf8(Seq::<char>::empty()) =~= Seq::<u8>::empty());
    assert(encode_utf8(seq![x]) =~= vstd::utf8::encode_scalar(x as u32));
}

/// Where the encoded text holds a newline byte.
proof fn lemma_encode_newlines(t: Seq<char>)
    ensures
        !has_char(t, '\n') ==> forall|k: int|
            0 <= k < encode_utf8(t).len() ==> #[trigger] encode_utf8(t)[k] != 10u8,
        t.len() > 0 ==> encode_utf8(t).len() > 0 && (encode_utf8(t).last() == 10u8 <==> t.last()
            == '\n'),
        crate::text::only_at_end(t, '\n') ==> crate::text::only_at_end(encode_utf8(t), 10u8),
    decreases t.len(),
{
    if t.len() > 0 {
        let td = t.drop_last();
        let x = t.last();
        assert(td + seq![x] =~= t);
        lemma_encode_concat(td, seq![x]);
        lemma_encode_one(x);
        lemma_scalar_newline(x);
        lemma_encode_newlines(td);
        let a = encode_utf8(td);
        let b = vstd::utf8::encode_scalar(x as u32);
        assert(encode_utf8(t) == a + b);
        if !has_char(t, '\n') {
            assert(!has_char(td, '\n')) by {
                if has_char(td, '\n') {
                    let i = choose|i: int| 0 <= i < td.len() && td[i] == '\n';
                    assert(t[i] == '\n');
                }
            }
            assert(x != '\n') by {
                assert(t[t.len() - 1] == x);
            }
            assert forall|k: int| 0 <= k < (a + b).len() implies (a + b)[k] != 10u8 by {
                if k >= a.len() {
                    assert((a + b)[k] == b[k - a.len()]);
                }
            }
        }
        assert((a + b).last() == b.last());
        if crate::text::only_at_end(t, '\n') {
            assert(!has_char(td, '\n')) by {
                if has_char(td, '\n') {
                    let i = choose|i: int| 0 <= i < td.len() && td[i] == '\n';
                    assert(t[i] == '\n');
                }
            }
            assert forall|k: int| 0 <= k < (a + b).len() - 1 implies (a + b)[k] != 10u8 by {
                if k >= a.len() {
                    assert((a + b)[k] == b[k - a.len()]);
                    if x == '\n' {
                        assert(b.len() == 1);
                    }
                }
            }
        }
    }
}

/// A newline character inside a text is a newline byte inside its encoding.
proof fn lemma_encode_newline_at(l: Seq<char>, i: int)
    requires
        0 <= i < l.len() - 1,
        l[i] == '\n',
    ensures
        !crate::text::only_at_end(encode_utf8(l), 10u8),
{
    let a = l.take(i);
    let c = l.skip(i + 1);
    assert(a + (seq![l[i]] + c) =~= l);
    lemma_encode_concat(a, seq![l[i]] + c);
    lemma_encode_concat(seq![l[i]], c);
    lemma_encode_one(l[i]);
    lemma_scalar_newline(l[i]);
    lemma_encode_newlines(c);
    let e = encode_utf8(l);
    let k = encode_utf8(a).len() as int;
    assert(e[k] == 10u8);
    assert(k < e.len() - 1);
}

proof fn lemma_decode_newlines(p: Seq<u8>)
    requires
        valid_utf8(p),
        crate::text::only_at_end(p, 10u8),
    ensures
        crate::text::only_at_end(decode_utf8(p), '\n'),
        p.len() > 0 ==> decode_utf8(p).len() > 0 && (p.last() == 10u8 <==> decode_utf8(p).last()
            == '\n'),
{
    let l = decode_utf8(p);
    vstd::utf8::decode_utf8_encode_utf8(p);
    assert(encode_utf8(l) == p);
    assert forall|i: int| 0 <= i < l.len() - 1 implies l[i] != '\n' by {
        if l[i] == '\n' {
            lemma_encode_newline_at(l, i);
        }
    }
    if p.len() > 0 {
        if l.len() == 0 {
            assert(encode_utf8(l) =~= Seq::<u8>::empty());
        }
        lemma_encode_newlines(l);
    }
}


proof fn lemma_indent_prefix(l: Seq<char>)
    ensures
        0 <= indent_len(l) <= l.len(),
        forall|i: int| 0 <= i < indent_len(l) ==> (#[trigger] l[i] == ' ' || l[i] == '\t'),
        indent_len(l) < l.len() ==> !(l[indent_len(l)] == ' ' || l[indent_len(l)] == '\t'),
    decreases l.len(),
{
    if l.len() > 0 && (l[0] == ' ' || l[0] == '\t') {
        lemma_indent_prefix(l.skip(1));
        assert forall|i: int| 0 <= i < indent_len(l) implies (#[trigger] l[i] == ' ' || l[i]
            == '\t') by {
            if i > 0 {
                assert(l[i] == l.skip(1)[i - 1]);
            }
        }
        if indent_len(l) < l.len() {
            assert(l[indent_len(l)] == l.skip(1)[indent_len(l) - 1]);
        }
    }
}

/// What a managed range says of its line.
proof fn lemma_range_facts(l: Seq<char>)
    requires
        managed_range_spec(l) is Some,
    ensures
        ({
            let (s, e) = managed_range_spec(l)->Some_0;
            &&& s == indent_len(l)
            &&& 0 <= s && s + MARKER@.len() <= e <= l.len()
            &&& l.subrange(e - MARKER@.len(), e) == MARKER@
        }),
{
    reveal_strlit("# RWS auto-shell hook");
    lemma_indent_prefix(l);
    let k = indent_len(l);
    let active = l.skip(k);
    let m = first_occurrence(active, MARKER@)->Some_0;
    crate::text::lemma_first_occurrence_at(active, MARKER@, m);
    let e = k + m + MARKER@.len();
    assert(l.subrange(e - MARKER@.len(), e) =~= active.subrange(m, m + MARKER@.len()));
}

/// The managed range of a rewritten line covers exactly the replacement.
proof fn lemma_piece_out_managed(p: Seq<u8>, r: Seq<char>)
    requires
        managed_piece(p) is Some,
        hook_line_shape(r),
    ensures
        managed_piece(piece_out(p, r)) matches Some((t, s, e)) && t.subrange(s, e) == r,
{
    reveal_strlit("eval \"$(");
    let (l, s, e) = managed_piece(p)->Some_0;
    lemma_range_facts(l);
    lemma_indent_prefix(l);
    let t = l.take(s) + r + l.skip(e);
    assert(piece_out(p, r) == encode_utf8(t));
    vstd::utf8::encode_utf8_valid_utf8(t);
    vstd::utf8::encode_utf8_decode_utf8(t);
    assert(r[0] == 'e') by {
        assert(r.subrange(0, 8)[0] == r[0]);
    }
    assert forall|i: int| 0 <= i < s implies (#[trigger] t[i] == ' ' || t[i] == '\t') by {
        assert(t[i] == l[i]);
    }
    assert(t[s] == r[0]);
    lemma_indent_at(t, s);
    assert(t.skip(s) =~= r + l.skip(e));
    lemma_first_marker(r, l.skip(e));
    assert(t.subrange(s, s + r.len()) =~= r);
}

/// Rewriting a well-shaped piece keeps its shape and whether it ends a line.
proof fn lemma_piece_out_shape(p: Seq<u8>, r: Seq<char>)
    requires
        p.len() > 0,
        crate::text::only_at_end(p, 10u8),
        hook_line_shape(r),
    ensures
        piece_out(p, r).len() > 0,
        crate::text::only_at_end(piece_out(p, r), 10u8),
        piece_out(p, r).last() == 10u8 <==> p.last() == 10u8,
{
    if managed_piece(p) is Some {
        reveal_strlit("# RWS auto-shell hook");
        let (l, s, e) = managed_piece(p)->Some_0;
        lemma_range_facts(l);
        lemma_indent_prefix(l);
        lemma_decode_newlines(p);
        let t = l.take(s) + r + l.skip(e);
        assert(piece_out(p, r) == encode_utf8(t));
        assert forall|i: int| 0 <= i < t.len() - 1 implies t[i] != '\n' by {
            if i < s {
                assert(t[i] == l[i]);
            } else if i < s + r.len() {
                assert(t[i] == r[i - s]);
            } else {
                assert(t[i] == l[e + (i - s - r.len())]);
            }
        }
        if e < l.len() {
            assert(t.last() == l.last());
        } else {
            assert(t.last() == r.last());
            assert(r.last() != '\n');
            assert(l.last() == l[e - 1]);
            assert(l[e - 1] == l.subrange(e - MARKER@.len(), e)[MARKER@.len() - 1]);
        }
        lemma_encode_newlines(t);
    }
}

/// Each piece with its managed range replaced.
pub open spec fn pieces_out(ps: Seq<Seq<u8>>, r: Seq<char>) -> Seq<Seq<u8>> {
    Seq::new(ps.len(), |i: int| piece_out(ps[i], r))
}

proof fn lemma_rewritten_flatten(ps: Seq<Seq<u8>>, r: Seq<char>)
    ensures
        rewritten(ps, r) == crate::text::flatten(pieces_out(ps, r)),
    decreases ps.len(),
{
    if ps.len() > 0 {
        lemma_rewritten_flatten(ps.drop_last(), r);
        assert(pieces_out(ps.drop_last(), r) =~= pieces_out(ps, r).drop_last());
    } else {
        assert(pieces_out(ps, r) =~= Seq::<Seq<u8>>::empty());
    }
}

proof fn lemma_outs_well_split(ps: Seq<Seq<u8>>, r: Seq<char>)
    requires
        crate::text::well_split(ps, 10u8),
        hook_line_shape(r),
    ensures
        crate::text::well_split(pieces_out(ps, r), 10u8),
{
    let qs = pieces_out(ps, r);
    assert forall|i: int| 0 <= i < qs.len() implies (#[trigger] qs[i]).len() > 0
        && crate::text::only_at_end(qs[i], 10u8) by {
        lemma_piece_out_shape(ps[i], r);
    }
    assert forall|i: int| 0 <= i < qs.len() - 1 implies (#[trigger] qs[i]).last() == 10u8 by {
        lemma_piece_out_shape(ps[i], r);
    }
}

proof fn lemma_outs_segments(ps: Seq<Seq<u8>>, r: Seq<char>)
    requires
        hook_line_shape(r),
    ensures
        managed_segments(pieces_out(ps, r)) == Seq::new(managed_segments(ps).len(), |i: int| r),
    decreases ps.len(),
{
    let qs = pieces_out(ps, r);
    if ps.len() > 0 {
        lemma_outs_segments(ps.drop_last(), r);
        assert(pieces_out(ps.drop_last(), r) =~= qs.drop_last());
        assert(qs.last() == piece_out(ps.last(), r));
        if managed_piece(ps.last()) is Some {
            lemma_piece_out_managed(ps.last(), r);
        }
        assert(managed_segments(qs) =~= Seq::new(managed_segments(ps).len(), |i: int| r));
    } else {
        assert(managed_segments(qs) =~= Seq::new(managed_segments(ps).len(), |i: int| r));
    }
}

proof fn lemma_newline_encoding()
    ensures
        encode_utf8(seq!['\n']) == seq![10u8],
        valid_utf8(seq![10u8]),
        decode_utf8(seq![10u8]) == seq!['\n'],
{
    lemma_encode_one('\n');
    lemma_scalar_newline('\n');
    vstd::utf8::encode_utf8_valid_utf8(seq!['\n']);
    vstd::utf8::encode_utf8_decode_utf8(seq!['\n']);
}

/// A line break added to a line that is not managed leaves it unmanaged.
proof fn lemma_range_newline(l: Seq<char>)
    requires
        managed_range_spec(l) is None,
    ensures
        managed_range_spec(l.push('\n')) is None,
{
    reveal_strlit("eval \"$(");
    reveal_strlit("# RWS auto-shell hook");
    let m = MARKER@;
    let ln = l.push('\n');
    lemma_indent_prefix(l);
    let k = indent_len(l);
    assert forall|i: int| 0 <= i < k implies (#[trigger] ln[i] == ' ' || ln[i] == '\t') by {
        assert(ln[i] == l[i]);
    }
    if k < l.len() {
        assert(ln[k] == l[k]);
    }
    lemma_indent_at(ln, k);
    let active = l.skip(k);
    let an = ln.skip(k);
    assert(an =~= active.push('\n'));
    if !has_prefix(active, "eval \"$("@) {
        if has_prefix(an, "eval \"$("@) {
            if active.len() >= 8 {
                assert(active.subrange(0, 8) =~= an.subrange(0, 8));
            } else {
                assert(an[7] == an.subrange(0, 8)[7]);
            }
        }
    } else {
        reveal(first_occurrence);
        assert(!crate::text::contains_seq(active, m));
        assert forall|j: int| !crate::text::occurs_at(an, m, j) by {
            if crate::text::occurs_at(an, m, j) {
                if j + m.len() <= active.len() {
                    assert(active.subrange(j, j + m.len()) =~= an.subrange(j, j + m.len()));
                    assert(crate::text::occurs_at(active, m, j));
                } else {
                    assert(an[active.len() as int] == an.subrange(j, j + m.len())[m.len() - 1]);
                }
            }
        }
    }
}

proof fn lemma_newline_piece_unmanaged(p: Seq<u8>)
    requires
        managed_piece(p) is None,
    ensures
        managed_piece(p.push(10u8)) is None,
{
    let b = p.push(10u8);
    if valid_utf8(b) {
        let n = p.len() as int;
        vstd::utf8::is_char_boundary_iff_not_is_continuation_byte(b, n);
        vstd::utf8::valid_utf8_split(b, n);
        vstd::utf8::decode_utf8_split(b, n);
        assert(b.subrange(0, n) =~= p);
        assert(b.subrange(n, b.len() as int) =~= seq![10u8]);
        lemma_newline_encoding();
        assert(decode_utf8(b) =~= decode_utf8(p).push('\n'));
        lemma_range_newline(decode_utf8(p));
    }
}

/// The line that an append adds: managed, covering the replacement.
proof fn lemma_line_piece(r: Seq<char>)
    requires
        hook_line_shape(r),
    ensures
        managed_piece(encode_utf8(r) + seq![10u8]) matches Some((t, s, e)) && t.subrange(s, e) == r,
        encode_utf8(r) + seq![10u8] == encode_utf8(r.push('\n')),
        crate::text::only_at_end(encode_utf8(r) + seq![10u8], 10u8),
{
    reveal_strlit("eval \"$(");
    let t = r.push('\n');
    lemma_encode_concat(r, seq!['\n']);
    assert(r + seq!['\n'] =~= t);
    lemma_newline_encoding();
    vstd::utf8::encode_utf8_valid_utf8(t);
    vstd::utf8::encode_utf8_decode_utf8(t);
    assert(r[0] == 'e') by {
        assert(r.subrange(0, 8)[0] == r[0]);
    }
    assert(t[0] == 'e');
    lemma_indent_at(t, 0);
    assert(t.skip(0) =~= r + seq!['\n']);
    lemma_first_marker(r, seq!['\n']);
    assert(t.subrange(0, r.len() as int) =~= r);
    assert forall|i: int| 0 <= i < t.len() - 1 implies t[i] != '\n' by {
        assert(t[i] == r[i]);
    }
    lemma_encode_newlines(t);
}

/// Rewriting a shell file with a hook-shaped line leaves exactly one active
/// managed hook in it, and that hook is the line.
proof fn lemma_rewrite_installs(original: Seq<u8>, r: Seq<char>, append_missing: bool)
    requires
        hook_line_shape(r),
        rewrite_spec(original, r, append_missing) is Ok,
        append_missing || managed_segments(pieces(original, 10u8)).len() == 1,
    ensures
        managed_segments(pieces(rewrite_spec(original, r, append_missing)->Ok_0, 10u8)) == seq![r],
{
    let ps = pieces(original, 10u8);
    let n = managed_segments(ps).len();
    crate::text::lemma_pieces_well_split(original, 10u8);
    lemma_rewritten_flatten(ps, r);
    lemma_outs_segments(ps, r);
    let result = rewrite_spec(original, r, append_missing)->Ok_0;
    if n == 1 {
        lemma_outs_well_split(ps, r);
        crate::text::lemma_pieces_flatten(pieces_out(ps, r), 10u8);
        assert(result == crate::text::flatten(pieces_out(ps, r)));
        assert(Seq::new(1, |i: int| r) =~= seq![r]);
    } else {
        assert(n == 0);
        lemma_rewritten_unmanaged(ps, r);
        crate::text::lemma_flatten_pieces(original, 10u8);
        let line = encode_utf8(r) + seq![10u8];
        lemma_line_piece(r);
        let body = original;
        let b = if body.len() > 0 && body.last() != 10u8 {
            body.push(10u8)
        } else {
            body
        };
        assert(result == b + line);
        if b.len() > 0 {
            assert(b.last() == 10u8);
        }
        crate::text::lemma_pieces_concat(b, line, 10u8);
        crate::text::lemma_pieces_of_piece(line, 10u8);
        let (l, s, e) = managed_piece(line)->Some_0;
        if body.len() > 0 && body.last() != 10u8 {
            assert(b.drop_last() =~= body);
            crate::text::lemma_pieces_last(body, 10u8);
            let q = ps.last();
            assert(managed_segments(ps) == managed_segments(ps.drop_last()) + match managed_piece(q) {
                Some((l, s, e)) => seq![l.subrange(s, e)],
                None => Seq::empty(),
            });
            assert(managed_piece(q) is None);
            lemma_newline_piece_unmanaged(q);
            let ps2 = ps.update(ps.len() - 1, q.push(10u8));
            assert(pieces(b, 10u8) == ps2);
            assert(ps2.drop_last() =~= ps.drop_last());
            assert((ps2 + seq![line]).drop_last() =~= ps2);
            assert(managed_segments(ps2) =~= managed_segments(ps.drop_last()));
            assert(managed_segments(ps2 + seq![line]) =~= seq![r]);
        } else {
            assert((ps + seq![line]).drop_last() =~= ps);
            assert(managed_segments(ps + seq![line]) =~= seq![r]);
        }
    }
}

proof fn lemma_no_newline_concat(a: Seq<char>, b: Seq<char>)
    requires
        !has_char(a, '\n'),
        !has_char(b, '\n'),
    ensures
        !has_char(a + b, '\n'),
{
    if has_char(a + b, '\n') {
        let i = choose|i: int| 0 <= i < (a + b).len() && (a + b)[i] == '\n';
        if i < a.len() {
            assert(a[i] == '\n');
        } else {
            assert(b[i - a.len()] == '\n');
        }
    }
}

proof fn lemma_escape_no_newline(p: Seq<char>)
    requires
        !has_char(p, '\n'),
    ensures
        !has_char(crate::text::escape_single_quotes(p), '\n'),
    decreases p.len(),
{
    if p.len() > 0 {
        let pd = p.drop_last();
        assert(!has_char(pd, '\n')) by {
            if has_char(pd, '\n') {
                let i = choose|i: int| 0 <= i < pd.len() && pd[i] == '\n';
                assert(p[i] == '\n');
            }
        }
        lemma_escape_no_newline(pd);
        assert(p.last() != '\n') by {
            assert(p[p.len() - 1] == p.last());
        }
        let tail: Seq<char> = if p.last() == '\'' {
            seq!['\'', '\\', '\'', '\'']
        } else {
            seq![p.last()]
        };
        assert(!has_char(tail, '\n'));
        lemma_no_newline_concat(crate::text::escape_single_quotes(pd), tail);
    }
}

proof fn lemma_quote_no_newline(label: Seq<char>, path: Seq<char>)
    requires
        quote_spec(label, path) is Ok,
    ensures
        !has_char(quote_spec(label, path)->Ok_0, '\n'),
{
    lemma_escape_no_newline(path);
    assert(!has_char(seq!['\''], '\n'));
    lemma_no_newline_concat(seq!['\''], crate::text::escape_single_quotes(path));
    lemma_no_newline_concat(seq!['\''] + crate::text::escape_single_quotes(path), seq!['\'']);
}

/// The installed line runs `eval "$(`, ends with the marker and holds no
/// line break.
proof fn lemma_install_line_shape(rws: Seq<char>, config: Option<Seq<char>>)
    requires
        install_line_spec(rws, config) matches Ok(line) && first_occurrence(line, MARKER@) == Some(
            line.len() - MARKER@.len(),
        ),
    ensures
        hook_line_shape(install_line_spec(rws, config)->Ok_0),
{
    reveal_strlit("eval \"$(");
    reveal_strlit(" hook zsh)\" ");
    reveal_strlit(" --config ");
    reveal_strlit("# RWS auto-shell hook");
    let eval = "eval \"$("@;
    let hook = " hook zsh)\" "@;
    let m = MARKER@;
    assert(!has_char(eval, '\n'));
    assert(!has_char(hook, '\n'));
    assert(!has_char(m, '\n'));
    assert(!has_char(" --config "@, '\n'));
    let q = quote_spec("rws executable"@, rws)->Ok_0;
    lemma_quote_no_newline("rws executable"@, rws);
    let line = install_line_spec(rws, config)->Ok_0;
    let middle = match config {
        None => q,
        Some(c) => {
            let qc = quote_spec("configuration"@, c)->Ok_0;
            lemma_quote_no_newline("configuration"@, c);
            lemma_no_newline_concat(q, " --config "@);
            lemma_no_newline_concat(q + " --config "@, qc);
            q + " --config "@ + qc
        },
    };
    assert(!has_char(middle, '\n'));
    assert(line =~= eval + middle + hook + m);
    lemma_no_newline_concat(eval, middle);
    lemma_no_newline_concat(eval + middle, hook);
    lemma_no_newline_concat(eval + middle + hook, m);
    assert(line.subrange(0, 8) =~= eval);
}

/// Installing the hook leaves the shell file with exactly one active
/// managed hook, the installed line, so the file then refers to the current
/// executable and configuration; when nothing needed writing, the file
/// already did. Left out: a line whose quoted paths contain the marker text
/// themselves, so that its marker is not the first one.
pub proof fn lemma_install_then_current(contents: Option<Seq<u8>>, rws: Seq<char>, config: Option<Seq<char>>)
    requires
        install_spec(contents, rws, config) matches Ok((line, _)) && first_occurrence(line, MARKER@)
            == Some(line.len() - MARKER@.len()),
    ensures
        match install_spec(contents, rws, config) {
            Ok((_, Some(u))) => references_current_spec(Some(u), rws, config) == Ok::<bool, Seq<char>>(true),
            Ok((_, None)) => references_current_spec(contents, rws, config) == Ok::<bool, Seq<char>>(true),
            Err(_) => true,
        },
{
    let line = install_line_spec(rws, config)->Ok_0;
    lemma_install_line_shape(rws, config);
    let c = match contents {
        Some(c) => c,
        None => Seq::empty(),
    };
    lemma_rewrite_installs(c, line, true);
}

/// A managed piece whose range already holds the replacement is rewritten
/// to itself.
proof fn lemma_piece_out_same(p: Seq<u8>, r: Seq<char>)
    requires
        managed_piece(p) matches Some((l, s, e)) && l.subrange(s, e) == r,
    ensures
        piece_out(p, r) == p,
{
    let (l, s, e) = managed_piece(p)->Some_0;
    lemma_range_facts(l);
    assert(l.take(s) + r + l.skip(e) =~= l);
    vstd::utf8::decode_utf8_encode_utf8(p);
}

proof fn lemma_rewritten_same(ps: Seq<Seq<u8>>, r: Seq<char>)
    requires
        forall|i: int| 0 <= i < managed_segments(ps).len() ==> #[trigger] managed_segments(ps)[i] == r,
    ensures
        rewritten(ps, r) == crate::text::flatten(ps),
    decreases ps.len(),
{
    if ps.len() > 0 {
        let q = ps.last();
        let tail: Seq<Seq<char>> = match managed_piece(q) {
            Some((l, s, e)) => seq![l.subrange(s, e)],
            None => Seq::empty(),
        };
        assert(managed_segments(ps) == managed_segments(ps.drop_last()) + tail);
        assert forall|i: int| 0 <= i < managed_segments(ps.drop_last()).len() implies #[trigger] managed_segments(
            ps.drop_last(),
        )[i] == r by {
            assert(managed_segments(ps)[i] == managed_segments(ps.drop_last())[i]);
        }
        lemma_rewritten_same(ps.drop_last(), r);
        if managed_piece(q) is Some {
            assert(managed_segments(ps)[managed_segments(ps).len() - 1] == tail[0]);
            lemma_piece_out_same(q, r);
        }
    }
}

/// Installing again changes nothing: once installed, the same line finds
/// itself in place and nothing is written. Left out, as for the first
/// install: a line whose quoted paths contain the marker text themselves.
pub proof fn lemma_install_twice(contents: Option<Seq<u8>>, rws: Seq<char>, config: Option<Seq<char>>)
    requires
        install_spec(contents, rws, config) matches Ok((line, _)) && first_occurrence(line, MARKER@)
            == Some(line.len() - MARKER@.len()),
    ensures
        ({
            let (line, written) = install_spec(contents, rws, config)->Ok_0;
            let installed = match written {
                Some(u) => u,
                None => contents->Some_0,
            };
            install_spec(Some(installed), rws, config) == Ok::<(Seq<char>, Option<Seq<u8>>), Seq<char>>((line, None))
        }),
{
    let line = install_line_spec(rws, config)->Ok_0;
    lemma_install_line_shape(rws, config);
    let c = match contents {
        Some(c) => c,
        None => Seq::empty(),
    };
    lemma_rewrite_installs(c, line, true);
    let installed = rewrite_spec(c, line, true)->Ok_0;
    let ps = pieces(installed, 10u8);
    assert(managed_segments(ps) == seq![line]);
    lemma_rewritten_same(ps, line);
    crate::text::lemma_flatten_pieces(installed, 10u8);
}

/// Refreshing a file with one active managed hook leaves that hook current:
/// repair brings a stale line up to date. Left out, as for install: a line
/// whose quoted paths contain the marker text themselves.
pub proof fn lemma_refresh_then_current(contents: Seq<u8>, rws: Seq<char>, config: Option<Seq<char>>)
    requires
        install_line_spec(rws, config) matches Ok(line) && first_occurrence(line, MARKER@) == Some(
            line.len() - MARKER@.len(),
        ),
        managed_segments(pieces(contents, 10u8)).len() == 1,
    ensures
        match refresh_existing_spec(Some(contents), rws, config) {
            Ok(Some(u)) => references_current_spec(Some(u), rws, config) == Ok::<bool, Seq<char>>(true),
            Ok(None) => references_current_spec(Some(contents), rws, config) == Ok::<bool, Seq<char>>(true),
            Err(_) => false,
        },
{
    let line = install_line_spec(rws, config)->Ok_0;
    lemma_install_line_shape(rws, config);
    lemma_rewrite_installs(contents, line, false);
}

/// An immediate second refresh writes nothing: what a refresh wrote is
/// already current. Left out, as for install: a line whose quoted paths
/// contain the marker text themselves.
pub proof fn lemma_refresh_twice(contents: Seq<u8>, rws: Seq<char>, config: Option<Seq<char>>)
    requires
        install_line_spec(rws, config) matches Ok(line) && first_occurrence(line, MARKER@) == Some(
            line.len() - MARKER@.len(),
        ),
        refresh_existing_spec(Some(contents), rws, config) is Ok,
    ensures
        match refresh_existing_spec(Some(contents), rws, config) {
            Ok(Some(u)) => refresh_existing_spec(Some(u), rws, config) == Ok::<Option<Seq<u8>>, Seq<char>>(None),
            _ => true,
        },
{
    let line = install_line_spec(rws, config)->Ok_0;
    lemma_install_line_shape(rws, config);
    let n = managed_segments(pieces(contents, 10u8)).len();
    if n == 0 {
        lemma_refresh_without_hooks_keeps_file(contents, line);
    } else if n == 1 {
        lemma_rewrite_installs(contents, line, false);
        let u = rewrite_spec(contents, line, false)->Ok_0;
        let ps = pieces(u, 10u8);
        assert(managed_segments(ps) == seq![line]);
        lemma_rewritten_same(ps, line);
        crate::text::lemma_flatten_pieces(u, 10u8);
    }
}

} // verus!
