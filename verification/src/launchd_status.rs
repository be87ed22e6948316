//! Conservative reading of `launchctl` output for the loaded GUI LaunchAgent.
//! The format is not a stable API: anything unfamiliar is refused.
use vstd::prelude::*;
use crate::text::{
    chars_of, ends_with, lines, lines_of, same_text, split_once, split_once_exec, starts_with,
    string_of, trim, trim_end_char, trim_end_char_exec, trim_exec, has_prefix, has_suffix,
};

verus! {

pub open spec fn disabled_prefix() -> Seq<char> {
    "disabled services = {"@
}

pub open spec fn msg_unrecognized() -> Seq<char> {
    "cannot recognize launchd disabled-service output; activation not verified"@
}

pub open spec fn msg_bad_entry() -> Seq<char> {
    "cannot recognize launchd disabled-service entry; activation not verified"@
}

pub open spec fn msg_disabled() -> Seq<char> {
    "LaunchAgent is explicitly disabled; preserved without enabling it"@
}

pub open spec fn msg_unknown_state() -> Seq<char> {
    "unknown launchd disabled state; activation not verified"@
}

pub open spec fn msg_stale() -> Seq<char> {
    "on-disk agent is current, but its loaded executable/path/30-second schedule is stale or unrecognized; log out and in to load the updated agent, or inspect launchctl; no service changes made"@
}

pub open spec fn msg_current() -> Seq<char> {
    "current executable and 30-second schedule observed in launchd; this does not prove mount health"@
}

/// The body of `disabled services = { ... }`, if the output has that shape.
pub open spec fn disabled_entries(disabled: Seq<char>) -> Option<Seq<char>> {
    let d = trim(disabled);
    if has_prefix(d, disabled_prefix()) {
        let rest = d.skip(disabled_prefix().len() as int);
        if has_suffix(rest, "}"@) {
            Some(rest.drop_last())
        } else {
            None
        }
    } else {
        None
    }
}

/// What one line of the disabled-service list says against activation.
pub open spec fn entry_error(line: Seq<char>) -> Option<Seq<char>> {
    let t = trim(line);
    if t.len() == 0 {
        None
    } else {
        match split_once(t, " => "@) {
            None => Some(msg_bad_entry()),
            Some((label, value)) => if label == "\"io.rws.mounts\""@ {
                let v = trim_end_char(value, ';');
                if v == "true"@ || v == "disabled"@ {
                    Some(msg_disabled())
                } else if v == "false"@ || v == "enabled"@ {
                    None
                } else {
                    Some(msg_unknown_state())
                }
            } else {
                None
            },
        }
    }
}

/// The first objection among the lines, in order.
pub open spec fn entries_error(ls: Seq<Seq<char>>) -> Option<Seq<char>>
    decreases ls.len(),
{
    if ls.len() == 0 {
        None
    } else {
        match entries_error(ls.drop_last()) {
            Some(e) => Some(e),
            None => entry_error(ls.last()),
        }
    }
}

/// The trimmed, non-empty lines.
pub open spec fn trimmed_lines(ls: Seq<Seq<char>>) -> Seq<Seq<char>>
    decreases ls.len(),
{
    if ls.len() == 0 {
        Seq::empty()
    } else {
        let prev = trimmed_lines(ls.drop_last());
        let t = trim(ls.last());
        if t.len() > 0 {
            prev.push(t)
        } else {
            prev
        }
    }
}

/// The lines between `arguments = {` and the next `}`.
pub open spec fn loaded_arguments(loaded: Seq<char>) -> Option<Seq<Seq<char>>> {
    match split_once(loaded, "arguments = {"@) {
        None => None,
        Some((_, tail)) => match split_once(tail, "}"@) {
            None => None,
            Some((args, _)) => Some(trimmed_lines(lines(args))),
        },
    }
}

/// Some line of the output reads `expected` once trimmed.
pub open spec fn has_line(text: Seq<char>, expected: Seq<char>) -> bool {
    exists|i: int| 0 <= i < lines(text).len() && trim(#[trigger] lines(text)[i]) == expected
}

pub open spec fn loaded_is_current(loaded: Seq<char>, binary: Seq<char>, plist: Seq<char>) -> bool {
    &&& has_line(loaded, "program = "@ + binary)
    &&& has_line(loaded, "path = "@ + plist)
    &&& has_line(loaded, "run interval = 30 seconds"@)
    &&& loaded_arguments(loaded) == Some(seq![binary, "autostart"@, "run"@])
}

pub open spec fn verify_output_spec(
    loaded: Seq<char>,
    disabled: Seq<char>,
    binary: Seq<char>,
    plist: Seq<char>,
) -> Result<Seq<char>, Seq<char>> {
    match disabled_entries(disabled) {
        None => Err(msg_unrecognized()),
        Some(entries) => match entries_error(lines(entries)) {
            Some(e) => Err(e),
            None => if loaded_is_current(loaded, binary, plist) {
                Ok(msg_current())
            } else {
                Err(msg_stale())
            },
        },
    }
}

fn disabled_entries_exec(disabled: &str) -> (r: Option<String>)
    ensures
        r matches Some(e) ==> disabled_entries(disabled@) == Some(e@),
        r is None ==> disabled_entries(disabled@) is None,
{
    let d = trim_exec(disabled);
    let prefix = "disabled services = {";
    if !starts_with(d.as_str(), prefix) {
        return None;
    }
    let v = chars_of(d.as_str());
    let pv = chars_of(prefix);
    let rest = string_of(&v, pv.len(), v.len());
    proof {
        assert(rest@ =~= d@.skip(disabled_prefix().len() as int));
    }
    if !ends_with(rest.as_str(), "}") {
        return None;
    }
    let rv = chars_of(rest.as_str());
    proof {
        reveal_strlit("}");
    }
    let e = string_of(&rv, 0, rv.len() - 1);
    assert(e@ =~= rest@.drop_last());
    Some(e)
}

fn entry_error_exec(line: &str) -> (r: Option<String>)
    ensures
        r matches Some(e) ==> entry_error(line@) == Some(e@),
        r is None ==> entry_error(line@) is None,
{
    let t = trim_exec(line);
    if t.unicode_len() == 0 {
        return None;
    }
    match split_once_exec(t.as_str(), " => ") {
        None => Some(String::from_str("cannot recognize launchd disabled-service entry; activation not verified")),
        Some((label, value)) => {
            if same_text(label.as_str(), "\"io.rws.mounts\"") {
                let v = trim_end_char_exec(value.as_str(), ';');
                if same_text(v.as_str(), "true") || same_text(v.as_str(), "disabled") {
                    Some(String::from_str("LaunchAgent is explicitly disabled; preserved without enabling it"))
                } else if same_text(v.as_str(), "false") || same_text(v.as_str(), "enabled") {
                    None
                } else {
                    Some(String::from_str("unknown launchd disabled state; activation not verified"))
                }
            } else {
                None
            }
        },
    }
}

fn trimmed_lines_exec(text: &str) -> (r: Vec<String>)
    ensures
        r.deep_view() == trimmed_lines(lines(text@)),
{
    let ls = lines_of(text);
    let mut out: Vec<String> = Vec::new();
    let mut i: usize = 0;
    proof {
        assert(ls.deep_view().take(0) =~= Seq::<Seq<char>>::empty());
    }
    while i < ls.len()
        invariant
            ls.deep_view() == lines(text@),
            i <= ls.len(),
            out.deep_view() == trimmed_lines(ls.deep_view().take(i as int)),
        decreases ls.len() - i,
    {
        proof {
            assert(ls.deep_view().take(i + 1).drop_last() =~= ls.deep_view().take(i as int));
            assert(ls.deep_view().take(i + 1).last() == ls@[i as int]@);
        }
        let t = trim_exec(ls[i].as_str());
        if t.unicode_len() > 0 {
            let ghost before = out.deep_view();
            out.push(t);
            proof {
                assert(out.deep_view() =~= before.push(t@));
            }
        }
        i += 1;
    }
    proof {
        assert(ls.deep_view().take(i as int) =~= ls.deep_view());
    }
    out
}

fn has_line_exec(text: &str, expected: &str) -> (b: bool)
    ensures
        b == has_line(text@, expected@),
{
    let ls = lines_of(text);
    let mut i: usize = 0;
    while i < ls.len()
        invariant
            ls.deep_view() == lines(text@),
            i <= ls.len(),
            forall|j: int| 0 <= j < i ==> trim(#[trigger] lines(text@)[j]) != expected@,
        decreases ls.len() - i,
    {
        assert(ls.deep_view()[i as int] == ls@[i as int]@);
        let t = trim_exec(ls[i].as_str());
        if same_text(t.as_str(), expected) {
            assert(trim(lines(text@)[i as int]) == expected@);
            return true;
        }
        i += 1;
    }
    false
}

fn loaded_arguments_exec(loaded: &str) -> (r: Option<Vec<String>>)
    ensures
        r matches Some(v) ==> loaded_arguments(loaded@) == Some(v.deep_view()),
        r is None ==> loaded_arguments(loaded@) is None,
{
    match split_once_exec(loaded, "arguments = {") {
        None => None,
        Some((_, tail)) => match split_once_exec(tail.as_str(), "}") {
            None => None,
            Some((args, _)) => Some(trimmed_lines_exec(args.as_str())),
        },
    }
}

fn arguments_are(args: &Vec<String>, binary: &str) -> (b: bool)
    ensures
        b == (args.deep_view() == seq![binary@, "autostart"@, "run"@]),
{
    if args.len() != 3 {
        assert(args.deep_view().len() != 3);
        return false;
    }
    let ghost want = seq![binary@, "autostart"@, "run"@];
    assert(args.deep_view()[0] == args@[0]@);
    assert(args.deep_view()[1] == args@[1]@);
    assert(args.deep_view()[2] == args@[2]@);
    let b = same_text(args[0].as_str(), binary) && same_text(args[1].as_str(), "autostart")
        && same_text(args[2].as_str(), "run");
    proof {
        if b {
            assert(args.deep_view() =~= want);
        } else {
            if args.deep_view() == want {
                assert(args.deep_view()[0] == want[0]);
                assert(args.deep_view()[1] == want[1]);
                assert(args.deep_view()[2] == want[2]);
            }
        }
    }
    b
}

/// Judges `launchctl print` output (`loaded`) and `launchctl print-disabled`
/// output (`disabled`) against the installed binary and plist.
pub fn verify_output(loaded: &str, disabled: &str, binary: &str, plist: &str) -> (r: Result<
    String,
    String,
>)
    ensures
        r matches Ok(m) ==> verify_output_spec(loaded@, disabled@, binary@, plist@) == Ok::<
            Seq<char>,
            Seq<char>,
        >(m@),
        r matches Err(e) ==> verify_output_spec(loaded@, disabled@, binary@, plist@) == Err::<
            Seq<char>,
            Seq<char>,
        >(e@),
        r is Ok ==> exists|i: int|
            0 <= i < lines(loaded@).len() && trim(#[trigger] lines(loaded@)[i]) == "path = "@ + plist@,
        r is Ok ==> exists|i: int|
            0 <= i < lines(loaded@).len() && trim(#[trigger] lines(loaded@)[i]) == "program = "@ + binary@,
{
    proof {
        if verify_output_spec(loaded@, disabled@, binary@, plist@) is Ok {
            lemma_current_observes_installed_agent(loaded@, disabled@, binary@, plist@);
        }
    }
    let entries = match disabled_entries_exec(disabled) {
        None => {
            return Err(String::from_str("cannot recognize launchd disabled-service output; activation not verified"));
        },
        Some(e) => e,
    };
    let ls = lines_of(entries.as_str());
    let mut i: usize = 0;
    proof {
        assert(ls.deep_view().take(0) =~= Seq::<Seq<char>>::empty());
    }
    while i < ls.len()
        invariant
            ls.deep_view() == lines(entries@),
            disabled_entries(disabled@) == Some(entries@),
            i <= ls.len(),
            entries_error(ls.deep_view().take(i as int)) is None,
        decreases ls.len() - i,
    {
        proof {
            assert(ls.deep_view().take(i + 1).drop_last() =~= ls.deep_view().take(i as int));
            assert(ls.deep_view().take(i + 1).last() == ls@[i as int]@);
        }
        if let Some(e) = entry_error_exec(ls[i].as_str()) {
            proof {
                lemma_entries_error_prefix(ls.deep_view(), i + 1);
            }
            return Err(e);
        }
        i += 1;
    }
    proof {
        assert(ls.deep_view().take(i as int) =~= ls.deep_view());
    }
    let mut program = String::from_str("program = ");
    program.append(binary);
    let mut path = String::from_str("path = ");
    path.append(plist);
    let args_ok = match loaded_arguments_exec(loaded) {
        Some(args) => arguments_are(&args, binary),
        None => false,
    };
    if !has_line_exec(loaded, program.as_str()) || !has_line_exec(loaded, path.as_str())
        || !has_line_exec(loaded, "run interval = 30 seconds") || !args_ok {
        return Err(String::from_str("on-disk agent is current, but its loaded executable/path/30-second schedule is stale or unrecognized; log out and in to load the updated agent, or inspect launchctl; no service changes made"));
    }
    Ok(String::from_str("current executable and 30-second schedule observed in launchd; this does not prove mount health"))
}

/// launchd is reported current only when the loaded job names the
/// installed plist, the installed binary and the 30-second interval on
/// lines of their own, and runs `BINARY autostart run`: a job loaded from
/// another plist, or running another binary, is stale.
pub proof fn lemma_current_observes_installed_agent(
    loaded: Seq<char>,
    disabled: Seq<char>,
    binary: Seq<char>,
    plist: Seq<char>,
)
    requires
        verify_output_spec(loaded, disabled, binary, plist) is Ok,
    ensures
        verify_output_spec(loaded, disabled, binary, plist) == Ok::<Seq<char>, Seq<char>>(msg_current()),
        exists|i: int| 0 <= i < lines(loaded).len() && trim(#[trigger] lines(loaded)[i]) == "path = "@ + plist,
        exists|i: int| 0 <= i < lines(loaded).len() && trim(#[trigger] lines(loaded)[i]) == "program = "@ + binary,
        exists|i: int|
            0 <= i < lines(loaded).len() && trim(#[trigger] lines(loaded)[i]) == "run interval = 30 seconds"@,
        loaded_arguments(loaded) == Some(seq![binary, "autostart"@, "run"@]),
{
}

proof fn lemma_entries_clear(ls: Seq<Seq<char>>)
    requires
        entries_error(ls) is None,
    ensures
        forall|i: int| 0 <= i < ls.len() ==> entry_error(#[trigger] ls[i]) is None,
    decreases ls.len(),
{
    if ls.len() > 0 {
        lemma_entries_clear(ls.drop_last());
        assert forall|i: int| 0 <= i < ls.len() implies entry_error(#[trigger] ls[i]) is None by {
            if i < ls.len() - 1 {
                assert(ls.drop_last()[i] == ls[i]);
            }
        }
    }
}

/// launchd is reported current only when its disabled-service list is
/// recognized line by line and enables the agent wherever it names it:
/// every non-blank entry reads `LABEL => VALUE`, and the agent's own entry
/// says `false` or `enabled` (a trailing `;` aside).
pub proof fn lemma_current_means_enabled(loaded: Seq<char>, disabled: Seq<char>, binary: Seq<char>, plist: Seq<char>)
    requires
        verify_output_spec(loaded, disabled, binary, plist) is Ok,
    ensures
        disabled_entries(disabled) matches Some(en) && forall|i: int|
            0 <= i < lines(en).len() && trim(#[trigger] lines(en)[i]).len() > 0 ==> (split_once(
                trim(lines(en)[i]),
                " => "@,
            ) matches Some(kv) && (kv.0 == "\"io.rws.mounts\""@ ==> (trim_end_char(kv.1, ';') == "false"@
                || trim_end_char(kv.1, ';') == "enabled"@))),
{
    let en = disabled_entries(disabled)->Some_0;
    lemma_entries_clear(lines(en));
}

proof fn lemma_entries_error_prefix(ls: Seq<Seq<char>>, n: int)
    requires
        0 <= n <= ls.len(),
        entries_error(ls.take(n)) is Some,
    ensures
        entries_error(ls) == entries_error(ls.take(n)),
    decreases ls.len() - n,
{
    if n == ls.len() {
        assert(ls.take(n) =~= ls);
    } else {
        assert(ls.drop_last().take(n) =~= ls.take(n));
        lemma_entries_error_prefix(ls.drop_last(), n);
    }
}

} // verus!
