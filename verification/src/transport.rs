//! Remote command strings. OpenSSH hands one command string to the remote
//! login shell, so every literal argument is quoted for a POSIX shell.
use vstd::prelude::*;
use crate::text::{
    chars_of, contains_char, has_char, has_prefix, join_with, shell_quote, single_quoted,
    starts_with,
};

verus! {

/// Each argument quoted as one shell word.
pub open spec fn quoted_words(argv: Seq<Seq<char>>) -> Seq<Seq<char>> {
    Seq::new(argv.len(), |i: int| single_quoted(argv[i]))
}

/// The arguments as one command line of quoted words.
pub open spec fn command_line(argv: Seq<Seq<char>>) -> Seq<char> {
    join_with(quoted_words(argv), seq![' '])
}

pub open spec fn valid_remote_directory(d: Seq<char>) -> bool {
    has_prefix(d, seq!['/']) && !has_char(d, '\0')
}

pub open spec fn valid_argv(argv: Seq<Seq<char>>) -> bool {
    &&& argv.len() > 0
    &&& argv[0].len() > 0
    &&& argv[0][0] != '-'
    &&& forall|i: int| 0 <= i < argv.len() ==> !has_char(#[trigger] argv[i], '\0')
}

pub open spec fn directory_error() -> Seq<char> {
    "remote directory must be absolute and contain no NUL"@
}

pub open spec fn argv_error() -> Seq<char> {
    "provide a command after --; arguments must contain no NUL"@
}

pub open spec fn remote_shell_spec(d: Seq<char>) -> Result<Seq<char>, Seq<char>> {
    if !valid_remote_directory(d) {
        Err(directory_error())
    } else {
        Ok("cd "@ + single_quoted(d) + " && exec \"${SHELL:-/bin/sh}\" -l"@)
    }
}

pub open spec fn remote_command_spec(d: Seq<char>, argv: Seq<Seq<char>>) -> Result<
    Seq<char>,
    Seq<char>,
> {
    if !valid_remote_directory(d) {
        Err(directory_error())
    } else if !valid_argv(argv) {
        Err(argv_error())
    } else {
        Ok("cd "@ + single_quoted(d) + " && exec "@ + command_line(argv))
    }
}

pub open spec fn remote_agent_spec(d: Seq<char>, argv: Seq<Seq<char>>) -> Result<
    Seq<char>,
    Seq<char>,
> {
    match remote_command_spec(d, argv) {
        Err(e) => Err(e),
        Ok(_) => {
            let inner = "cd "@ + single_quoted(d)
                + " && { printf 'RWS remote identity: ' >&2; hostname >&2; uname -s >&2; pwd >&2; } && exec "@
                + command_line(argv);
            Ok("exec \"${SHELL:-/bin/sh}\" -lc "@ + single_quoted(inner))
        },
    }
}

fn check_directory(directory: &str) -> (b: bool)
    ensures
        b == valid_remote_directory(directory@),
{
    proof {
        reveal_strlit("/");
        assert("/"@ =~= seq!['/']);
    }
    starts_with(directory, "/") && !contains_char(directory, '\0')
}

/// Every argument quoted and joined with spaces.
pub fn quote_words(argv: &[String]) -> (r: String)
    ensures
        r@ == command_line(argv.deep_view()),
{
    let mut r = String::new();
    let mut i: usize = 0;
    let ghost words = quoted_words(argv.deep_view());
    while i < argv.len()
        invariant
            i <= argv@.len(),
            words == quoted_words(argv.deep_view()),
            r@ == join_with(words.take(i as int), seq![' ']),
        decreases argv.len() - i,
    {
        proof {
            assert(words.take(i + 1).drop_last() =~= words.take(i as int));
        }
        if i > 0 {
            crate::text::push_char(&mut r, ' ');
        }
        let q = shell_quote(argv[i].as_str());
        r.append(q.as_str());
        proof {
            if i > 0 {
                assert(r@ =~= join_with(words.take(i as int), seq![' ']) + seq![' '] + words[i as int]);
            }
        }
        i += 1;
    }
    proof {
        assert(words.take(i as int) =~= words);
    }
    r
}

/// Open the remote login shell in `directory`, keeping `$SHELL` one word.
pub fn remote_shell(directory: &str) -> (r: Result<String, String>)
    ensures
        r matches Ok(s) ==> remote_shell_spec(directory@) == Ok::<Seq<char>, Seq<char>>(s@),
        r matches Err(e) ==> remote_shell_spec(directory@) == Err::<Seq<char>, Seq<char>>(e@),
{
    if !check_directory(directory) {
        return Err(String::from_str("remote directory must be absolute and contain no NUL"));
    }
    let mut s = String::from_str("cd ");
    s.append(shell_quote(directory).as_str());
    s.append(" && exec \"${SHELL:-/bin/sh}\" -l");
    assert(s@ =~= "cd "@ + single_quoted(directory@) + " && exec \"${SHELL:-/bin/sh}\" -l"@);
    Ok(s)
}

fn check_argv(argv: &[String]) -> (b: bool)
    ensures
        b == valid_argv(argv.deep_view()),
{
    if argv.len() == 0 {
        return false;
    }
    assert(argv.deep_view()[0] == argv@[0]@);
    let first = chars_of(argv[0].as_str());
    if first.len() == 0 || first[0] == '-' {
        return false;
    }
    let mut i: usize = 0;
    while i < argv.len()
        invariant
            i <= argv@.len(),
            argv.deep_view()[0].len() > 0,
            argv.deep_view()[0][0] != '-',
            forall|j: int| 0 <= j < i ==> !has_char(#[trigger] argv.deep_view()[j], '\0'),
        decreases argv.len() - i,
    {
        assert(argv.deep_view()[i as int] == argv@[i as int]@);
        if contains_char(argv[i].as_str(), '\0') {
            return false;
        }
        i += 1;
    }
    true
}

/// Change to `directory` and exec `argv`, every argument a literal word.
pub fn remote_command(directory: &str, argv: &[String]) -> (r: Result<String, String>)
    ensures
        r matches Ok(s) ==> remote_command_spec(directory@, argv.deep_view()) == Ok::<
            Seq<char>,
            Seq<char>,
        >(s@),
        r matches Err(e) ==> remote_command_spec(directory@, argv.deep_view()) == Err::<
            Seq<char>,
            Seq<char>,
        >(e@),
{
    if !check_directory(directory) {
        return Err(String::from_str("remote directory must be absolute and contain no NUL"));
    }
    if !check_argv(argv) {
        return Err(String::from_str("provide a command after --; arguments must contain no NUL"));
    }
    let mut s = String::from_str("cd ");
    s.append(shell_quote(directory).as_str());
    s.append(" && exec ");
    s.append(quote_words(argv).as_str());
    assert(s@ =~= "cd "@ + single_quoted(directory@) + " && exec "@ + command_line(
        argv.deep_view(),
    ));
    Ok(s)
}

/// Start `argv` inside the remote login environment, changing directory
/// after the profiles run and reporting the remote identity on stderr.
pub fn remote_agent(directory: &str, argv: &[String]) -> (r: Result<String, String>)
    ensures
        r matches Ok(s) ==> remote_agent_spec(directory@, argv.deep_view()) == Ok::<
            Seq<char>,
            Seq<char>,
        >(s@),
        r matches Err(e) ==> remote_agent_spec(directory@, argv.deep_view()) == Err::<
            Seq<char>,
            Seq<char>,
        >(e@),
{
    remote_command(directory, argv)?;
    let mut inner = String::from_str("cd ");
    inner.append(shell_quote(directory).as_str());
    inner.append(
        " && { printf 'RWS remote identity: ' >&2; hostname >&2; uname -s >&2; pwd >&2; } && exec ",
    );
    inner.append(quote_words(argv).as_str());
    let mut s = String::from_str("exec \"${SHELL:-/bin/sh}\" -lc ");
    s.append(shell_quote(inner.as_str()).as_str());
    assert(s@ =~= "exec \"${SHELL:-/bin/sh}\" -lc "@ + single_quoted(inner@));
    Ok(s)
}

} // verus!

verus! {

/// The words a shell reads from `s`, one after another, decoding the
/// quoting that this library writes; at most `n` of them, and `None` where
/// a word cannot be read.
pub open spec fn read_words(s: Seq<char>, n: nat) -> Option<Seq<Seq<char>>>
    decreases n,
{
    if crate::text::trim_start(s).len() == 0 {
        Some(Seq::empty())
    } else if n == 0 {
        None
    } else {
        match crate::maintenance::shell_word_spec(s) {
            None => None,
            Some((w, rest)) => match read_words(rest, (n - 1) as nat) {
                None => None,
                Some(ws) => Some(seq![w] + ws),
            },
        }
    }
}

proof fn lemma_join_front(x: Seq<char>, ys: Seq<Seq<char>>, sep: Seq<char>)
    requires
        ys.len() > 0,
    ensures
        join_with(seq![x] + ys, sep) == x + sep + join_with(ys, sep),
    decreases ys.len(),
{
    let all = seq![x] + ys;
    if ys.len() == 1 {
        assert(all.drop_last() =~= seq![x]);
        assert(seq![x][0] == x);
        assert(join_with(seq![x], sep) == x);
        assert(all.last() == ys[0]);
        assert(join_with(ys, sep) == ys[0]);
        assert(join_with(all, sep) == join_with(all.drop_last(), sep) + sep + all.last());
    } else {
        assert(all.drop_last() =~= seq![x] + ys.drop_last());
        lemma_join_front(x, ys.drop_last(), sep);
        assert(all.last() == ys.last());
        assert(join_with(all, sep) == join_with(all.drop_last(), sep) + sep + all.last());
        assert(join_with(ys, sep) == join_with(ys.drop_last(), sep) + sep + ys.last());
        assert(join_with(all, sep) =~= x + sep + join_with(ys, sep));
    }
}

/// Leading blanks do not change what a shell reads.
proof fn lemma_read_after_space(x: Seq<char>, n: nat)
    ensures
        read_words(seq![' '] + x, n) == read_words(x, n),
{
    let s = seq![' '] + x;
    assert(crate::text::is_white(' '));
    assert(s.skip(1) =~= x);
    assert(crate::text::leading_white(s) == 1 + crate::text::leading_white(x));
    crate::text::lemma_leading_white(x);
    assert(crate::text::trim_start(s) =~= crate::text::trim_start(x));
}

/// A shell reads back exactly the arguments of a quoted command line:
/// every argument arrives as one literal word, whatever it holds.
pub proof fn lemma_command_line_reads_back(argv: Seq<Seq<char>>)
    ensures
        read_words(command_line(argv), argv.len()) == Some(argv),
    decreases argv.len(),
{
    if argv.len() == 0 {
        assert(command_line(argv) =~= Seq::<char>::empty());
        assert(crate::text::trim_start(Seq::<char>::empty()) =~= Seq::<char>::empty());
        assert(Seq::<Seq<char>>::empty() =~= argv);
    } else {
        let a = argv[0];
        let t = argv.drop_first();
        assert(quoted_words(argv) =~= seq![single_quoted(a)] + quoted_words(t));
        let rest: Seq<char> = if t.len() == 0 {
            Seq::empty()
        } else {
            seq![' '] + command_line(t)
        };
        if t.len() == 0 {
            assert(quoted_words(argv) =~= seq![single_quoted(a)]);
            assert(command_line(argv) =~= single_quoted(a) + rest);
        } else {
            lemma_join_front(single_quoted(a), quoted_words(t), seq![' ']);
            assert(command_line(argv) =~= single_quoted(a) + rest);
        }
        let s = command_line(argv);
        assert(s[0] == '\'');
        assert(!crate::text::is_white('\''));
        assert(crate::text::leading_white(s) == 0);
        assert(crate::text::trim_start(s) =~= s);
        crate::maintenance::lemma_shell_word_reads_quoted(a, rest);
        lemma_command_line_reads_back(t);
        if t.len() > 0 {
            lemma_read_after_space(command_line(t), t.len());
        } else {
            assert(crate::text::trim_start(rest) =~= rest);
        }
        assert(seq![a] + t =~= argv);
    }
}

} // verus!
