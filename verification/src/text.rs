//! Character-level string helpers with exact specifications.
use vstd::prelude::*;
use vstd::std_specs::iter::IteratorSpec;

verus! {

/// `p` occurs in `s` starting at character index `i`.
pub open spec fn occurs_at(s: Seq<char>, p: Seq<char>, i: int) -> bool {
    0 <= i && i + p.len() <= s.len() && s.subrange(i, i + p.len()) == p
}

pub open spec fn has_prefix(s: Seq<char>, p: Seq<char>) -> bool {
    occurs_at(s, p, 0)
}

pub open spec fn has_suffix(s: Seq<char>, p: Seq<char>) -> bool {
    occurs_at(s, p, s.len() - p.len())
}

pub open spec fn has_char(s: Seq<char>, c: char) -> bool {
    exists|i: int| 0 <= i < s.len() && s[i] == c
}

pub open spec fn contains_seq(s: Seq<char>, p: Seq<char>) -> bool {
    exists|i: int| occurs_at(s, p, i)
}

/// Index of the first occurrence of `p` in `s`, if any.
#[verifier::opaque]
pub open spec fn first_occurrence(s: Seq<char>, p: Seq<char>) -> Option<int> {
    if contains_seq(s, p) {
        Some(choose|i: int| occurs_at(s, p, i) && forall|j: int| 0 <= j < i ==> !occurs_at(s, p, j))
    } else {
        None
    }
}

/// Number of occurrences of `c` in `s`.
pub open spec fn count_char(s: Seq<char>, c: char) -> nat
    decreases s.len(),
{
    if s.len() == 0 {
        0
    } else {
        count_char(s.drop_last(), c) + if s.last() == c { 1nat } else { 0nat }
    }
}

/// The views of an optional string.
pub open spec fn opt_view(o: Option<&str>) -> Option<Seq<char>> {
    match o {
        Some(x) => Some(x@),
        None => None,
    }
}

/// `s` with every single quote written as `'\''`.
pub open spec fn escape_single_quotes(s: Seq<char>) -> Seq<char>
    decreases s.len(),
{
    if s.len() == 0 {
        Seq::empty()
    } else {
        escape_single_quotes(s.drop_last()) + if s.last() == '\'' {
            seq!['\'', '\\', '\'', '\'']
        } else {
            seq![s.last()]
        }
    }
}

/// A POSIX shell word that denotes `s` literally: `'` + escaped `s` + `'`.
pub open spec fn single_quoted(s: Seq<char>) -> Seq<char> {
    seq!['\''] + escape_single_quotes(s) + seq!['\'']
}

/// Appends one character.
#[verifier::external_body]
pub(crate) fn push_char(s: &mut String, c: char)
    ensures
        final(s)@ == old(s)@.push(c),
{
    s.push(c);
}

/// The characters of a string, in order.
pub fn chars_of(s: &str) -> (v: Vec<char>)
    ensures
        v@ == s@,
{
    let mut v: Vec<char> = Vec::new();
    for c in it: s.chars()
        invariant
            v@ == it.seq().take(it.index() as int),
    {
        v.push(c);
    }
    v
}

/// The string made of `v[from..to]`.
pub fn string_of(v: &Vec<char>, from: usize, to: usize) -> (s: String)
    requires
        from <= to <= v@.len(),
    ensures
        s@ == v@.subrange(from as int, to as int),
{
    let mut s = String::new();
    let mut i = from;
    while i < to
        invariant
            from <= i <= to <= v@.len(),
            s@ == v@.subrange(from as int, i as int),
        decreases to - i,
    {
        push_char(&mut s, v[i]);
        i += 1;
        assert(s@ =~= v@.subrange(from as int, i as int));
    }
    s
}

/// Whether `p` occurs in `s` at index `i`.
pub fn occurs_at_exec(s: &Vec<char>, p: &Vec<char>, i: usize) -> (b: bool)
    ensures
        b == occurs_at(s@, p@, i as int),
{
    if i > s.len() || p.len() > s.len() - i {
        return false;
    }
    let mut k: usize = 0;
    while k < p.len()
        invariant
            i + p@.len() <= s@.len(),
            s@.len() == s.len(),
            k <= p@.len(),
            forall|j: int| 0 <= j < k ==> s@[i + j] == p@[j],
        decreases p.len() - k,
    {
        if s[i + k] != p[k] {
            assert(s@.subrange(i as int, i + p@.len())[k as int] != p@[k as int]);
            return false;
        }
        k += 1;
    }
    assert(s@.subrange(i as int, i + p@.len()) =~= p@);
    true
}

pub fn starts_with(s: &str, p: &str) -> (b: bool)
    ensures
        b == has_prefix(s@, p@),
{
    occurs_at_exec(&chars_of(s), &chars_of(p), 0)
}

pub fn ends_with(s: &str, p: &str) -> (b: bool)
    ensures
        b == has_suffix(s@, p@),
{
    let sv = chars_of(s);
    let pv = chars_of(p);
    if pv.len() > sv.len() {
        return false;
    }
    occurs_at_exec(&sv, &pv, sv.len() - pv.len())
}

/// First index at or after `from` where `p` occurs in `s`.
pub fn find_from(s: &Vec<char>, p: &Vec<char>, from: usize) -> (r: Option<usize>)
    ensures
        match r {
            Some(i) => from <= i && occurs_at(s@, p@, i as int) && forall|j: int|
                from <= j < i ==> !occurs_at(s@, p@, j),
            None => forall|j: int| from <= j ==> !occurs_at(s@, p@, j),
        },
{
    if from > s.len() {
        return None;
    }
    let mut i = from;
    while i < s.len()
        invariant
            from <= i <= s.len(),
            forall|j: int| from <= j < i ==> !occurs_at(s@, p@, j),
        decreases s.len() - i,
    {
        if occurs_at_exec(s, p, i) {
            return Some(i);
        }
        i += 1;
    }
    if occurs_at_exec(s, p, i) {
        return Some(i);
    }
    None
}

/// First index where `p` occurs in `s`.
pub fn find(s: &Vec<char>, p: &Vec<char>) -> (r: Option<usize>)
    ensures
        r matches Some(i) ==> first_occurrence(s@, p@) == Some(i as int) && occurs_at(
            s@,
            p@,
            i as int,
        ),
        r is None ==> first_occurrence(s@, p@) is None,
{
    let r = find_from(s, p, 0);
    reveal(first_occurrence);
    match r {
        Some(i) => {
            assert(contains_seq(s@, p@));
            let ghost c = choose|k: int| occurs_at(s@, p@, k) && forall|j: int| 0 <= j < k ==> !occurs_at(s@, p@, j);
            assert(c == i);
        },
        None => {},
    }
    r
}

pub fn contains_str(s: &str, p: &str) -> (b: bool)
    ensures
        b == contains_seq(s@, p@),
{
    let r = find_from(&chars_of(s), &chars_of(p), 0);
    r.is_some()
}

pub fn contains_char(s: &str, c: char) -> (b: bool)
    ensures
        b == has_char(s@, c),
{
    let v = chars_of(s);
    let mut i: usize = 0;
    while i < v.len()
        invariant
            v@ == s@,
            i <= v@.len(),
            forall|j: int| 0 <= j < i ==> v@[j] != c,
        decreases v.len() - i,
    {
        if v[i] == c {
            return true;
        }
        i += 1;
    }
    false
}

/// Writes `s` as one literal POSIX shell word.
pub fn shell_quote(s: &str) -> (q: String)
    ensures
        q@ == single_quoted(s@),
{
    let v = chars_of(s);
    let mut q = String::new();
    push_char(&mut q, '\'');
    let mut i: usize = 0;
    while i < v.len()
        invariant
            v@ == s@,
            i <= v@.len(),
            q@ == seq!['\''] + escape_single_quotes(v@.take(i as int)),
        decreases v.len() - i,
    {
        assert(v@.take(i + 1).drop_last() =~= v@.take(i as int));
        if v[i] == '\'' {
            push_char(&mut q, '\'');
            push_char(&mut q, '\\');
            push_char(&mut q, '\'');
            push_char(&mut q, '\'');
        } else {
            push_char(&mut q, v[i]);
        }
        i += 1;
        assert(q@ =~= seq!['\''] + escape_single_quotes(v@.take(i as int)));
    }
    push_char(&mut q, '\'');
    assert(v@.take(v@.len() as int) =~= v@);
    assert(q@ =~= single_quoted(s@));
    q
}

} // verus!

verus! {

pub open spec fn is_ascii_digit(c: char) -> bool {
    '0' <= c <= '9'
}

pub open spec fn is_ascii_alnum(c: char) -> bool {
    ('0' <= c <= '9') || ('a' <= c <= 'z') || ('A' <= c <= 'Z')
}

pub open spec fn is_ascii_hex(c: char) -> bool {
    ('0' <= c <= '9') || ('a' <= c <= 'f') || ('A' <= c <= 'F')
}

pub fn ascii_alnum(c: char) -> (b: bool)
    ensures
        b == is_ascii_alnum(c),
{
    ('0' <= c && c <= '9') || ('a' <= c && c <= 'z') || ('A' <= c && c <= 'Z')
}

/// `s` without trailing `c` characters.
pub open spec fn trim_end_char(s: Seq<char>, c: char) -> Seq<char>
    decreases s.len(),
{
    if s.len() > 0 && s.last() == c {
        trim_end_char(s.drop_last(), c)
    } else {
        s
    }
}

pub fn trim_end_char_exec(s: &str, c: char) -> (r: String)
    ensures
        r@ == trim_end_char(s@, c),
{
    let v = chars_of(s);
    let mut n = v.len();
    proof {
        assert(v@.take(n as int) =~= v@);
    }
    while n > 0 && v[n - 1] == c
        invariant
            n <= v@.len(),
            trim_end_char(v@.take(n as int), c) == trim_end_char(s@, c),
            v@ == s@,
        decreases n,
    {
        proof {
            assert(v@.take(n as int).drop_last() =~= v@.take(n - 1));
        }
        n -= 1;
    }
    string_of(&v, 0, n)
}

/// The strings joined with `sep` between neighbours.
pub open spec fn join_with(parts: Seq<Seq<char>>, sep: Seq<char>) -> Seq<char>
    decreases parts.len(),
{
    if parts.len() == 0 {
        Seq::empty()
    } else if parts.len() == 1 {
        parts[0]
    } else {
        join_with(parts.drop_last(), sep) + sep + parts.last()
    }
}

} // verus!

verus! {

/// String equality on the characters.
pub fn same_text(a: &str, b: &str) -> (r: bool)
    ensures
        r == (a@ == b@),
{
    let av = chars_of(a);
    let bv = chars_of(b);
    if av.len() != bv.len() {
        assert(a@.len() != b@.len());
        return false;
    }
    let mut i: usize = 0;
    while i < av.len()
        invariant
            av@ == a@,
            bv@ == b@,
            av.len() == bv.len(),
            i <= av.len(),
            forall|j: int| 0 <= j < i ==> av@[j] == bv@[j],
        decreases av.len() - i,
    {
        if av[i] != bv[i] {
            assert(av@[i as int] != bv@[i as int]);
            return false;
        }
        i += 1;
    }
    assert(av@ =~= bv@);
    true
}

} // verus!

verus! {

/// `char::is_whitespace`: the Unicode `White_Space` characters.
pub open spec fn is_white(c: char) -> bool {
    ('\u{9}' <= c <= '\u{d}') || c == ' ' || c == '\u{85}' || c == '\u{a0}' || c == '\u{1680}'
        || ('\u{2000}' <= c <= '\u{200a}') || c == '\u{2028}' || c == '\u{2029}' || c == '\u{202f}'
        || c == '\u{205f}' || c == '\u{3000}'
}

pub fn white(c: char) -> (b: bool)
    ensures
        b == is_white(c),
{
    ('\u{9}' <= c && c <= '\u{d}') || c == ' ' || c == '\u{85}' || c == '\u{a0}' || c == '\u{1680}'
        || ('\u{2000}' <= c && c <= '\u{200a}') || c == '\u{2028}' || c == '\u{2029}' || c
        == '\u{202f}' || c == '\u{205f}' || c == '\u{3000}'
}

/// Number of leading whitespace characters.
pub open spec fn leading_white(s: Seq<char>) -> int
    decreases s.len(),
{
    if s.len() > 0 && is_white(s[0]) {
        1 + leading_white(s.skip(1))
    } else {
        0
    }
}

/// `str::trim_end`.
pub open spec fn trim_end(s: Seq<char>) -> Seq<char>
    decreases s.len(),
{
    if s.len() > 0 && is_white(s.last()) {
        trim_end(s.drop_last())
    } else {
        s
    }
}

/// `str::trim_start`.
pub open spec fn trim_start(s: Seq<char>) -> Seq<char> {
    s.skip(leading_white(s))
}

/// `str::trim`.
pub open spec fn trim(s: Seq<char>) -> Seq<char> {
    trim_end(trim_start(s))
}

pub proof fn lemma_leading_white(s: Seq<char>)
    ensures
        0 <= leading_white(s) <= s.len(),
        forall|i: int| 0 <= i < leading_white(s) ==> is_white(#[trigger] s[i]),
        leading_white(s) < s.len() ==> !is_white(s[leading_white(s)]),
    decreases s.len(),
{
    if s.len() > 0 && is_white(s[0]) {
        lemma_leading_white(s.skip(1));
        assert forall|i: int| 0 <= i < leading_white(s) implies is_white(#[trigger] s[i]) by {
            if i > 0 {
                assert(s.skip(1)[i - 1] == s[i]);
            }
        }
    }
}

proof fn lemma_leading_white_at(s: Seq<char>, k: int)
    requires
        0 <= k <= s.len(),
        forall|i: int| 0 <= i < k ==> is_white(#[trigger] s[i]),
        k < s.len() ==> !is_white(s[k]),
    ensures
        leading_white(s) == k,
    decreases s.len(),
{
    if k > 0 {
        assert forall|i: int| 0 <= i < k - 1 implies is_white(#[trigger] s.skip(1)[i]) by {
            assert(s.skip(1)[i] == s[i + 1]);
        }
        lemma_leading_white_at(s.skip(1), k - 1);
    }
}

pub fn trim_start_exec(s: &str) -> (r: String)
    ensures
        r@ == trim_start(s@),
{
    let v = chars_of(s);
    let mut k: usize = 0;
    while k < v.len() && white(v[k])
        invariant
            v@ == s@,
            k <= v@.len(),
            forall|i: int| 0 <= i < k ==> is_white(#[trigger] v@[i]),
        decreases v.len() - k,
    {
        k += 1;
    }
    proof {
        lemma_leading_white_at(v@, k as int);
        assert(v@.subrange(k as int, v@.len() as int) =~= v@.skip(k as int));
    }
    string_of(&v, k, v.len())
}

pub fn trim_end_exec(s: &str) -> (r: String)
    ensures
        r@ == trim_end(s@),
{
    let v = chars_of(s);
    let mut n = v.len();
    proof {
        assert(v@.take(n as int) =~= v@);
    }
    while n > 0 && white(v[n - 1])
        invariant
            v@ == s@,
            n <= v@.len(),
            trim_end(v@.take(n as int)) == trim_end(s@),
        decreases n,
    {
        proof {
            assert(v@.take(n as int).drop_last() =~= v@.take(n - 1));
        }
        n -= 1;
    }
    string_of(&v, 0, n)
}

pub fn trim_exec(s: &str) -> (r: String)
    ensures
        r@ == trim(s@),
{
    let t = trim_start_exec(s);
    trim_end_exec(t.as_str())
}

/// Pieces of `s` each ending with `c`, except perhaps the last
/// (`split_inclusive`); none for an empty `s`.
pub open spec fn pieces<A>(s: Seq<A>, c: A) -> Seq<Seq<A>>
    decreases s.len(),
{
    if s.len() == 0 {
        Seq::empty()
    } else {
        let prev = pieces(s.drop_last(), c);
        if prev.len() == 0 || prev.last().last() == c {
            prev.push(seq![s.last()])
        } else {
            prev.update(prev.len() - 1, prev.last().push(s.last()))
        }
    }
}

/// A line of `str::lines`: a piece without its `\n`, or `\r\n`.
pub open spec fn line_text(piece: Seq<char>) -> Seq<char> {
    if piece.len() > 0 && piece.last() == '\n' {
        let p = piece.drop_last();
        if p.len() > 0 && p.last() == '\r' {
            p.drop_last()
        } else {
            p
        }
    } else {
        piece
    }
}

/// `str::lines`.
pub open spec fn lines(s: Seq<char>) -> Seq<Seq<char>> {
    let ps = pieces(s, '\n');
    Seq::new(ps.len(), |i: int| line_text(ps[i]))
}

pub proof fn lemma_pieces_nonempty<A>(s: Seq<A>, c: A)
    ensures
        forall|i: int| 0 <= i < pieces(s, c).len() ==> #[trigger] pieces(s, c)[i].len() > 0,
        s.len() > 0 ==> pieces(s, c).len() > 0,
    decreases s.len(),
{
    if s.len() > 0 {
        lemma_pieces_nonempty(s.drop_last(), c);
        let prev = pieces(s.drop_last(), c);
        assert forall|i: int| 0 <= i < pieces(s, c).len() implies #[trigger] pieces(s, c)[i].len()
            > 0 by {
            if i < prev.len() && !(prev.len() > 0 && prev.last().last() != c && i == prev.len() - 1) {
                assert(pieces(s, c)[i] == prev[i]);
            }
        }
    }
}

/// `split_inclusive(c)`.
pub fn pieces_of(s: &str, c: char) -> (r: Vec<String>)
    ensures
        r.deep_view() == pieces(s@, c),
{
    let v = chars_of(s);
    let mut out: Vec<String> = Vec::new();
    let mut cur = String::new();
    let mut i: usize = 0;
    proof {
        assert(v@.take(0) =~= Seq::<char>::empty());
    }
    while i < v.len()
        invariant
            v@ == s@,
            i <= v@.len(),
            cur@.len() == 0 ==> out.deep_view() == pieces(v@.take(i as int), c),
            cur@.len() > 0 ==> out.deep_view().push(cur@) == pieces(v@.take(i as int), c),
            cur@.len() > 0 ==> cur@.last() != c,
            cur@.len() == 0 && out.deep_view().len() > 0 ==> out.deep_view().last().len() > 0
                && out.deep_view().last().last() == c,
        decreases v.len() - i,
    {
        let ghost before = v@.take(i as int);
        proof {
            assert(v@.take(i + 1).drop_last() =~= before);
            lemma_pieces_nonempty(before, c);
            if cur@.len() > 0 {
                assert(pieces(before, c).last() == cur@);
            } else if pieces(before, c).len() > 0 {
                // the last piece of a non-empty prefix ends with `c` here
                assert(i > 0);
            }
        }
        let ch = v[i];
        let ghost old_out = out.deep_view();
        let ghost old_cur = cur@;
        push_char(&mut cur, ch);
        if ch == c {
            out.push(cur);
            cur = String::new();
            proof {
                if old_cur.len() == 0 {
                    assert(old_out == pieces(before, c));
                    assert(pieces(v@.take(i + 1), c) =~= old_out.push(seq![ch]));
                    assert(out.deep_view() =~= old_out.push(old_cur.push(ch)));
                    assert(old_cur.push(ch) =~= seq![ch]);
                } else {
                    assert(pieces(v@.take(i + 1), c) =~= old_out.push(old_cur.push(ch)));
                    assert(out.deep_view() =~= old_out.push(old_cur.push(ch)));
                }
            }
        } else {
            proof {
                if old_cur.len() == 0 {
                    assert(old_cur.push(ch) =~= seq![ch]);
                    assert(pieces(v@.take(i + 1), c) =~= old_out.push(seq![ch]));
                } else {
                    assert(pieces(v@.take(i + 1), c) =~= old_out.push(old_cur.push(ch)));
                }
            }
        }
        i += 1;
    }
    proof {
        assert(v@.take(i as int) =~= v@);
    }
    if cur.unicode_len() > 0 {
        out.push(cur);
    }
    out
}

} // verus!

verus! {

pub fn line_text_exec(piece: &str) -> (r: String)
    ensures
        r@ == line_text(piece@),
{
    let v = chars_of(piece);
    let n = v.len();
    if n > 0 && v[n - 1] == '\n' {
        if n > 1 && v[n - 2] == '\r' {
            let r = string_of(&v, 0, n - 2);
            assert(r@ =~= v@.drop_last().drop_last());
            r
        } else {
            let r = string_of(&v, 0, n - 1);
            assert(r@ =~= v@.drop_last());
            r
        }
    } else {
        let r = string_of(&v, 0, n);
        assert(r@ =~= v@);
        r
    }
}

/// `str::lines`.
pub fn lines_of(s: &str) -> (r: Vec<String>)
    ensures
        r.deep_view() == lines(s@),
{
    let ps = pieces_of(s, '\n');
    let mut out: Vec<String> = Vec::new();
    let mut i: usize = 0;
    while i < ps.len()
        invariant
            ps.deep_view() == pieces(s@, '\n'),
            i <= ps.len(),
            out.deep_view() == Seq::new(i as nat, |k: int| line_text(ps.deep_view()[k])),
        decreases ps.len() - i,
    {
        assert(ps.deep_view()[i as int] == ps@[i as int]@);
        let l = line_text_exec(ps[i].as_str());
        let ghost before = out.deep_view();
        out.push(l);
        proof {
            assert(out.deep_view() =~= before.push(l@));
            assert(out.deep_view() =~= Seq::new((i + 1) as nat, |k: int| line_text(ps.deep_view()[k])));
        }
        i += 1;
    }
    assert(out.deep_view() =~= lines(s@));
    out
}

/// Text before and after the first occurrence of `p` (`str::split_once`).
pub open spec fn split_once(s: Seq<char>, p: Seq<char>) -> Option<(Seq<char>, Seq<char>)> {
    match first_occurrence(s, p) {
        Some(i) => Some((s.take(i), s.skip(i + p.len()))),
        None => None,
    }
}

pub fn split_once_exec(s: &str, p: &str) -> (r: Option<(String, String)>)
    ensures
        r matches Some(x) ==> split_once(s@, p@) == Some((x.0@, x.1@)),
        r is None ==> split_once(s@, p@) is None,
{
    let v = chars_of(s);
    let pv = chars_of(p);
    let found = find(&v, &pv);
    if found.is_none() {
        return None;
    }
    let i = found.unwrap();
    let ghost fo = first_occurrence(s@, p@);
    assert(fo == Some(i as int));
    assert(occurs_at(v@, pv@, i as int));
    assert((i as int) + (pv.len() as int) <= (v.len() as int));
    let a = string_of(&v, 0, i);
    let b = string_of(&v, i + pv.len(), v.len());
    proof {
        assert(a@ =~= s@.take(i as int));
        assert(b@ =~= s@.skip(i + p@.len()));
    }
    Some((a, b))
}

/// Length of the leading run of non-whitespace characters.
pub open spec fn word_len(s: Seq<char>) -> int
    decreases s.len(),
{
    if s.len() > 0 && !is_white(s[0]) {
        1 + word_len(s.skip(1))
    } else {
        0
    }
}

/// The first word of `split_whitespace`.
pub open spec fn first_word(s: Seq<char>) -> Option<Seq<char>> {
    let t = trim_start(s);
    if t.len() == 0 {
        None
    } else {
        Some(t.take(word_len(t)))
    }
}

proof fn lemma_word_len_at(s: Seq<char>, k: int)
    requires
        0 <= k <= s.len(),
        forall|i: int| 0 <= i < k ==> !is_white(#[trigger] s[i]),
        k < s.len() ==> is_white(s[k]),
    ensures
        word_len(s) == k,
    decreases s.len(),
{
    if k > 0 {
        assert forall|i: int| 0 <= i < k - 1 implies !is_white(#[trigger] s.skip(1)[i]) by {
            assert(s.skip(1)[i] == s[i + 1]);
        }
        lemma_word_len_at(s.skip(1), k - 1);
    }
}

pub fn first_word_exec(s: &str) -> (r: Option<String>)
    ensures
        r matches Some(w) ==> first_word(s@) == Some(w@),
        r is None ==> first_word(s@) is None,
{
    let t = trim_start_exec(s);
    let v = chars_of(t.as_str());
    if v.len() == 0 {
        return None;
    }
    let mut k: usize = 0;
    while k < v.len() && !white(v[k])
        invariant
            k <= v@.len(),
            forall|i: int| 0 <= i < k ==> !is_white(#[trigger] v@[i]),
        decreases v.len() - k,
    {
        k += 1;
    }
    proof {
        lemma_word_len_at(v@, k as int);
    }
    let w = string_of(&v, 0, k);
    assert(w@ =~= v@.take(k as int));
    Some(w)
}

/// `str::split(c)`: the `c`-separated parts (at least one).
pub open spec fn split_on(s: Seq<char>, c: char) -> Seq<Seq<char>>
    decreases s.len(),
{
    if s.len() == 0 {
        seq![Seq::empty()]
    } else {
        let prev = split_on(s.drop_last(), c);
        if s.last() == c {
            prev.push(Seq::empty())
        } else {
            prev.update(prev.len() - 1, prev.last().push(s.last()))
        }
    }
}

pub proof fn lemma_split_on_nonempty(s: Seq<char>, c: char)
    ensures
        split_on(s, c).len() >= 1,
    decreases s.len(),
{
    if s.len() > 0 {
        lemma_split_on_nonempty(s.drop_last(), c);
    }
}

pub fn split_on_exec(s: &str, c: char) -> (r: Vec<String>)
    ensures
        r.deep_view() == split_on(s@, c),
{
    let v = chars_of(s);
    let mut out: Vec<String> = Vec::new();
    let mut cur = String::new();
    let mut i: usize = 0;
    proof {
        assert(v@.take(0) =~= Seq::<char>::empty());
        assert(out.deep_view().push(cur@) =~= split_on(v@.take(0), c));
    }
    while i < v.len()
        invariant
            v@ == s@,
            i <= v@.len(),
            out.deep_view().push(cur@) == split_on(v@.take(i as int), c),
        decreases v.len() - i,
    {
        let ghost before = v@.take(i as int);
        let ghost old_out = out.deep_view();
        let ghost old_cur = cur@;
        proof {
            assert(v@.take(i + 1).drop_last() =~= before);
            lemma_split_on_nonempty(before, c);
        }
        if v[i] == c {
            out.push(cur);
            cur = String::new();
            proof {
                assert(out.deep_view().push(cur@) =~= old_out.push(old_cur).push(Seq::empty()));
            }
        } else {
            push_char(&mut cur, v[i]);
            proof {
                let prev = split_on(before, c);
                assert(prev.last() == old_cur);
                assert(out.deep_view().push(cur@) =~= prev.update(
                    prev.len() - 1,
                    prev.last().push(v@[i as int]),
                ));
            }
        }
        i += 1;
    }
    proof {
        assert(v@.take(i as int) =~= v@);
    }
    let ghost o = out.deep_view();
    out.push(cur);
    proof {
        assert(out.deep_view() =~= o.push(cur@));
    }
    out
}

/// `str::replace(from, to)` for a non-empty `from`: matches are replaced
/// left to right without overlapping.
pub open spec fn replace_all(s: Seq<char>, from: Seq<char>, to: Seq<char>) -> Seq<char>
    decreases s.len(),
{
    if from.len() == 0 || s.len() == 0 {
        s
    } else if occurs_at(s, from, 0) {
        to + replace_all(s.skip(from.len() as int), from, to)
    } else {
        seq![s[0]] + replace_all(s.skip(1), from, to)
    }
}

pub fn replace_exec(s: &str, from: &str, to: &str) -> (r: String)
    requires
        from@.len() > 0,
    ensures
        r@ == replace_all(s@, from@, to@),
{
    let v = chars_of(s);
    let fv = chars_of(from);
    let mut out = String::new();
    let mut i: usize = 0;
    proof {
        assert(v@.skip(0) =~= v@);
    }
    while i < v.len()
        invariant
            v@ == s@,
            fv@ == from@,
            fv@.len() > 0,
            i <= v@.len(),
            out@ + replace_all(v@.skip(i as int), from@, to@) == replace_all(s@, from@, to@),
        decreases v.len() - i,
    {
        let ghost rest = v@.skip(i as int);
        if occurs_at_exec(&v, &fv, i) {
            proof {
                assert(rest.subrange(0, from@.len() as int) =~= v@.subrange(i as int, i + from@.len()));
                assert(rest.skip(from@.len() as int) =~= v@.skip(i + from@.len()));
                assert(out@ + to@ + replace_all(v@.skip(i + from@.len()), from@, to@) =~= out@ + (
                to@ + replace_all(rest.skip(from@.len() as int), from@, to@)));
            }
            out.append(to);
            i += fv.len();
        } else {
            proof {
                assert(!occurs_at(rest, from@, 0)) by {
                    if occurs_at(rest, from@, 0) {
                        assert(rest.subrange(0, from@.len() as int) =~= v@.subrange(
                            i as int,
                            i + from@.len(),
                        ));
                    }
                }
                assert(rest.skip(1) =~= v@.skip(i + 1));
                assert(out@.push(v@[i as int]) + replace_all(v@.skip(i + 1), from@, to@) =~= out@ + (
                seq![rest[0]] + replace_all(rest.skip(1), from@, to@)));
            }
            push_char(&mut out, v[i]);
            i += 1;
        }
    }
    proof {
        assert(v@.skip(i as int).len() == 0);
        assert(out@ + Seq::<char>::empty() =~= out@);
    }
    out
}

} // verus!

verus! {

/// Value of a run of decimal digits.
pub open spec fn decimal(d: Seq<char>) -> int
    decreases d.len(),
{
    if d.len() == 0 {
        0
    } else {
        decimal(d.drop_last()) * 10 + (d.last() as int - '0' as int)
    }
}

pub open spec fn all_digits(d: Seq<char>) -> bool {
    forall|i: int| 0 <= i < d.len() ==> is_ascii_digit(#[trigger] d[i])
}

pub proof fn lemma_decimal_grows(d: Seq<char>, k: int)
    requires
        all_digits(d),
        0 <= k <= d.len(),
    ensures
        0 <= decimal(d.take(k)) <= decimal(d),
    decreases d.len(),
{
    if d.len() > 0 {
        assert(is_ascii_digit(d[d.len() - 1]));
        if k == d.len() {
            assert(d.take(k) =~= d);
            lemma_decimal_grows(d.drop_last(), k - 1);
            assert(d.drop_last().take(k - 1) =~= d.drop_last());
        } else {
            assert(d.drop_last().take(k) =~= d.take(k));
            lemma_decimal_grows(d.drop_last(), k);
            lemma_decimal_grows(d.drop_last(), d.len() - 1);
            assert(d.drop_last().take(d.len() - 1) =~= d.drop_last());
        }
    } else {
        assert(d.take(k) =~= d);
    }
}

/// `i32::from_str`: an optional sign, then at least one digit, in range.
pub open spec fn parse_i32_spec(s: Seq<char>) -> Option<int> {
    let neg = s.len() > 0 && s[0] == '-';
    let d = if s.len() > 0 && (s[0] == '-' || s[0] == '+') {
        s.skip(1)
    } else {
        s
    };
    let v = if neg {
        -decimal(d)
    } else {
        decimal(d)
    };
    if d.len() > 0 && all_digits(d) && -0x8000_0000 <= v <= 0x7fff_ffff {
        Some(v)
    } else {
        None
    }
}

/// Parses a decimal `i32` as `str::parse::<i32>` does.
pub fn parse_i32(s: &str) -> (r: Option<i32>)
    ensures
        match r {
            Some(v) => parse_i32_spec(s@) == Some(v as int),
            None => parse_i32_spec(s@) is None,
        },
{
    let v = chars_of(s);
    let neg = v.len() > 0 && v[0] == '-';
    let start: usize = if v.len() > 0 && (v[0] == '-' || v[0] == '+') { 1 } else { 0 };
    let ghost d = if s@.len() > 0 && (s@[0] == '-' || s@[0] == '+') { s@.skip(1) } else { s@ };
    assert(d =~= v@.skip(start as int));
    if start == v.len() {
        return None;
    }
    let mut value: i64 = 0;
    let mut i: usize = start;
    while i < v.len()
        invariant
            v@ == s@,
            start <= i <= v@.len(),
            d =~= v@.skip(start as int),
            d == (if s@.len() > 0 && (s@[0] == '-' || s@[0] == '+') { s@.skip(1) } else { s@ }),
            all_digits(d.take(i - start)),
            value as int == decimal(d.take(i - start)),
            0 <= value <= 0x8000_0000,
        decreases v.len() - i,
    {
        let c = v[i];
        let ghost k = i - start;
        proof {
            assert(d.take(k + 1).drop_last() =~= d.take(k));
            assert(d[k] == c);
        }
        if !('0' <= c && c <= '9') {
            proof {
                assert(!is_ascii_digit(d[k]));
            }
            return None;
        }
        value = value * 10 + (c as u32 - '0' as u32) as i64;
        i += 1;
        if value > 0x8000_0000 {
            proof {
                if all_digits(d) {
                    lemma_decimal_grows(d, k + 1);
                }
            }
            return None;
        }
    }
    proof {
        assert(d.take(i - start) =~= d);
    }
    if neg {
        Some((-value) as i32)
    } else if value > 0x7fff_ffff {
        None
    } else {
        Some(value as i32)
    }
}

/// Lowercase hexadecimal digit of a value below 16.
pub open spec fn hex_digit(n: int) -> char {
    if n < 10 {
        (('0' as int) + n) as char
    } else {
        (('a' as int) + n - 10) as char
    }
}

/// Two lowercase hexadecimal digits per byte.
pub open spec fn hex_of(bytes: Seq<u8>) -> Seq<char>
    decreases bytes.len(),
{
    if bytes.len() == 0 {
        Seq::empty()
    } else {
        let b = bytes.last();
        hex_of(bytes.drop_last()) + seq![hex_digit(b as int / 16), hex_digit(b as int % 16)]
    }
}

fn hex_digit_exec(n: u8) -> (c: char)
    requires
        n < 16,
    ensures
        c == hex_digit(n as int),
{
    if n < 10 {
        (('0' as u8) + n) as char
    } else {
        (('a' as u8) + n - 10) as char
    }
}

/// `format!("{byte:02x}")` for each byte, concatenated.
pub fn hex(bytes: &[u8]) -> (r: String)
    ensures
        r@ == hex_of(bytes@),
{
    let mut r = String::new();
    let mut i: usize = 0;
    while i < bytes.len()
        invariant
            i <= bytes@.len(),
            r@ == hex_of(bytes@.take(i as int)),
        decreases bytes.len() - i,
    {
        let b = bytes[i];
        proof {
            assert(bytes@.take(i + 1).drop_last() =~= bytes@.take(i as int));
        }
        push_char(&mut r, hex_digit_exec(b / 16));
        push_char(&mut r, hex_digit_exec(b % 16));
        i += 1;
        assert(r@ =~= hex_of(bytes@.take(i as int)));
    }
    assert(bytes@.take(i as int) =~= bytes@);
    r
}

} // verus!

verus! {

/// `str::split_whitespace`.
pub open spec fn words(s: Seq<char>) -> Seq<Seq<char>>
    decreases s.len(),
{
    let t = trim_start(s);
    if t.len() == 0 {
        Seq::empty()
    } else {
        let n = word_len(t);
        if 0 < n <= t.len() && t.len() <= s.len() {
            seq![t.take(n)] + words(t.skip(n))
        } else {
            Seq::empty()
        }
    }
}

pub proof fn lemma_word_len(s: Seq<char>)
    ensures
        0 <= word_len(s) <= s.len(),
        s.len() > 0 && !is_white(s[0]) ==> word_len(s) > 0,
    decreases s.len(),
{
    if s.len() > 0 && !is_white(s[0]) {
        lemma_word_len(s.skip(1));
    }
}

pub fn words_of(s: &str) -> (r: Vec<String>)
    ensures
        r.deep_view() == words(s@),
{
    let mut out: Vec<String> = Vec::new();
    let mut rest = s.to_owned();
    loop
        invariant
            out.deep_view() + words(rest@) == words(s@),
        decreases rest@.len(),
    {
        let t = trim_start_exec(rest.as_str());
        proof {
            lemma_leading_white(rest@);
        }
        let v = chars_of(t.as_str());
        if v.len() == 0 {
            assert(words(rest@) =~= Seq::<Seq<char>>::empty());
            assert(out.deep_view() + Seq::<Seq<char>>::empty() =~= out.deep_view());
            return out;
        }
        let mut k: usize = 0;
        while k < v.len() && !white(v[k])
            invariant
                k <= v@.len(),
                forall|i: int| 0 <= i < k ==> !is_white(#[trigger] v@[i]),
            decreases v.len() - k,
        {
            k += 1;
        }
        proof {
            lemma_word_len_at(v@, k as int);
            lemma_leading_white(t@);
            assert(!is_white(t@[0]));
        }
        let w = string_of(&v, 0, k);
        let next = string_of(&v, k, v.len());
        proof {
            assert(w@ =~= t@.take(k as int));
            assert(next@ =~= t@.skip(k as int));
            assert(words(rest@) == seq![w@] + words(next@));
        }
        let ghost before = out.deep_view();
        out.push(w);
        proof {
            assert(out.deep_view() =~= before.push(w@));
            assert(out.deep_view() + words(next@) =~= before + (seq![w@] + words(next@)));
        }
        rest = next;
    }
}

} // verus!

verus! {

pub open spec fn digit_char(n: int) -> char {
    (('0' as int) + n) as char
}

/// The decimal numeral of `n`, as `format!("{n}")` writes it.
pub open spec fn decimal_digits(n: nat) -> Seq<char>
    decreases n,
{
    if n < 10 {
        seq![digit_char(n as int)]
    } else {
        decimal_digits(n / 10) + seq![digit_char((n % 10) as int)]
    }
}

pub fn decimal_string(n: u128) -> (s: String)
    ensures
        s@ == decimal_digits(n as nat),
    decreases n,
{
    let d = (('0' as u8) + ((n % 10) as u8)) as char;
    if n < 10 {
        let mut s = String::new();
        push_char(&mut s, d);
        assert(s@ =~= seq![d]);
        s
    } else {
        let mut s = decimal_string(n / 10);
        push_char(&mut s, d);
        s
    }
}

} // verus!

verus! {

/// The text before the first `pat` of `t`, or all of `t`.
pub open spec fn first_segment(t: Seq<char>, pat: Seq<char>) -> Seq<char> {
    match split_once(t, pat) {
        Some((a, _)) => a,
        None => t,
    }
}

fn first_segment_exec(t: &str, pat: &str) -> (r: String)
    ensures
        r@ == first_segment(t@, pat@),
{
    match split_once_exec(t, pat) {
        Some((a, _)) => a,
        None => t.to_owned(),
    }
}

/// `text.split(open).nth(1)` and then the part before `close`: the text
/// between the first `open` and what follows it.
pub open spec fn between(text: Seq<char>, open: Seq<char>, close: Seq<char>) -> Option<Seq<char>> {
    match split_once(text, open) {
        None => None,
        Some((_, tail)) => Some(first_segment(first_segment(tail, open), close)),
    }
}

pub fn between_exec(text: &str, open: &str, close: &str) -> (r: Option<String>)
    ensures
        match between(text@, open@, close@) {
            Some(b) => r matches Some(s) && s@ == b,
            None => r is None,
        },
{
    match split_once_exec(text, open) {
        None => None,
        Some((_, tail)) => {
            let seg = first_segment_exec(tail.as_str(), open);
            Some(first_segment_exec(seg.as_str(), close))
        },
    }
}

} // verus!

verus! {

/// The pieces written one after another.
pub open spec fn flatten<A>(ps: Seq<Seq<A>>) -> Seq<A>
    decreases ps.len(),
{
    if ps.len() == 0 {
        Seq::empty()
    } else {
        flatten(ps.drop_last()) + ps.last()
    }
}

/// Splitting into pieces loses nothing: the pieces make up the text.
pub proof fn lemma_flatten_pieces<A>(s: Seq<A>, c: A)
    ensures
        flatten(pieces(s, c)) == s,
    decreases s.len(),
{
    if s.len() > 0 {
        let prev = pieces(s.drop_last(), c);
        lemma_flatten_pieces(s.drop_last(), c);
        if prev.len() == 0 || prev.last().last() == c {
            assert(prev.push(seq![s.last()]).drop_last() =~= prev);
            assert(flatten(prev) + seq![s.last()] =~= s);
        } else {
            let u = prev.update(prev.len() - 1, prev.last().push(s.last()));
            assert(u.drop_last() =~= prev.drop_last());
            assert(flatten(prev) == flatten(prev.drop_last()) + prev.last());
            assert(flatten(u) =~= flatten(prev.drop_last()) + prev.last().push(s.last()));
            assert(flatten(prev.drop_last()) + prev.last().push(s.last()) =~= (flatten(
                prev.drop_last(),
            ) + prev.last()).push(s.last()));
            assert(s.drop_last().push(s.last()) =~= s);
        }
    }
}

} // verus!

verus! {

/// `c` occurs in `p` at most as its last element.
pub open spec fn only_at_end<A>(p: Seq<A>, c: A) -> bool {
    forall|i: int| 0 <= i < p.len() - 1 ==> p[i] != c
}

/// Pieces as [`pieces`] makes them: none empty, `c` in each only at its
/// end, and every piece but the last ending with `c`.
pub open spec fn well_split<A>(ps: Seq<Seq<A>>, c: A) -> bool {
    &&& forall|i: int| 0 <= i < ps.len() ==> (#[trigger] ps[i]).len() > 0 && only_at_end(ps[i], c)
    &&& forall|i: int| 0 <= i < ps.len() - 1 ==> (#[trigger] ps[i]).last() == c
}

pub proof fn lemma_pieces_last<A>(s: Seq<A>, c: A)
    requires
        s.len() > 0,
    ensures
        pieces(s, c).len() > 0,
        pieces(s, c).last().len() > 0,
        pieces(s, c).last().last() == s.last(),
{
}

pub proof fn lemma_pieces_well_split<A>(s: Seq<A>, c: A)
    ensures
        well_split(pieces(s, c), c),
    decreases s.len(),
{
    if s.len() > 0 {
        lemma_pieces_well_split(s.drop_last(), c);
        let prev = pieces(s.drop_last(), c);
        let ps = pieces(s, c);
        if prev.len() == 0 || prev.last().last() == c {
            assert forall|i: int| 0 <= i < ps.len() implies (#[trigger] ps[i]).len() > 0
                && only_at_end(ps[i], c) by {
                if i < prev.len() {
                    assert(ps[i] == prev[i]);
                }
            }
            assert forall|i: int| 0 <= i < ps.len() - 1 implies (#[trigger] ps[i]).last() == c by {
                assert(ps[i] == prev[i]);
            }
        } else {
            let last = prev[prev.len() - 1];
            let q = last.push(s.last());
            assert(only_at_end(last, c));
            assert forall|i: int| 0 <= i < ps.len() implies (#[trigger] ps[i]).len() > 0
                && only_at_end(ps[i], c) by {
                if i < prev.len() - 1 {
                    assert(ps[i] == prev[i]);
                } else {
                    assert(ps[i] == q);
                    assert forall|j: int| 0 <= j < q.len() - 1 implies q[j] != c by {
                        assert(q[j] == last[j]);
                    }
                }
            }
            assert forall|i: int| 0 <= i < ps.len() - 1 implies (#[trigger] ps[i]).last() == c by {
                assert(ps[i] == prev[i]);
            }
        }
    }
}

/// A lone piece splits into itself.
pub proof fn lemma_pieces_of_piece<A>(q: Seq<A>, c: A)
    requires
        q.len() > 0,
        only_at_end(q, c),
    ensures
        pieces(q, c) == seq![q],
    decreases q.len(),
{
    let qd = q.drop_last();
    if qd.len() == 0 {
        assert(pieces(qd, c) =~= Seq::<Seq<A>>::empty());
        assert(seq![q.last()] =~= q);
    } else {
        assert forall|i: int| 0 <= i < qd.len() - 1 implies qd[i] != c by {
            assert(qd[i] == q[i]);
        }
        lemma_pieces_of_piece(qd, c);
        assert(qd.last() == q[q.len() - 2]);
        assert(qd.push(q.last()) =~= q);
        assert(pieces(q, c) =~= seq![q]);
    }
}

/// Splitting after a completed piece splits the two parts separately.
pub proof fn lemma_pieces_concat<A>(a: Seq<A>, b: Seq<A>, c: A)
    requires
        a.len() == 0 || a.last() == c,
    ensures
        pieces(a + b, c) == pieces(a, c) + pieces(b, c),
    decreases b.len(),
{
    if b.len() == 0 {
        assert(a + b =~= a);
        assert(pieces(a, c) + pieces(b, c) =~= pieces(a, c));
    } else {
        let bd = b.drop_last();
        assert((a + b).drop_last() =~= a + bd);
        assert((a + b).last() == b.last());
        lemma_pieces_concat(a, bd, c);
        let pa = pieces(a, c);
        let pb = pieces(bd, c);
        lemma_pieces_nonempty(bd, c);
        if pb.len() == 0 {
            assert(bd.len() == 0);
            if a.len() > 0 {
                lemma_pieces_last(a, c);
            }
            assert(pieces(bd, c) =~= Seq::<Seq<A>>::empty());
            assert(pieces(b, c) =~= seq![seq![b.last()]]);
            assert(pa + pb =~= pa);
            assert(pieces(a + b, c) =~= pa + pieces(b, c));
        } else {
            assert((pa + pb).last() == pb.last());
            if pb.last().last() == c {
                assert((pa + pb).push(seq![b.last()]) =~= pa + pb.push(seq![b.last()]));
            } else {
                assert((pa + pb).update((pa + pb).len() - 1, pb.last().push(b.last())) =~= pa
                    + pb.update(pb.len() - 1, pb.last().push(b.last())));
            }
        }
    }
}

/// Well-split pieces written one after another split back into themselves.
pub proof fn lemma_pieces_flatten<A>(qs: Seq<Seq<A>>, c: A)
    requires
        well_split(qs, c),
    ensures
        pieces(flatten(qs), c) == qs,
    decreases qs.len(),
{
    if qs.len() == 0 {
        assert(pieces(flatten(qs), c) =~= qs);
    } else {
        let qd = qs.drop_last();
        assert forall|i: int| 0 <= i < qd.len() implies (#[trigger] qd[i]).len() > 0 && only_at_end(
            qd[i],
            c,
        ) by {
            assert(qd[i] == qs[i]);
        }
        assert forall|i: int| 0 <= i < qd.len() - 1 implies (#[trigger] qd[i]).last() == c by {
            assert(qd[i] == qs[i]);
        }
        lemma_pieces_flatten(qd, c);
        let a = flatten(qd);
        if qd.len() > 0 {
            assert(qd.last() == qs[qs.len() - 2]);
            assert(qd.last().len() > 0);
            assert(a == flatten(qd.drop_last()) + qd.last());
            assert(a.last() == qd.last().last());
        }
        assert(qs.last() == qs[qs.len() - 1]);
        lemma_pieces_concat(a, qs.last(), c);
        lemma_pieces_of_piece(qs.last(), c);
        assert(qd + seq![qs.last()] =~= qs);
    }
}

} // verus!

verus! {

pub proof fn lemma_min_occurrence(s: Seq<char>, p: Seq<char>, i: int)
    requires
        occurs_at(s, p, i),
    ensures
        exists|k: int|
            occurs_at(s, p, k) && forall|j: int|
                0 <= j < k ==> !occurs_at(s, p, j),
    decreases i,
{
    if exists|j: int| 0 <= j < i && occurs_at(s, p, j) {
        let j = choose|j: int| 0 <= j < i && occurs_at(s, p, j);
        lemma_min_occurrence(s, p, j);
    } else {
        assert(forall|j: int| 0 <= j < i ==> !occurs_at(s, p, j));
    }
}

/// The first occurrence is the occurrence with none before it.
pub proof fn lemma_first_occurrence_at(s: Seq<char>, p: Seq<char>, i: int)
    ensures
        first_occurrence(s, p) == Some(i) <==> (occurs_at(s, p, i) && forall|j: int|
            0 <= j < i ==> !occurs_at(s, p, j)),
{
    reveal(first_occurrence);
    if contains_seq(s, p) {
        let w = choose|w: int| occurs_at(s, p, w);
        lemma_min_occurrence(s, p, w);
        let k = choose|k: int|
            occurs_at(s, p, k) && forall|j: int|
                0 <= j < k ==> !occurs_at(s, p, j);
        if occurs_at(s, p, i) && forall|j: int|
            0 <= j < i ==> !occurs_at(s, p, j) {
            assert(k == i);
        }
    }
}

/// Each character of `v` written as `f` maps it.
pub open spec fn tokens(v: Seq<char>, f: spec_fn(char) -> Seq<char>) -> Seq<char>
    decreases v.len(),
{
    if v.len() == 0 {
        Seq::empty()
    } else {
        f(v[0]) + tokens(v.drop_first(), f)
    }
}

pub proof fn lemma_tokens_identity(v: Seq<char>, f: spec_fn(char) -> Seq<char>)
    requires
        forall|c: char| #[trigger] f(c) == seq![c],
    ensures
        tokens(v, f) == v,
    decreases v.len(),
{
    if v.len() > 0 {
        lemma_tokens_identity(v.drop_first(), f);
        assert(f(v[0]) == seq![v[0]]);
        assert(seq![v[0]] + v.drop_first() =~= v);
    }
}

pub proof fn lemma_tokens_without(v: Seq<char>, f: spec_fn(char) -> Seq<char>, x: char)
    requires
        forall|c: char| !has_char(#[trigger] f(c), x),
    ensures
        !has_char(tokens(v, f), x),
    decreases v.len(),
{
    if v.len() > 0 {
        lemma_tokens_without(v.drop_first(), f, x);
        let a = f(v[0]);
        let b = tokens(v.drop_first(), f);
        assert(!has_char(a, x));
        if has_char(a + b, x) {
            let i = choose|i: int| 0 <= i < (a + b).len() && (a + b)[i] == x;
            if i < a.len() {
                assert(a[i] == x);
            } else {
                assert(b[i - a.len()] == x);
            }
        }
    }
}

/// Text in which `p` cannot start is kept as it is.
pub proof fn lemma_replace_skips(w: Seq<char>, rest: Seq<char>, p: Seq<char>, r: Seq<char>)
    requires
        p.len() > 0,
        !has_char(w, p[0]),
    ensures
        replace_all(w + rest, p, r) == w + replace_all(rest, p, r),
    decreases w.len(),
{
    if w.len() == 0 {
        assert(w + rest =~= rest);
        assert(w + replace_all(rest, p, r) =~= replace_all(rest, p, r));
    } else {
        let s = w + rest;
        assert(s[0] == w[0]);
        assert(!occurs_at(s, p, 0)) by {
            if occurs_at(s, p, 0) {
                assert(s.subrange(0, p.len() as int)[0] == s[0]);
            }
        }
        assert(!has_char(w.drop_first(), p[0])) by {
            if has_char(w.drop_first(), p[0]) {
                let i = choose|i: int| 0 <= i < w.drop_first().len() && w.drop_first()[i] == p[0];
                assert(w[i + 1] == p[0]);
            }
        }
        assert(s.skip(1) =~= w.drop_first() + rest);
        lemma_replace_skips(w.drop_first(), rest, p, r);
        assert(seq![s[0]] + (w.drop_first() + replace_all(rest, p, r)) =~= w + replace_all(rest, p, r));
    }
}

/// `out` is what replacing `p` by `r` makes of the token `tok`, whatever
/// follows it.
pub open spec fn token_replaced(tok: Seq<char>, p: Seq<char>, r: Seq<char>, out: Seq<char>) -> bool {
    ||| tok == p && out == r
    ||| out == tok && !has_char(tok, p[0])
    ||| out == tok && tok.len() >= p.len() && tok[0] == p[0] && tok.take(p.len() as int) != p
        && !has_char(tok.drop_first(), p[0])
}

pub proof fn lemma_replace_token(tok: Seq<char>, rest: Seq<char>, p: Seq<char>, r: Seq<char>, out: Seq<char>)
    requires
        p.len() > 0,
        token_replaced(tok, p, r, out),
    ensures
        replace_all(tok + rest, p, r) == out + replace_all(rest, p, r),
{
    let s = tok + rest;
    if tok == p && out == r {
        assert(occurs_at(s, p, 0)) by {
            assert(s.subrange(0, p.len() as int) =~= p);
        }
        assert(s.skip(p.len() as int) =~= rest);
    } else if out == tok && !has_char(tok, p[0]) {
        lemma_replace_skips(tok, rest, p, r);
    } else {
        assert(!occurs_at(s, p, 0)) by {
            assert(s.subrange(0, p.len() as int) =~= tok.take(p.len() as int));
        }
        assert(s.skip(1) =~= tok.drop_first() + rest);
        lemma_replace_skips(tok.drop_first(), rest, p, r);
        assert(seq![s[0]] + (tok.drop_first() + replace_all(rest, p, r)) =~= tok + replace_all(
            rest,
            p,
            r,
        ));
    }
}

/// Replacing `p` token by token.
pub proof fn lemma_replace_tokens(
    v: Seq<char>,
    f: spec_fn(char) -> Seq<char>,
    g: spec_fn(char) -> Seq<char>,
    p: Seq<char>,
    r: Seq<char>,
)
    requires
        p.len() > 0,
        forall|c: char| token_replaced(#[trigger] f(c), p, r, g(c)),
    ensures
        replace_all(tokens(v, f), p, r) == tokens(v, g),
    decreases v.len(),
{
    if v.len() > 0 {
        assert(token_replaced(f(v[0]), p, r, g(v[0])));
        lemma_replace_token(f(v[0]), tokens(v.drop_first(), f), p, r, g(v[0]));
        lemma_replace_tokens(v.drop_first(), f, g, p, r);
    }
}

} // verus!
