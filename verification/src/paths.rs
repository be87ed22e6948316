//! A model of Unix path syntax over strings, following the component rules
//! of `std::path`: a leading `/` is the root, a leading `.` segment of a
//! relative path is the current directory, and inside the body empty and `.`
//! segments are not components.
use vstd::prelude::*;
use crate::text::{chars_of, push_char, string_of};

verus! {

pub open spec fn is_absolute(p: Seq<char>) -> bool {
    p.len() > 0 && p[0] == '/'
}

pub open spec fn has_cur_dir(p: Seq<char>) -> bool {
    !is_absolute(p) && p.len() > 0 && p[0] == '.' && (p.len() == 1 || p[1] == '/')
}

/// Number of characters before the body: the root or the leading `.`.
pub open spec fn body_start(p: Seq<char>) -> int {
    if is_absolute(p) || has_cur_dir(p) {
        1
    } else {
        0
    }
}

/// The `/`-separated segments of `s` (at least one, possibly empty).
pub open spec fn segments(s: Seq<char>) -> Seq<Seq<char>>
    decreases s.len(),
{
    if s.len() == 0 {
        seq![Seq::empty()]
    } else {
        let prev = segments(s.drop_last());
        if s.last() == '/' {
            prev.push(Seq::empty())
        } else {
            prev.update(prev.len() - 1, prev.last().push(s.last()))
        }
    }
}

/// A body segment that names a component.
pub open spec fn is_component(seg: Seq<char>) -> bool {
    seg.len() > 0 && seg != seq!['.']
}

pub open spec fn kept(seg: Seq<char>) -> Seq<Seq<char>> {
    if is_component(seg) {
        seq![seg]
    } else {
        Seq::empty()
    }
}

pub open spec fn keep_components(segs: Seq<Seq<char>>) -> Seq<Seq<char>>
    decreases segs.len(),
{
    if segs.len() == 0 {
        Seq::empty()
    } else {
        keep_components(segs.drop_last()) + kept(segs.last())
    }
}

/// The components of a path. The root is written `/`, the leading current
/// directory `.`; every other component is its segment text.
pub open spec fn components(p: Seq<char>) -> Seq<Seq<char>> {
    let lead: Seq<Seq<char>> = if is_absolute(p) {
        seq![seq!['/']]
    } else if has_cur_dir(p) {
        seq![seq!['.']]
    } else {
        Seq::empty()
    };
    lead + keep_components(segments(p.skip(body_start(p))))
}

/// `Path::starts_with`: the components of `base` are a prefix of those of `p`.
pub open spec fn path_starts_with(p: Seq<char>, base: Seq<char>) -> bool {
    components(base).len() <= components(p).len() && components(p).take(
        components(base).len() as int,
    ) == components(base)
}

/// Path equality compares components.
pub open spec fn same_path(a: Seq<char>, b: Seq<char>) -> bool {
    components(a) == components(b)
}

/// Drops trailing separators and trailing `.` segments, never below `f`.
pub open spec fn trim_back(s: Seq<char>, f: int) -> Seq<char>
    decreases s.len(),
{
    if s.len() <= f || s.len() == 0 {
        s
    } else if s.last() == '/' {
        trim_back(s.drop_last(), f)
    } else if s.last() == '.' && (s.len() - 1 == f || s[s.len() - 2] == '/') {
        trim_back(s.drop_last(), f)
    } else {
        s
    }
}

/// Index where the last segment of `s` starts (never below `f`).
pub open spec fn last_segment_start(s: Seq<char>, f: int) -> int
    decreases s.len(),
{
    if s.len() <= f || s.len() == 0 {
        f
    } else if s.last() == '/' {
        s.len() as int
    } else {
        last_segment_start(s.drop_last(), f)
    }
}

/// `Path::parent`, as the string slice that `std` returns.
pub open spec fn parent(p: Seq<char>) -> Option<Seq<char>> {
    let f = body_start(p);
    let t = trim_back(p, f);
    if t.len() <= f {
        if has_cur_dir(p) {
            Some(Seq::empty())
        } else {
            None
        }
    } else {
        let c = last_segment_start(t, f);
        let rest = if c > f {
            t.take(c - 1)
        } else {
            t.take(f)
        };
        Some(trim_back(rest, f))
    }
}

/// `Path::file_name`: the last component when it is a normal name.
pub open spec fn file_name(p: Seq<char>) -> Option<Seq<char>> {
    let f = body_start(p);
    let t = trim_back(p, f);
    if t.len() <= f {
        None
    } else {
        let name = t.skip(last_segment_start(t, f));
        if name == seq!['.', '.'] {
            None
        } else {
            Some(name)
        }
    }
}

/// `Path::join`: an absolute `rel` replaces `base`; otherwise a separator
/// is inserted unless `base` is empty or already ends with one.
pub open spec fn join(base: Seq<char>, rel: Seq<char>) -> Seq<char> {
    if is_absolute(rel) {
        rel
    } else if base.len() > 0 && base.last() != '/' {
        base + seq!['/'] + rel
    } else {
        base + rel
    }
}

pub proof fn lemma_segments_nonempty(s: Seq<char>)
    ensures
        segments(s).len() >= 1,
    decreases s.len(),
{
    if s.len() > 0 {
        lemma_segments_nonempty(s.drop_last());
    }
}

pub proof fn lemma_trim_back_prefix(s: Seq<char>, f: int)
    ensures
        trim_back(s, f).len() <= s.len(),
        trim_back(s, f) == s.take(trim_back(s, f).len() as int),
        s.len() > f ==> trim_back(s, f).len() >= f,
        s.len() <= f ==> trim_back(s, f) == s,
    decreases s.len(),
{
    if s.len() <= f || s.len() == 0 {
        assert(s.take(s.len() as int) =~= s);
    } else if s.last() == '/' || (s.last() == '.' && (s.len() - 1 == f || s[s.len() - 2] == '/')) {
        lemma_trim_back_prefix(s.drop_last(), f);
        let t = trim_back(s.drop_last(), f);
        assert(t =~= s.take(t.len() as int));
    } else {
        assert(s.take(s.len() as int) =~= s);
    }
}

pub proof fn lemma_last_segment_start(s: Seq<char>, f: int)
    requires
        0 <= f,
    ensures
        f <= last_segment_start(s, f),
        s.len() > f ==> last_segment_start(s, f) <= s.len(),
        last_segment_start(s, f) > f ==> s[last_segment_start(s, f) - 1] == '/',
        forall|j: int| last_segment_start(s, f) <= j < s.len() ==> s[j] != '/',
    decreases s.len(),
{
    if s.len() <= f || s.len() == 0 {
    } else if s.last() == '/' {
    } else {
        lemma_last_segment_start(s.drop_last(), f);
        assert forall|j: int| last_segment_start(s, f) <= j < s.len() implies s[j] != '/' by {
            if j < s.len() - 1 {
                assert(s.drop_last()[j] == s[j]);
            }
        }
    }
}

/// Length of `trim_back(v, f)`.
fn trim_back_len(v: &Vec<char>, f: usize) -> (n: usize)
    ensures
        n <= v@.len(),
        v@.take(n as int) == trim_back(v@, f as int),
{
    let mut n = v.len();
    proof {
        assert(v@.take(n as int) =~= v@);
    }
    while n > f && n > 0 && (v[n - 1] == '/' || (v[n - 1] == '.' && (n - 1 == f || v[n - 2] == '/')))
        invariant
            n <= v@.len(),
            trim_back(v@.take(n as int), f as int) == trim_back(v@, f as int),
        decreases n,
    {
        proof {
            let s = v@.take(n as int);
            assert(s.drop_last() =~= v@.take(n - 1));
        }
        n -= 1;
    }
    proof {
        let s = v@.take(n as int);
        assert(trim_back(s, f as int) == s);
    }
    n
}

/// `last_segment_start(v[..n], f)`.
fn last_segment_start_exec(v: &Vec<char>, n: usize, f: usize) -> (c: usize)
    requires
        n <= v@.len(),
    ensures
        c as int == last_segment_start(v@.take(n as int), f as int),
{
    let mut k = n;
    while k > f && k > 0 && v[k - 1] != '/'
        invariant
            k <= n <= v@.len(),
            last_segment_start(v@.take(k as int), f as int) == last_segment_start(
                v@.take(n as int),
                f as int,
            ),
        decreases k,
    {
        proof {
            assert(v@.take(k as int).drop_last() =~= v@.take(k - 1));
        }
        k -= 1;
    }
    if k > f && k > 0 {
        k
    } else {
        f
    }
}

pub fn is_absolute_exec(p: &str) -> (b: bool)
    ensures
        b == is_absolute(p@),
{
    let v = chars_of(p);
    v.len() > 0 && v[0] == '/'
}

fn body_start_exec(v: &Vec<char>) -> (f: usize)
    ensures
        f as int == body_start(v@),
        f <= 1,
{
    if v.len() > 0 && v[0] == '/' {
        1
    } else if v.len() > 0 && v[0] == '.' && (v.len() == 1 || v[1] == '/') {
        1
    } else {
        0
    }
}

/// `Path::parent`.
pub fn parent_of(p: &str) -> (r: Option<String>)
    ensures
        r matches Some(s) ==> parent(p@) == Some(s@),
        r is None ==> parent(p@) is None,
{
    let v = chars_of(p);
    let f = body_start_exec(&v);
    let n = trim_back_len(&v, f);
    proof {
        lemma_trim_back_prefix(v@, f as int);
    }
    if n <= f {
        if v.len() > 0 && v[0] == '.' && (v.len() == 1 || v[1] == '/') {
            return Some(String::new());
        }
        return None;
    }
    let c = last_segment_start_exec(&v, n, f);
    proof {
        lemma_last_segment_start(v@.take(n as int), f as int);
    }
    let rest_len = if c > f {
        c - 1
    } else {
        f
    };
    let ghost t = v@.take(n as int);
    let ghost rest = if c > f {
        t.take(c - 1)
    } else {
        t.take(f as int)
    };
    let rv = {
        let mut w: Vec<char> = Vec::new();
        let mut i: usize = 0;
        while i < rest_len
            invariant
                rest_len <= n <= v@.len(),
                i <= rest_len,
                w@ == v@.take(i as int),
            decreases rest_len - i,
        {
            w.push(v[i]);
            i += 1;
            assert(w@ =~= v@.take(i as int));
        }
        w
    };
    proof {
        assert(rv@ =~= rest);
    }
    let m = trim_back_len(&rv, f);
    Some(string_of(&rv, 0, m))
}

/// `Path::file_name`.
pub fn file_name_of(p: &str) -> (r: Option<String>)
    ensures
        r matches Some(s) ==> file_name(p@) == Some(s@),
        r is None ==> file_name(p@) is None,
{
    let v = chars_of(p);
    let f = body_start_exec(&v);
    let n = trim_back_len(&v, f);
    proof {
        lemma_trim_back_prefix(v@, f as int);
    }
    if n <= f {
        return None;
    }
    let c = last_segment_start_exec(&v, n, f);
    proof {
        lemma_last_segment_start(v@.take(n as int), f as int);
    }
    let name = string_of(&v, c, n);
    proof {
        assert(name@ =~= v@.take(n as int).skip(c as int));
    }
    if n - c == 2 && v[c] == '.' && v[c + 1] == '.' {
        assert(name@ =~= seq!['.', '.']);
        return None;
    }
    assert(name@ != seq!['.', '.']);
    Some(name)
}

/// `Path::join`.
pub fn join_path(base: &str, rel: &str) -> (r: String)
    ensures
        r@ == join(base@, rel@),
{
    if is_absolute_exec(rel) {
        return rel.to_owned();
    }
    let bv = chars_of(base);
    let mut r = base.to_owned();
    if bv.len() > 0 && bv[bv.len() - 1] != '/' {
        push_char(&mut r, '/');
    }
    r.append(rel);
    r
}

/// `Path::components`, each written as in [`components`].
pub fn components_of(p: &str) -> (r: Vec<String>)
    ensures
        r.deep_view() == components(p@),
{
    let v = chars_of(p);
    let f = body_start_exec(&v);
    let mut out: Vec<String> = Vec::new();
    if f == 1 {
        let mut lead = String::new();
        push_char(&mut lead, v[0]);
        out.push(lead);
    }
    let ghost lead_seq = out.deep_view();
    let ghost body = v@.skip(f as int);
    let mut cur = String::new();
    let mut i = f;
    proof {
        assert(body.take(0) =~= Seq::<char>::empty());
        assert(lead_seq =~= components(p@).take(lead_seq.len() as int)) by {
            if f == 1 {
                assert(v@[0] == '/' ==> is_absolute(p@));
            }
        }
        assert(segments(body.take(0)).drop_last() =~= Seq::<Seq<char>>::empty());
        assert(keep_components(Seq::<Seq<char>>::empty()) =~= Seq::<Seq<char>>::empty());
        assert(out.deep_view() =~= lead_seq + keep_components(
            segments(body.take(0)).drop_last(),
        ));
    }
    while i < v.len()
        invariant
            v@ == p@,
            f as int == body_start(v@),
            f <= i <= v@.len(),
            body == v@.skip(f as int),
            out.deep_view() == lead_seq + keep_components(
                segments(body.take(i - f)).drop_last(),
            ),
            cur@ == segments(body.take(i - f)).last(),
        decreases v.len() - i,
    {
        let ghost before = body.take(i - f);
        proof {
            lemma_segments_nonempty(before);
            assert(body.take(i + 1 - f).drop_last() =~= before);
        }
        if v[i] == '/' {
            proof {
                let segs = segments(before);
                assert(segments(body.take(i + 1 - f)) == segs.push(Seq::empty()));
                assert(segs.push(Seq::<char>::empty()).drop_last() =~= segs);
                assert(segs =~= segs.drop_last().push(segs.last()));
                assert(keep_components(segs) == keep_components(segs.drop_last()) + kept(
                    segs.last(),
                ));
            }
            if cur.unicode_len() > 0 && !(cur.unicode_len() == 1 && cur.as_str().get_char(0) == '.') {
                proof {
                    assert(is_component(cur@)) by {
                        if cur@ == seq!['.'] {
                            assert(cur@.len() == 1 && cur@[0] == '.');
                        }
                    }
                }
                let ghost old_dv = out.deep_view();
                out.push(cur);
                proof {
                    assert(out.deep_view() =~= old_dv.push(segments(before).last()));
                    assert(out.deep_view() =~= lead_seq + keep_components(
                        segments(body.take(i + 1 - f)).drop_last(),
                    ));
                }
            } else {
                proof {
                    if cur@.len() == 1 {
                        assert(cur@ =~= seq!['.']);
                    }
                    assert(!is_component(cur@));
                    assert(kept(cur@) =~= Seq::<Seq<char>>::empty());
                    assert(out.deep_view() =~= lead_seq + keep_components(
                        segments(body.take(i + 1 - f)).drop_last(),
                    ));
                }
            }
            cur = String::new();
        } else {
            let c = v[i];
            proof {
                let segs = segments(before);
                let nsegs = segs.update(segs.len() - 1, segs.last().push(c));
                assert(segments(body.take(i + 1 - f)) == nsegs);
                assert(nsegs.drop_last() =~= segs.drop_last());
            }
            push_char(&mut cur, c);
        }
        i += 1;
    }
    proof {
        assert(body.take(i - f) =~= body);
        let segs = segments(body);
        lemma_segments_nonempty(body);
        assert(segs =~= segs.drop_last().push(segs.last()));
        assert(keep_components(segs) == keep_components(segs.drop_last()) + kept(segs.last()));
    }
    if cur.unicode_len() > 0 && !(cur.unicode_len() == 1 && cur.as_str().get_char(0) == '.') {
        let ghost old_dv = out.deep_view();
        proof {
            assert(is_component(cur@)) by {
                if cur@ == seq!['.'] {
                    assert(cur@.len() == 1 && cur@[0] == '.');
                }
            }
        }
        out.push(cur);
        proof {
            assert(out.deep_view() =~= old_dv.push(segments(body).last()));
        }
    } else {
        proof {
            if cur@.len() == 1 {
                assert(cur@ =~= seq!['.']);
            }
            assert(kept(cur@) =~= Seq::<Seq<char>>::empty());
        }
    }
    proof {
        assert(out.deep_view() =~= components(p@));
    }
    out
}

} // verus!

verus! {

/// `Path::starts_with`.
pub fn starts_with_path(p: &str, base: &str) -> (b: bool)
    ensures
        b == path_starts_with(p@, base@),
{
    let pc = components_of(p);
    let bc = components_of(base);
    if bc.len() > pc.len() {
        return false;
    }
    let mut i: usize = 0;
    while i < bc.len()
        invariant
            bc.len() <= pc.len(),
            pc.deep_view() == components(p@),
            bc.deep_view() == components(base@),
            i <= bc.len(),
            forall|j: int| 0 <= j < i ==> pc.deep_view()[j] == bc.deep_view()[j],
        decreases bc.len() - i,
    {
        if pc[i] != bc[i] {
            assert(pc.deep_view().take(bc.len() as int)[i as int] != bc.deep_view()[i as int]);
            return false;
        }
        i += 1;
    }
    assert(pc.deep_view().take(bc.len() as int) =~= bc.deep_view());
    true
}

/// Path equality (by components).
pub fn same_path_exec(a: &str, b: &str) -> (r: bool)
    ensures
        r == same_path(a@, b@),
{
    let r = starts_with_path(a, b) && starts_with_path(b, a);
    proof {
        if r {
            assert(components(a@) =~= components(b@));
        }
        if components(a@) == components(b@) {
            assert(components(a@).take(components(a@).len() as int) =~= components(a@));
        }
    }
    r
}

} // verus!
