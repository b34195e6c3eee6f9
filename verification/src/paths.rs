//! Slash-separated paths as the import resolution sees them: a path is
//! the sequence of its components, `.` components and empty ones dropped.
use vstd::prelude::*;
use crate::text::{find_char, lemma_find_char_range};

verus! {

broadcast use vstd::seq_lib::group_seq_properties;

/// The pieces of `s` between the slashes, always at least one.
pub open spec fn split_slashes(s: Seq<char>) -> Seq<Seq<char>>
    decreases s.len(),
{
    proof {
        lemma_find_char_range(s, '/');
    }
    match find_char(s, '/') {
        Some(i) => seq![s.take(i)] + split_slashes(s.skip(i + 1)),
        None => seq![s],
    }
}

/// Whether a piece between slashes names a component.
pub open spec fn is_component(seg: Seq<char>) -> bool {
    seg.len() > 0 && seg != seq!['.']
}

/// The pieces of `segs` that name components, in order.
pub open spec fn keep_components(segs: Seq<Seq<char>>) -> Seq<Seq<char>>
    decreases segs.len(),
{
    if segs.len() == 0 {
        Seq::empty()
    } else {
        let prev = keep_components(segs.drop_last());
        if is_component(segs.last()) {
            prev.push(segs.last())
        } else {
            prev
        }
    }
}

/// The components of the path `p`.
pub open spec fn components(p: Seq<char>) -> Seq<Seq<char>> {
    keep_components(split_slashes(p))
}

/// The component `..`.
pub open spec fn parent_dir() -> Seq<char> {
    seq!['.', '.']
}

/// The components with every `..` taken as a step up from the component
/// before it; a `..` with nothing before it to step up from stays.
pub open spec fn normalize(comps: Seq<Seq<char>>) -> Seq<Seq<char>>
    decreases comps.len(),
{
    if comps.len() == 0 {
        Seq::empty()
    } else {
        let prev = normalize(comps.drop_last());
        let c = comps.last();
        if c == parent_dir() {
            if prev.len() > 0 && prev.last() != parent_dir() {
                prev.drop_last()
            } else {
                prev.push(parent_dir())
            }
        } else {
            prev.push(c)
        }
    }
}

/// The components of the directory that holds the file `file`.
pub open spec fn parent_components(file: Seq<char>) -> Seq<Seq<char>> {
    let c = components(file);
    if c.len() > 0 {
        c.drop_last()
    } else {
        c
    }
}

/// The components of the file that `source`, imported in `file`, names.
pub open spec fn import_target(file: Seq<char>, source: Seq<char>) -> Seq<Seq<char>> {
    if source.len() > 0 && source[0] == '/' {
        normalize(components(source))
    } else {
        normalize(parent_components(file) + components(source))
    }
}

/// Whether the path `p` starts at the root or at the current directory
/// (`/...`, `.` or `./...`): such a path has a first component that no
/// resolved import target has.
pub open spec fn anchored(p: Seq<char>) -> bool {
    ||| p.len() > 0 && p[0] == '/'
    ||| p == seq!['.']
    ||| p.len() >= 2 && p[0] == '.' && p[1] == '/'
}

/// Whether an import of `source` in `file` names the file `other`: the
/// resolved target and `other` have the same components, and `other` is
/// not anchored at the root or the current directory, which the target
/// never is.
pub open spec fn import_names_file(file: Seq<char>, source: Seq<char>, other: Seq<char>) -> bool {
    &&& !anchored(other)
    &&& import_target(file, source) == components(other)
}

proof fn lemma_split_slashes_step(s: Seq<char>, i: int)
    requires
        0 <= i < s.len(),
        s[i] == '/',
        forall|j: int| 0 <= j < i ==> s[j] != '/',
    ensures
        split_slashes(s) == seq![s.take(i)] + split_slashes(s.skip(i + 1)),
{
    lemma_find_char_first(s, '/', i);
}

proof fn lemma_find_char_first(s: Seq<char>, c: char, i: int)
    requires
        0 <= i < s.len(),
        s[i] == c,
        forall|j: int| 0 <= j < i ==> s[j] != c,
    ensures
        find_char(s, c) == Some(i),
    decreases i,
{
    if i > 0 {
        lemma_find_char_first(s.drop_first(), c, i - 1);
    }
}

proof fn lemma_find_char_absent(s: Seq<char>, c: char)
    requires
        forall|j: int| 0 <= j < s.len() ==> s[j] != c,
    ensures
        find_char(s, c) is None,
    decreases s.len(),
{
    if s.len() > 0 {
        lemma_find_char_absent(s.drop_first(), c);
    }
}

pub open spec fn chars_views(v: Seq<Vec<char>>) -> Seq<Seq<char>> {
    v.map_values(|p: Vec<char>| p@)
}

/// Whether the character vector `v` names a component.
fn is_component_exec(v: &Vec<char>) -> (r: bool)
    ensures
        r == is_component(v@),
{
    if v.len() == 0 {
        false
    } else if v.len() == 1 && v[0] == '.' {
        assert(v@ =~= seq!['.']);
        false
    } else {
        assert(v@.len() == 1 ==> v@ != seq!['.'] || v@[0] == '.');
        true
    }
}

/// The components of the path `p`.
pub fn components_of(p: &str) -> (r: Vec<Vec<char>>)
    ensures
        chars_views(r@) == components(p@),
{
    let v = crate::text::chars_of(p);
    let mut out: Vec<Vec<char>> = Vec::new();
    let mut start: usize = 0;
    let mut i: usize = 0;
    let ghost mut done: Seq<Seq<char>> = Seq::empty();
    while i < v.len()
        invariant
            start <= i <= v@.len(),
            done + split_slashes(v@.skip(start as int)) == split_slashes(v@),
            chars_views(out@) == keep_components(done),
            forall|j: int| start <= j < i ==> v@[j] != '/',
        decreases v@.len() - i,
    {
        if v[i] == '/' {
            let seg = crate::text::slice_chars(v.as_slice(), start, i);
            proof {
                let t = v@.skip(start as int);
                assert forall|j: int| 0 <= j < i - start implies t[j] != '/' by {
                    assert(t[j] == v@[start + j]);
                }
                lemma_split_slashes_step(t, i - start);
                assert(t.take(i - start) =~= seg@);
                assert(t.skip(i - start + 1) =~= v@.skip(i + 1));
                assert(done.push(seg@) + split_slashes(v@.skip(i + 1)) =~= done + (seq![seg@]
                    + split_slashes(v@.skip(i + 1))));
                assert(done.push(seg@).drop_last() =~= done);
            }
            if is_component_exec(&seg) {
                proof {
                    assert(chars_views(out@.push(seg)) =~= chars_views(out@).push(seg@));
                }
                out.push(seg);
            }
            proof {
                done = done.push(seg@);
            }
            start = i + 1;
        }
        i += 1;
    }
    let last = crate::text::slice_chars(v.as_slice(), start, v.len());
    proof {
        let t = v@.skip(start as int);
        assert forall|j: int| 0 <= j < t.len() implies t[j] != '/' by {
            assert(t[j] == v@[start + j]);
        }
        lemma_find_char_absent(t, '/');
        assert(t =~= last@);
        assert(done.push(last@) =~= done + seq![last@]);
        assert(done.push(last@).drop_last() =~= done);
    }
    if is_component_exec(&last) {
        proof {
            assert(chars_views(out@.push(last)) =~= chars_views(out@).push(last@));
        }
        out.push(last);
    }
    out
}

fn chars_equal(a: &Vec<char>, b: &Vec<char>) -> (r: bool)
    ensures
        r == (a@ == b@),
{
    if a.len() != b.len() {
        return false;
    }
    let mut i: usize = 0;
    while i < a.len()
        invariant
            i <= a@.len() == b@.len(),
            forall|j: int| 0 <= j < i ==> a@[j] == b@[j],
        decreases a@.len() - i,
    {
        if a[i] != b[i] {
            return false;
        }
        i += 1;
    }
    assert(a@ =~= b@);
    true
}

fn components_equal(a: &Vec<Vec<char>>, b: &Vec<Vec<char>>) -> (r: bool)
    ensures
        r == (chars_views(a@) == chars_views(b@)),
{
    if a.len() != b.len() {
        assert(chars_views(a@).len() != chars_views(b@).len());
        return false;
    }
    let mut i: usize = 0;
    while i < a.len()
        invariant
            i <= a@.len() == b@.len(),
            forall|j: int| 0 <= j < i ==> a@[j]@ == b@[j]@,
        decreases a@.len() - i,
    {
        if !chars_equal(&a[i], &b[i]) {
            assert(chars_views(a@)[i as int] != chars_views(b@)[i as int]);
            return false;
        }
        i += 1;
    }
    assert(chars_views(a@) =~= chars_views(b@));
    true
}

fn is_parent_dir(v: &Vec<char>) -> (r: bool)
    ensures
        r == (v@ == parent_dir()),
{
    let r = v.len() == 2 && v[0] == '.' && v[1] == '.';
    assert(r ==> v@ =~= parent_dir());
    r
}

/// The components with each `..` resolved against the one before it.
pub fn normalize_components(comps: Vec<Vec<char>>) -> (r: Vec<Vec<char>>)
    ensures
        chars_views(r@) == normalize(chars_views(comps@)),
{
    let ghost cv = chars_views(comps@);
    let mut out: Vec<Vec<char>> = Vec::new();
    let mut comps = comps;
    let ghost all = comps@;
    let mut i: usize = 0;
    while i < comps.len()
        invariant
            i <= comps@.len(),
            comps@ == all,
            cv == chars_views(all),
            chars_views(out@) == normalize(cv.take(i as int)),
        decreases comps@.len() - i,
    {
        let c = crate::text::slice_chars(comps[i].as_slice(), 0, comps[i].len());
        assert(c@ =~= comps@[i as int]@);
        proof {
            assert(cv.take(i + 1).drop_last() =~= cv.take(i as int));
            assert(cv.take(i + 1).last() == c@);
        }
        if is_parent_dir(&c) {
            let last_is_parent = out.len() > 0 && is_parent_dir(&out[out.len() - 1]);
            if out.len() > 0 && !last_is_parent {
                let _ = out.pop();
                proof {
                    assert(chars_views(out@) =~= normalize(cv.take(i as int)).drop_last());
                }
            } else {
                proof {
                    assert(chars_views(out@.push(c)) =~= chars_views(out@).push(c@));
                }
                out.push(c);
            }
        } else {
            proof {
                assert(chars_views(out@.push(c)) =~= chars_views(out@).push(c@));
            }
            out.push(c);
        }
        i += 1;
    }
    assert(cv.take(comps@.len() as int) =~= cv);
    out
}

/// Whether an import of `source` written in the file `file` names the
/// file `other`: `source` is taken relative to the directory of `file`
/// (unless it starts with `/`), its `..` components are resolved, and the
/// result is compared with the path `other`, which names it only where it
/// does not start at the root or the current directory.
pub fn import_names(file: &str, source: &str, other: &str) -> (r: bool)
    ensures
        r == import_names_file(file@, source@, other@),
{
    let other_chars = crate::text::chars_of(other);
    let n = other_chars.len();
    let anchored_other = (n > 0 && other_chars[0] == '/') || (n == 1 && other_chars[0] == '.') || (n >= 2
        && other_chars[0] == '.' && other_chars[1] == '/');
    proof {
        if n == 1 && other_chars@[0] == '.' {
            assert(other@ =~= seq!['.']);
        }
    }
    if anchored_other {
        return false;
    }
    let src = components_of(source);
    let source_chars = crate::text::chars_of(source);
    let target = if source_chars.len() > 0 && source_chars[0] == '/' {
        normalize_components(src)
    } else {
        let mut base = components_of(file);
        if base.len() > 0 {
            let _ = base.pop();
        }
        let ghost b0 = base@;
        assert(chars_views(b0) =~= parent_components(file@));
        let mut k: usize = 0;
        while k < src.len()
            invariant
                k <= src@.len(),
                chars_views(base@) == chars_views(b0) + chars_views(src@).take(k as int),
            decreases src@.len() - k,
        {
            let c = crate::text::slice_chars(src[k].as_slice(), 0, src[k].len());
            assert(c@ =~= src@[k as int]@);
            let ghost before = base@;
            base.push(c);
            assert(chars_views(base@) =~= chars_views(before).push(c@));
            assert(chars_views(src@).take(k + 1) =~= chars_views(src@).take(k as int).push(c@));
            k += 1;
        }
        assert(chars_views(src@).take(src@.len() as int) =~= chars_views(src@));
        normalize_components(base)
    };
    let other_comps = components_of(other);
    components_equal(&target, &other_comps)
}

} // verus!
