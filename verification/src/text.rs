//! Character-level text handling shared by the language front ends:
//! whitespace trimming, prefix and suffix stripping, line splitting and
//! joining, all stated over `Seq<char>`.
use vstd::prelude::*;

verus! {

broadcast use vstd::seq_lib::group_seq_properties;



/// Unicode `White_Space`, the set that `char::is_whitespace` tests for.
pub open spec fn is_ws(c: char) -> bool {
    let u = c as u32;
    ||| 0x09 <= u <= 0x0d
    ||| u == 0x20
    ||| u == 0x85
    ||| u == 0xa0
    ||| u == 0x1680
    ||| 0x2000 <= u <= 0x200a
    ||| u == 0x2028
    ||| u == 0x2029
    ||| u == 0x202f
    ||| u == 0x205f
    ||| u == 0x3000
}

pub fn is_whitespace(c: char) -> (r: bool)
    ensures
        r == is_ws(c),
{
    let u = c as u32;
    (0x09 <= u && u <= 0x0d) || u == 0x20 || u == 0x85 || u == 0xa0 || u == 0x1680 || (0x2000
        <= u && u <= 0x200a) || u == 0x2028 || u == 0x2029 || u == 0x202f || u == 0x205f || u
        == 0x3000
}

/// `s` without its leading whitespace.
pub open spec fn trim_start(s: Seq<char>) -> Seq<char>
    decreases s.len(),
{
    if s.len() > 0 && is_ws(s[0]) {
        trim_start(s.drop_first())
    } else {
        s
    }
}

/// `s` without its trailing whitespace.
pub open spec fn trim_end(s: Seq<char>) -> Seq<char>
    decreases s.len(),
{
    if s.len() > 0 && is_ws(s.last()) {
        trim_end(s.drop_last())
    } else {
        s
    }
}

/// `s` without leading and trailing whitespace, as `str::trim`.
pub open spec fn trim(s: Seq<char>) -> Seq<char> {
    trim_end(trim_start(s))
}

/// `s` with every leading repetition of the non-empty `pat` removed.
pub open spec fn strip_prefixes(s: Seq<char>, pat: Seq<char>) -> Seq<char>
    decreases s.len(),
{
    if pat.len() > 0 && pat.len() <= s.len() && s.take(pat.len() as int) == pat {
        strip_prefixes(s.skip(pat.len() as int), pat)
    } else {
        s
    }
}

/// `s` with every trailing repetition of the non-empty `pat` removed.
pub open spec fn strip_suffixes(s: Seq<char>, pat: Seq<char>) -> Seq<char>
    decreases s.len(),
{
    if pat.len() > 0 && pat.len() <= s.len() && s.skip(s.len() - pat.len()) == pat {
        strip_suffixes(s.take(s.len() - pat.len()), pat)
    } else {
        s
    }
}

/// Position of the first `c` in `s`, if any.
pub open spec fn find_char(s: Seq<char>, c: char) -> Option<int>
    decreases s.len(),
{
    if s.len() == 0 {
        None
    } else if s[0] == c {
        Some(0)
    } else {
        match find_char(s.drop_first(), c) {
            Some(i) => Some(i + 1),
            None => None,
        }
    }
}

pub proof fn lemma_find_char_range(s: Seq<char>, c: char)
    ensures
        find_char(s, c) matches Some(i) ==> 0 <= i < s.len() && s[i] == c,
    decreases s.len(),
{
    if s.len() > 0 {
        lemma_find_char_range(s.drop_first(), c);
    }
}

/// The pieces of `s` between the newlines, always at least one.
pub open spec fn split_newlines(s: Seq<char>) -> Seq<Seq<char>>
    decreases s.len(),
{
    proof {
        lemma_find_char_range(s, '\n');
    }
    match find_char(s, '\n') {
        Some(i) => seq![s.take(i)] + split_newlines(s.skip(i + 1)),
        None => seq![s],
    }
}

/// `line` without one trailing carriage return.
pub open spec fn strip_cr(line: Seq<char>) -> Seq<char> {
    if line.len() > 0 && line.last() == '\r' {
        line.drop_last()
    } else {
        line
    }
}

/// The lines of `s` as `str::lines` gives them: split at `\n`, a trailing
/// `\r` removed from each line, and no empty last line after a final `\n`.
pub open spec fn lines(s: Seq<char>) -> Seq<Seq<char>> {
    let body = if s.len() > 0 && s.last() == '\n' {
        s.drop_last()
    } else {
        s
    };
    if s.len() == 0 {
        Seq::empty()
    } else {
        split_newlines(body).map_values(|l: Seq<char>| strip_cr(l))
    }
}

/// The concatenation of `parts` with `sep` between neighbours.
pub open spec fn join(parts: Seq<Seq<char>>, sep: Seq<char>) -> Seq<char>
    decreases parts.len(),
{
    if parts.len() == 0 {
        Seq::empty()
    } else if parts.len() == 1 {
        parts[0]
    } else {
        join(parts.drop_last(), sep) + sep + parts.last()
    }
}

/// Appends one character to a `String` (`String::push`).
#[verifier::external_body]
pub fn push_char(s: &mut String, c: char)
    ensures
        final(s)@ == old(s)@.push(c),
{
    s.push(c)
}

/// The characters of `s`, one by one (`str::chars`).
#[verifier::external_body]
pub fn chars_of(s: &str) -> (r: Vec<char>)
    ensures
        r@ == s@,
{
    s.chars().collect()
}

pub fn string_of(v: &[char]) -> (r: String)
    ensures
        r@ == v@,
{
    let mut out = String::new();
    let mut i: usize = 0;
    while i < v.len()
        invariant
            i <= v@.len(),
            out@ == v@.take(i as int),
        decreases v@.len() - i,
    {
        push_char(&mut out, v[i]);
        assert(v@.take(i + 1) =~= v@.take(i as int).push(v@[i as int]));
        i += 1;
    }
    assert(v@.take(v@.len() as int) =~= v@);
    out
}

pub fn slice_chars(v: &[char], from: usize, to: usize) -> (r: Vec<char>)
    requires
        from <= to <= v@.len(),
    ensures
        r@ == v@.subrange(from as int, to as int),
{
    let mut out: Vec<char> = Vec::new();
    let mut i = from;
    while i < to
        invariant
            from <= i <= to <= v@.len(),
            out@ == v@.subrange(from as int, i as int),
        decreases to - i,
    {
        out.push(v[i]);
        assert(v@.subrange(from as int, i + 1) =~= v@.subrange(from as int, i as int).push(
            v@[i as int],
        ));
        i += 1;
    }
    out
}

proof fn lemma_trim_start_skip(s: Seq<char>, i: int)
    requires
        0 <= i <= s.len(),
        forall|j: int| 0 <= j < i ==> is_ws(#[trigger] s[j]),
    ensures
        trim_start(s) == trim_start(s.skip(i)),
    decreases i,
{
    if i > 0 {
        assert(s.skip(1) =~= s.drop_first());
        lemma_trim_start_skip(s.drop_first(), i - 1);
        assert(s.drop_first().skip(i - 1) =~= s.skip(i));
    } else {
        assert(s.skip(0) =~= s);
    }
}

proof fn lemma_trim_end_take(s: Seq<char>, i: int)
    requires
        0 <= i <= s.len(),
        forall|j: int| i <= j < s.len() ==> is_ws(#[trigger] s[j]),
    ensures
        trim_end(s) == trim_end(s.take(i)),
    decreases s.len() - i,
{
    if i < s.len() {
        lemma_trim_end_take(s.drop_last(), i);
        assert(s.drop_last().take(i) =~= s.take(i));
    } else {
        assert(s.take(i) =~= s);
    }
}

/// The characters of `v` without leading and trailing whitespace.
pub fn trim_chars(v: &[char]) -> (r: Vec<char>)
    ensures
        r@ == trim(v@),
{
    let mut start: usize = 0;
    while start < v.len() && is_whitespace(v[start])
        invariant
            start <= v@.len(),
            forall|j: int| 0 <= j < start ==> is_ws(#[trigger] v@[j]),
        decreases v@.len() - start,
    {
        start += 1;
    }
    proof {
        lemma_trim_start_skip(v@, start as int);
        assert(trim_start(v@.skip(start as int)) == v@.skip(start as int));
    }
    let ghost rest = v@.skip(start as int);
    let mut end: usize = v.len();
    while end > start && is_whitespace(v[end - 1])
        invariant
            start <= end <= v@.len(),
            rest == v@.skip(start as int),
            forall|j: int| end - start <= j < rest.len() ==> is_ws(#[trigger] rest[j]),
        decreases end,
    {
        end -= 1;
    }
    proof {
        lemma_trim_end_take(rest, end - start);
        let t = rest.take(end - start);
        if t.len() > 0 {
            assert(t.last() == v@[end - 1]);
        }
        assert(trim_end(t) == t);
        assert(t =~= v@.subrange(start as int, end as int));
    }
    slice_chars(v, start, end)
}

proof fn lemma_strip_prefixes_step(s: Seq<char>, pat: Seq<char>, i: int)
    requires
        pat.len() > 0,
        0 <= i <= s.len(),
        i + pat.len() <= s.len(),
        s.subrange(i, i + pat.len() as int) == pat,
    ensures
        strip_prefixes(s.skip(i), pat) == strip_prefixes(s.skip(i + pat.len()), pat),
{
    let t = s.skip(i);
    assert(t.take(pat.len() as int) =~= s.subrange(i, i + pat.len() as int));
    assert(t.skip(pat.len() as int) =~= s.skip(i + pat.len()));
}

/// `v` with every leading repetition of the non-empty `pat` removed, as
/// `str::trim_start_matches` with a string pattern.
pub fn strip_prefixes_chars(v: &[char], pat: &[char]) -> (r: Vec<char>)
    requires
        pat@.len() > 0,
    ensures
        r@ == strip_prefixes(v@, pat@),
{
    let mut i: usize = 0;
    loop
        invariant
            i <= v@.len(),
            strip_prefixes(v@, pat@) == strip_prefixes(v@.skip(i as int), pat@),
            pat@.len() > 0,
        ensures
            i <= v@.len(),
            strip_prefixes(v@, pat@) == v@.skip(i as int),
        decreases v@.len() - i,
    {
        if pat.len() > v.len() - i {
            break;
        }
        let mut k: usize = 0;
        let mut same = true;
        while k < pat.len()
            invariant
                k <= pat@.len(),
                i + pat@.len() <= v@.len(),
                v@.len() == v.len(),
                same == (forall|j: int| 0 <= j < k ==> v@[i + j] == pat@[j]),
            decreases pat@.len() - k,
        {
            if v[i + k] != pat[k] {
                same = false;
            }
            k += 1;
        }
        if !same {
            proof {
                let t = v@.skip(i as int);
                if t.take(pat@.len() as int) == pat@ {
                    assert forall|j: int| 0 <= j < pat@.len() implies v@[i + j] == pat@[j] by {
                        assert(t.take(pat@.len() as int)[j] == v@[i + j]);
                    }
                }
            }
            break;
        }
        proof {
            assert(v@.subrange(i as int, i + pat@.len()) =~= pat@);
            lemma_strip_prefixes_step(v@, pat@, i as int);
        }
        i += pat.len();
    }
    proof {
        assert(v@.skip(i as int) =~= v@.subrange(i as int, v@.len() as int));
    }
    slice_chars(v, i, v.len())
}

/// `v` with every trailing repetition of the non-empty `pat` removed, as
/// `str::trim_end_matches` with a string pattern.
pub fn strip_suffixes_chars(v: &[char], pat: &[char]) -> (r: Vec<char>)
    requires
        pat@.len() > 0,
    ensures
        r@ == strip_suffixes(v@, pat@),
{
    let mut e: usize = v.len();
    loop
        invariant
            e <= v@.len(),
            strip_suffixes(v@, pat@) == strip_suffixes(v@.take(e as int), pat@),
            pat@.len() > 0,
        ensures
            e <= v@.len(),
            strip_suffixes(v@, pat@) == v@.take(e as int),
        decreases e,
    {
        if pat.len() > e {
            break;
        }
        let st = e - pat.len();
        let mut k: usize = 0;
        let mut same = true;
        while k < pat.len()
            invariant
                k <= pat@.len(),
                st + pat@.len() == e <= v@.len(),
                same == (forall|j: int| 0 <= j < k ==> v@[st + j] == pat@[j]),
            decreases pat@.len() - k,
        {
            if v[st + k] != pat[k] {
                same = false;
            }
            k += 1;
        }
        let ghost t = v@.take(e as int);
        if !same {
            proof {
                if t.skip(t.len() - pat@.len()) == pat@ {
                    assert forall|j: int| 0 <= j < pat@.len() implies v@[st + j] == pat@[j] by {
                        assert(t.skip(t.len() - pat@.len())[j] == v@[st + j]);
                    }
                }
            }
            break;
        }
        proof {
            assert(t.skip(t.len() - pat@.len()) =~= pat@);
            assert(t.take(t.len() - pat@.len()) =~= v@.take(st as int));
        }
        e = st;
    }
    proof {
        assert(v@.take(e as int) =~= v@.subrange(0, e as int));
    }
    slice_chars(v, 0, e)
}

proof fn lemma_find_char_none(s: Seq<char>, c: char)
    requires
        forall|j: int| 0 <= j < s.len() ==> s[j] != c,
    ensures
        find_char(s, c) is None,
    decreases s.len(),
{
    if s.len() > 0 {
        lemma_find_char_none(s.drop_first(), c);
    }
}

proof fn lemma_find_char_some(s: Seq<char>, c: char, i: int)
    requires
        0 <= i < s.len(),
        s[i] == c,
        forall|j: int| 0 <= j < i ==> s[j] != c,
    ensures
        find_char(s, c) == Some(i),
    decreases i,
{
    if i > 0 {
        lemma_find_char_some(s.drop_first(), c, i - 1);
    }
}

/// Splitting off the piece before a newline: what is split so far, the
/// piece up to the newline, and the split of the rest make the whole split.
proof fn lemma_split_newlines_step(v: Seq<char>, start: int, i: int, done: Seq<Seq<char>>)
    requires
        0 <= start <= i < v.len(),
        v[i] == '\n',
        forall|j: int| start <= j < i ==> v[j] != '\n',
        done + split_newlines(v.skip(start)) == split_newlines(v),
    ensures
        done.push(v.subrange(start, i)) + split_newlines(v.skip(i + 1)) == split_newlines(v),
{
    let t = v.skip(start);
    assert forall|j: int| 0 <= j < i - start implies t[j] != '\n' by {
        assert(t[j] == v[start + j]);
    }
    lemma_find_char_some(t, '\n', i - start);
    assert(t.take(i - start) =~= v.subrange(start, i));
    assert(t.skip(i - start + 1) =~= v.skip(i + 1));
    assert(split_newlines(t) == seq![v.subrange(start, i)] + split_newlines(v.skip(i + 1)));
    assert(done.push(v.subrange(start, i)) + split_newlines(v.skip(i + 1)) =~= done + (seq![v.subrange(start, i)]
        + split_newlines(v.skip(i + 1))));
}

/// The last piece: the split of a rest without newlines is the rest.
proof fn lemma_split_newlines_last(v: Seq<char>, start: int, done: Seq<Seq<char>>)
    requires
        0 <= start <= v.len(),
        forall|j: int| start <= j < v.len() ==> v[j] != '\n',
        done + split_newlines(v.skip(start)) == split_newlines(v),
    ensures
        done.push(v.subrange(start, v.len() as int)) == split_newlines(v),
{
    let t = v.skip(start);
    assert forall|j: int| 0 <= j < t.len() implies t[j] != '\n' by {
        assert(t[j] == v[start + j]);
    }
    lemma_find_char_none(t, '\n');
    assert(t =~= v.subrange(start, v.len() as int));
    assert(done + seq![t] =~= done.push(t));
}

/// The pieces of `v` between its newlines.
pub fn split_newlines_chars(v: &[char]) -> (r: Vec<Vec<char>>)
    ensures
        r@.map_values(|p: Vec<char>| p@) == split_newlines(v@),
{
    let mut out: Vec<Vec<char>> = Vec::new();
    let mut start: usize = 0;
    let mut i: usize = 0;
    proof {
        assert(out@.map_values(|p: Vec<char>| p@) =~= Seq::<Seq<char>>::empty());
        assert(v@.skip(0) =~= v@);
    }
    while i < v.len()
        invariant
            start <= i <= v@.len(),
            out@.map_values(|p: Vec<char>| p@) + split_newlines(v@.skip(start as int))
                == split_newlines(v@),
            forall|j: int| start <= j < i ==> v@[j] != '\n',
        decreases v@.len() - i,
    {
        if v[i] == '\n' {
            let piece = slice_chars(v, start, i);
            proof {
                lemma_split_newlines_step(v@, start as int, i as int, out@.map_values(|p: Vec<char>| p@));
                assert(out@.push(piece).map_values(|p: Vec<char>| p@) =~= out@.map_values(
                    |p: Vec<char>| p@,
                ).push(piece@));
            }
            out.push(piece);
            start = i + 1;
        }
        i += 1;
    }
    let last = slice_chars(v, start, v.len());
    proof {
        lemma_split_newlines_last(v@, start as int, out@.map_values(|p: Vec<char>| p@));
        assert(out@.push(last).map_values(|p: Vec<char>| p@) =~= out@.map_values(
            |p: Vec<char>| p@,
        ).push(last@));
    }
    out.push(last);
    out
}

/// The lines of `v`, as `str::lines` yields them.
pub fn lines_chars(v: &[char]) -> (r: Vec<Vec<char>>)
    ensures
        r@.map_values(|p: Vec<char>| p@) == lines(v@),
{
    if v.len() == 0 {
        let r: Vec<Vec<char>> = Vec::new();
        assert(r@.map_values(|p: Vec<char>| p@) =~= Seq::<Seq<char>>::empty());
        return r;
    }
    let body = if v[v.len() - 1] == '\n' {
        slice_chars(v, 0, v.len() - 1)
    } else {
        slice_chars(v, 0, v.len())
    };
    proof {
        if v@.last() == '\n' {
            assert(body@ =~= v@.drop_last());
        } else {
            assert(body@ =~= v@);
        }
    }
    let pieces = split_newlines_chars(body.as_slice());
    let ghost pv = pieces@.map_values(|p: Vec<char>| p@);
    let mut out: Vec<Vec<char>> = Vec::new();
    let mut i: usize = 0;
    while i < pieces.len()
        invariant
            i <= pieces@.len(),
            pv == pieces@.map_values(|p: Vec<char>| p@),
            out@.map_values(|p: Vec<char>| p@) =~= pv.take(i as int).map_values(
                |l: Seq<char>| strip_cr(l),
            ),
        decreases pieces@.len() - i,
    {
        let p = &pieces[i];
        let line = if p.len() > 0 && p[p.len() - 1] == '\r' {
            slice_chars(p.as_slice(), 0, p.len() - 1)
        } else {
            slice_chars(p.as_slice(), 0, p.len())
        };
        proof {
            assert(pv[i as int] == p@);
            if p@.len() > 0 && p@.last() == '\r' {
                assert(line@ =~= p@.drop_last());
            } else {
                assert(line@ =~= p@);
            }
            assert(pv.take(i + 1) =~= pv.take(i as int).push(p@));
            assert(out@.push(line).map_values(|p: Vec<char>| p@) =~= out@.map_values(
                |p: Vec<char>| p@,
            ).push(line@));
            assert(pv.take(i + 1).map_values(|l: Seq<char>| strip_cr(l)) =~= pv.take(
                i as int,
            ).map_values(|l: Seq<char>| strip_cr(l)).push(strip_cr(p@)));
        }
        out.push(line);
        i += 1;
    }
    assert(pv.take(pieces@.len() as int) =~= pv);
    out
}

/// The lines in `parts`, joined with `sep` between neighbours.
pub fn join_chars(parts: &Vec<Vec<char>>, sep: &[char]) -> (r: Vec<char>)
    ensures
        r@ == join(parts@.map_values(|p: Vec<char>| p@), sep@),
{
    let ghost pv = parts@.map_values(|p: Vec<char>| p@);
    let mut out: Vec<char> = Vec::new();
    let mut i: usize = 0;
    while i < parts.len()
        invariant
            i <= parts@.len(),
            pv == parts@.map_values(|p: Vec<char>| p@),
            out@ == join(pv.take(i as int), sep@),
        decreases parts@.len() - i,
    {
        let ghost before = out@;
        if i > 0 {
            append_chars(&mut out, sep);
        }
        append_chars(&mut out, parts[i].as_slice());
        proof {
            let t = pv.take(i + 1);
            assert(t.drop_last() =~= pv.take(i as int));
            assert(t.last() == parts@[i as int]@);
            if i == 0 {
                assert(out@ =~= parts@[0]@);
            }
        }
        i += 1;
    }
    assert(pv.take(parts@.len() as int) =~= pv);
    out
}

/// Whether two strings have the same characters.
pub fn str_eq(a: &str, b: &str) -> (r: bool)
    ensures
        r == (a@ == b@),
{
    let x = chars_of(a);
    let y = chars_of(b);
    if x.len() != y.len() {
        return false;
    }
    let mut i: usize = 0;
    while i < x.len()
        invariant
            i <= x@.len() == y@.len(),
            x@ == a@,
            y@ == b@,
            forall|j: int| 0 <= j < i ==> x@[j] == y@[j],
        decreases x@.len() - i,
    {
        if x[i] != y[i] {
            assert(x@[i as int] != y@[i as int]);
            return false;
        }
        i += 1;
    }
    assert(x@ =~= y@);
    true
}

pub fn append_chars(out: &mut Vec<char>, v: &[char])
    ensures
        final(out)@ == old(out)@ + v@,
{
    let mut i: usize = 0;
    while i < v.len()
        invariant
            i <= v@.len(),
            out@ == old(out)@ + v@.take(i as int),
        decreases v@.len() - i,
    {
        out.push(v[i]);
        assert(v@.take(i + 1) =~= v@.take(i as int).push(v@[i as int]));
        i += 1;
    }
    assert(v@.take(v@.len() as int) =~= v@);
}

} // verus!
