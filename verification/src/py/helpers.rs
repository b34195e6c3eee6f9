//! Python docstrings, as written and as shown.
use vstd::prelude::*;
use crate::text::{
    chars_of, is_whitespace, is_ws, join, join_chars, lines, lines_chars, slice_chars, string_of,
    strip_prefixes, strip_prefixes_chars, strip_suffixes, strip_suffixes_chars, trim, trim_chars,
};

verus! {

broadcast use vstd::seq_lib::group_seq_properties;

/// The number of bytes the UTF-8 encoding of `c` takes.
pub open spec fn utf8_width(c: char) -> nat {
    let u = c as u32;
    if u < 0x80 {
        1
    } else if u < 0x800 {
        2
    } else if u < 0x10000 {
        3
    } else {
        4
    }
}

/// The number of bytes the UTF-8 encoding of `l` takes.
pub open spec fn width(l: Seq<char>) -> nat
    decreases l.len(),
{
    if l.len() == 0 {
        0
    } else {
        utf8_width(l[0]) + width(l.drop_first())
    }
}

/// The number of bytes of whitespace a line starts with.
pub open spec fn leading_ws(l: Seq<char>) -> nat
    decreases l.len(),
{
    if l.len() > 0 && is_ws(l[0]) {
        utf8_width(l[0]) + leading_ws(l.drop_first())
    } else {
        0
    }
}

/// The smallest indentation among the lines that are not blank, if any.
pub open spec fn min_indent(ls: Seq<Seq<char>>) -> Option<nat>
    decreases ls.len(),
{
    if ls.len() == 0 {
        None
    } else {
        let rest = min_indent(ls.drop_first());
        if trim(ls[0]).len() == 0 {
            rest
        } else {
            match rest {
                Some(m) => Some(if leading_ws(ls[0]) < m { leading_ws(ls[0]) } else { m }),
                None => Some(leading_ws(ls[0])),
            }
        }
    }
}

/// Whether a cut `m` bytes into `l` falls between two characters.
pub open spec fn cuts_at(l: Seq<char>, m: int) -> bool
    decreases l.len(),
{
    if m == 0 {
        true
    } else if l.len() == 0 || m < 0 {
        false
    } else {
        cuts_at(l.drop_first(), m - utf8_width(l[0]))
    }
}

/// `l` without the characters of its first `m` bytes.
pub open spec fn skip_bytes(l: Seq<char>, m: int) -> Seq<char>
    decreases l.len(),
{
    if m <= 0 || l.len() == 0 {
        l
    } else {
        skip_bytes(l.drop_first(), m - utf8_width(l[0]))
    }
}

/// Line `i` of a docstring as shown, the lines after the first losing the
/// common indentation of `m` bytes: a line no longer than `m` bytes is
/// trimmed instead.
pub open spec fn dedented(l: Seq<char>, i: int, m: nat) -> Seq<char> {
    if i == 0 {
        l
    } else if width(l) > m {
        skip_bytes(l, m as int)
    } else {
        trim(l)
    }
}

/// The lines of the text a string literal holds between its triple
/// quotes, trimmed.
pub open spec fn doc_lines(s: Seq<char>) -> Seq<Seq<char>> {
    let q = seq!['"', '"', '"'];
    lines(trim(strip_suffixes(strip_prefixes(s, q), q)))
}

/// The indentation, in bytes, that the lines after the first lose: the
/// smallest among those of them that are not blank.
pub open spec fn doc_indent(ls: Seq<Seq<char>>) -> nat {
    match if ls.len() > 0 { min_indent(ls.drop_first()) } else { None } {
        Some(x) => x,
        None => 0,
    }
}

/// Whether `s` starts with three double quotes.
pub open spec fn opens_docstring(s: Seq<char>) -> bool {
    s.len() >= 3 && s.take(3) == seq!['"', '"', '"']
}

/// The docstring a string literal holds: where the literal starts with
/// three double quotes, its text without the quotes, trimmed, with the
/// lines after the first losing the smallest indentation, in bytes, among
/// those of them that are not blank.
pub open spec fn docstring(s: Seq<char>) -> Option<Seq<char>> {
    if opens_docstring(s) {
        let ls = doc_lines(s);
        let m = doc_indent(ls);
        Some(join(Seq::new(ls.len(), |i: int| dedented(ls[i], i, m)), "\n"@))
    } else {
        None
    }
}

/// Whether taking the indentation off the lines of the docstring `s` holds
/// cuts each line it shortens between two characters.
pub open spec fn dedents_cleanly(s: Seq<char>) -> bool {
    let ls = doc_lines(s);
    let m = doc_indent(ls);
    opens_docstring(s) ==> forall|i: int| 1 <= i < ls.len() && width(ls[i]) > m ==> cuts_at(#[trigger] ls[i], m as int)
}

/// How many bytes the UTF-8 encoding of `c` takes.
fn char_width(c: char) -> (r: u128)
    ensures
        r == utf8_width(c),
        1 <= r <= 4,
{
    let u = c as u32;
    if u < 0x80 {
        1
    } else if u < 0x800 {
        2
    } else if u < 0x10000 {
        3
    } else {
        4
    }
}

/// How many bytes the UTF-8 encoding of `l` takes.
fn line_width(l: &[char]) -> (r: u128)
    ensures
        r == width(l@),
{
    let mut acc: u128 = 0;
    let mut i: usize = l.len();
    proof {
        assert(l@.skip(l@.len() as int) =~= Seq::<char>::empty());
    }
    while i > 0
        invariant
            i <= l@.len(),
            width(l@) == width(l@.take(i as int)) + acc,
            acc <= 4 * (l@.len() - i),
        decreases i,
    {
        proof {
            lemma_width_split(l@.take(i as int), (i - 1) as int);
            assert(l@.take(i as int).take(i - 1) =~= l@.take(i - 1));
            assert(l@.take(i as int).skip(i - 1) =~= seq![l@[i - 1]]);
            assert(seq![l@[i - 1]].drop_first() =~= Seq::<char>::empty());
            assert(width(Seq::<char>::empty()) == 0);
            assert(width(seq![l@[i - 1]]) == utf8_width(l@[i - 1]));
        }
        acc = acc + char_width(l[i - 1]);
        i -= 1;
    }
    proof {
        assert(l@.take(0) =~= Seq::<char>::empty());
    }
    acc
}

proof fn lemma_width_split(l: Seq<char>, k: int)
    requires
        0 <= k <= l.len(),
    ensures
        width(l) == width(l.take(k)) + width(l.skip(k)),
    decreases k,
{
    if k > 0 {
        lemma_width_split(l.drop_first(), k - 1);
        assert(l.take(k).drop_first() =~= l.drop_first().take(k - 1));
        assert(l.drop_first().skip(k - 1) =~= l.skip(k));
    } else {
        assert(l.take(0) =~= Seq::<char>::empty());
        assert(l.skip(0) =~= l);
    }
}

/// How many bytes of whitespace `l` starts with.
fn leading_ws_count(l: &[char]) -> (r: u128)
    ensures
        r == leading_ws(l@),
{
    let mut i: usize = 0;
    let mut acc: u128 = 0;
    proof {
        assert(l@.skip(0) =~= l@);
    }
    while i < l.len() && is_whitespace(l[i])
        invariant
            i <= l@.len(),
            acc <= 4 * i,
            leading_ws(l@) == acc + leading_ws(l@.skip(i as int)),
        decreases l@.len() - i,
    {
        proof {
            let t = l@.skip(i as int);
            assert(t.drop_first() =~= l@.skip(i + 1));
        }
        acc = acc + char_width(l[i]);
        i += 1;
    }
    acc
}

/// The smallest indentation among the non-blank lines of `ls` from
/// position `from` on.
fn min_indent_from(ls: &Vec<Vec<char>>, from: usize) -> (r: Option<u128>)
    requires
        from <= ls@.len(),
    ensures
        match r {
            Some(m) => min_indent(ls@.map_values(|p: Vec<char>| p@).skip(from as int)) == Some(m as nat),
            None => min_indent(ls@.map_values(|p: Vec<char>| p@).skip(from as int)) is None,
        },
    decreases ls@.len() - from,
{
    let ghost v = ls@.map_values(|p: Vec<char>| p@);
    if from == ls.len() {
        assert(v.skip(from as int) =~= Seq::<Seq<char>>::empty());
        return None;
    }
    proof {
        assert(v.skip(from as int).drop_first() =~= v.skip(from + 1));
        assert(v.skip(from as int)[0] == ls@[from as int]@);
    }
    let rest = min_indent_from(ls, from + 1);
    let line = &ls[from];
    let t = trim_chars(line.as_slice());
    if t.len() == 0 {
        rest
    } else {
        let k = leading_ws_count(line.as_slice());
        match rest {
            Some(m) => if k < m {
                Some(k)
            } else {
                Some(m)
            },
            None => Some(k),
        }
    }
}

/// Whether a cut `m` bytes into `l` falls between two characters.
fn cuts_between(l: &[char], m: u128) -> (r: bool)
    ensures
        r == cuts_at(l@, m as int),
{
    let mut i: usize = 0;
    let mut left: u128 = m;
    proof {
        assert(l@.skip(0) =~= l@);
    }
    while left > 0 && i < l.len()
        invariant
            i <= l@.len(),
            cuts_at(l@, m as int) == cuts_at(l@.skip(i as int), left as int),
        decreases l@.len() - i,
    {
        proof {
            assert(l@.skip(i as int).drop_first() =~= l@.skip(i + 1));
        }
        let w = char_width(l[i]);
        if w > left {
            proof {
                assert(l@.skip(i + 1).len() == 0 || true);
                lemma_cuts_negative(l@.skip(i + 1), left as int - w as int);
            }
            return false;
        }
        left = left - w;
        i += 1;
    }
    left == 0
}

proof fn lemma_cuts_negative(l: Seq<char>, m: int)
    requires
        m < 0,
    ensures
        !cuts_at(l, m),
{
}

/// `l` without the characters of its first `m` bytes, where that cut falls
/// between two characters.
fn skip_width(l: &[char], m: u128) -> (r: Vec<char>)
    requires
        cuts_at(l@, m as int),
    ensures
        r@ == skip_bytes(l@, m as int),
{
    let mut i: usize = 0;
    let mut left: u128 = m;
    proof {
        assert(l@.skip(0) =~= l@);
    }
    while left > 0
        invariant
            i <= l@.len(),
            cuts_at(l@.skip(i as int), left as int),
            skip_bytes(l@, m as int) == skip_bytes(l@.skip(i as int), left as int),
        decreases l@.len() - i,
    {
        proof {
            assert(l@.skip(i as int).len() > 0);
            assert(l@.skip(i as int)[0] == l@[i as int]);
            assert(l@.skip(i as int).drop_first() =~= l@.skip(i + 1));
            if utf8_width(l@[i as int]) > left {
                lemma_cuts_negative(l@.skip(i + 1), left - utf8_width(l@[i as int]));
            }
        }
        let w = char_width(l[i]);
        left = left - w;
        i += 1;
    }
    proof {
        assert(l@.subrange(i as int, l@.len() as int) =~= l@.skip(i as int));
    }
    slice_chars(l, i, l.len())
}

/// The lines of the docstring `possible_docs` holds, and the indentation
/// they lose, where it holds one.
fn docstring_lines(possible_docs: &str) -> (r: Option<(Vec<Vec<char>>, u128)>)
    ensures
        match r {
            Some((ls, m)) => opens_docstring(possible_docs@) && ls@.map_values(|p: Vec<char>| p@) == doc_lines(
                possible_docs@,
            ) && m == doc_indent(doc_lines(possible_docs@)),
            None => !opens_docstring(possible_docs@),
        },
{
    let s = chars_of(possible_docs);
    let q = chars_of("\"\"\"");
    proof {
        reveal_strlit("\"\"\"");
        assert(q@ =~= seq!['"', '"', '"']);
    }
    if !(s.len() >= 3 && s[0] == '"' && s[1] == '"' && s[2] == '"') {
        proof {
            if s@.len() >= 3 && s@.take(3) == q@ {
                assert(s@.take(3)[0] == '"');
                assert(s@.take(3)[1] == '"');
                assert(s@.take(3)[2] == '"');
            }
        }
        return None;
    }
    assert(s@.take(3) =~= q@);
    let a = strip_prefixes_chars(s.as_slice(), q.as_slice());
    let b = strip_suffixes_chars(a.as_slice(), q.as_slice());
    let trimmed = trim_chars(b.as_slice());
    let ls = lines_chars(trimmed.as_slice());
    let ghost lv = ls@.map_values(|p: Vec<char>| p@);
    let m: u128 = if ls.len() > 0 {
        match min_indent_from(&ls, 1) {
            Some(x) => x,
            None => 0,
        }
    } else {
        0
    };
    proof {
        if ls@.len() > 0 {
            assert(lv.skip(1) =~= lv.drop_first());
        }
    }
    Some((ls, m))
}

/// Whether taking the indentation off the lines of the docstring
/// `possible_docs` holds cuts each line it shortens between two
/// characters, as `dedents_cleanly` says.
pub fn docstring_dedents_cleanly(possible_docs: &str) -> (r: bool)
    ensures
        r == dedents_cleanly(possible_docs@),
{
    match docstring_lines(possible_docs) {
        None => true,
        Some((ls, m)) => {
            let ghost lv = ls@.map_values(|p: Vec<char>| p@);
            let mut i: usize = 1;
            while i < ls.len()
                invariant
                    1 <= i,
                    lv == ls@.map_values(|p: Vec<char>| p@),
                    lv == doc_lines(possible_docs@),
                    m == doc_indent(lv),
                    opens_docstring(possible_docs@),
                    forall|j: int| 1 <= j < i && j < lv.len() && width(lv[j]) > m ==> cuts_at(#[trigger] lv[j], m as int),
                decreases ls@.len() - i,
            {
                let line = ls[i].as_slice();
                if line_width(line) > m && !cuts_between(line, m) {
                    assert(lv[i as int] == line@);
                    assert(!(width(lv[i as int]) > m ==> cuts_at(lv[i as int], m as int)));
                    return false;
                }
                assert(lv[i as int] == line@);
                i += 1;
            }
            true
        },
    }
}

/// Parses a string literal that may be a docstring, and returns the
/// docstring it holds, as `docstring` says. The indentation is counted in
/// bytes, and taking it off must cut each line it shortens between two
/// characters.
pub fn process_docs(possible_docs: &str) -> (r: Option<String>)
    requires
        dedents_cleanly(possible_docs@),
    ensures
        match docstring(possible_docs@) {
            Some(d) => r matches Some(s) && s@ == d,
            None => r is None,
        },
{
    let (ls, m) = match docstring_lines(possible_docs) {
        Some(p) => p,
        None => return None,
    };
    let ghost lv = ls@.map_values(|p: Vec<char>| p@);
    let mut out: Vec<Vec<char>> = Vec::new();
    let mut i: usize = 0;
    while i < ls.len()
        invariant
            i <= ls@.len(),
            lv == ls@.map_values(|p: Vec<char>| p@),
            lv == doc_lines(possible_docs@),
            m == doc_indent(lv),
            dedents_cleanly(possible_docs@),
            opens_docstring(possible_docs@),
            out@.len() == i,
            forall|j: int| 0 <= j < i ==> (#[trigger] out@[j])@ == dedented(lv[j], j, m as nat),
        decreases ls@.len() - i,
    {
        let line = &ls[i];
        assert(lv[i as int] == line@);
        let shown = if i == 0 {
            assert(line@.subrange(0, line@.len() as int) =~= line@);
            slice_chars(line.as_slice(), 0, line.len())
        } else if line_width(line.as_slice()) > m {
            assert(cuts_at(lv[i as int], m as int));
            skip_width(line.as_slice(), m)
        } else {
            trim_chars(line.as_slice())
        };
        out.push(shown);
        i += 1;
    }
    let nl = chars_of("\n");
    let joined = join_chars(&out, nl.as_slice());
    proof {
        assert(out@.map_values(|p: Vec<char>| p@) =~= Seq::new(lv.len(), |j: int| dedented(lv[j], j, m as nat)));
    }
    Some(string_of(joined.as_slice()))
}

} // verus!
