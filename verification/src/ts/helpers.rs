//! Documentation comments, as written in the source and as shown.
use vstd::prelude::*;
use crate::text::{
    chars_of, join, join_chars, lines, lines_chars, string_of, strip_prefixes,
    strip_prefixes_chars, strip_suffixes, strip_suffixes_chars, trim, trim_chars,
};

verus! {

broadcast use vstd::seq_lib::group_seq_properties;

/// One line of a comment as shown: trimmed, without a leading `"* "`,
/// then without a leading `'*'`.
pub open spec fn comment_line(l: Seq<char>) -> Seq<char> {
    strip_prefixes(strip_prefixes(trim(l), "* "@), "*"@)
}

/// A comment without its delimiters: the trimmed comment without a leading
/// `/**` and a trailing `*/`, each line shown as `comment_line` says,
/// joined with newlines and trimmed.
pub open spec fn comment_text(comment: Seq<char>) -> Seq<char> {
    let body = strip_suffixes(strip_prefixes(trim(comment), "/**"@), "*/"@);
    trim(join(lines(body).map_values(|l: Seq<char>| comment_line(l)), "\n"@))
}

/// Parses the comment and returns it without the comment delimiters.
pub fn process_comment(comment: &str) -> (r: String)
    ensures
        r@ == comment_text(comment@),
{
    let c = chars_of(comment);
    let t = trim_chars(c.as_slice());
    let open = chars_of("/**");
    let close = chars_of("*/");
    let star_space = chars_of("* ");
    let star = chars_of("*");
    proof {
        reveal_strlit("/**");
        reveal_strlit("*/");
        reveal_strlit("* ");
        reveal_strlit("*");
    }
    let a = strip_prefixes_chars(t.as_slice(), open.as_slice());
    let body = strip_suffixes_chars(a.as_slice(), close.as_slice());
    let ls = lines_chars(body.as_slice());
    let mut shown: Vec<Vec<char>> = Vec::new();
    let mut i: usize = 0;
    while i < ls.len()
        invariant
            i <= ls@.len(),
            star_space@ == "* "@,
            star@ == "*"@,
            star_space@.len() == 2,
            star@.len() == 1,
            shown@.map_values(|p: Vec<char>| p@) == ls@.map_values(|p: Vec<char>| p@).take(i as int).map_values(
                |l: Seq<char>| comment_line(l),
            ),
        decreases ls@.len() - i,
    {
        let l1 = trim_chars(ls[i].as_slice());
        let l2 = strip_prefixes_chars(l1.as_slice(), star_space.as_slice());
        let l3 = strip_prefixes_chars(l2.as_slice(), star.as_slice());
        let ghost before = shown@;
        shown.push(l3);
        proof {
            let lv = ls@.map_values(|p: Vec<char>| p@);
            assert(lv.take(i + 1) =~= lv.take(i as int).push(lv[i as int]));
            assert(shown@.map_values(|p: Vec<char>| p@) =~= before.map_values(|p: Vec<char>| p@).push(l3@));
            assert(lv.take(i + 1).map_values(|l: Seq<char>| comment_line(l)) =~= lv.take(i as int).map_values(
                |l: Seq<char>| comment_line(l),
            ).push(comment_line(lv[i as int])));
        }
        i += 1;
    }
    proof {
        let lv = ls@.map_values(|p: Vec<char>| p@);
        assert(lv.take(ls@.len() as int) =~= lv);
    }
    let nl = chars_of("\n");
    let joined = join_chars(&shown, nl.as_slice());
    let out = trim_chars(joined.as_slice());
    string_of(out.as_slice())
}

} // verus!
