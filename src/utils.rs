use vstd::prelude::*;
use vstd::std_specs::iter::IteratorSpec;

verus! {

/// Whether `c` has the Unicode `White_Space` property, which is what
/// `char::is_whitespace` and `str::trim` go by.
pub open spec fn is_white_space(c: char) -> bool {
    let u = c as u32;
    (0x09 <= u <= 0x0d) || u == 0x20 || u == 0x85 || u == 0xa0 || u == 0x1680 || (0x2000 <= u
        <= 0x200a) || u == 0x2028 || u == 0x2029 || u == 0x202f || u == 0x205f || u == 0x3000
}

/// A line is a comment when, after its leading white space, it begins with `//`.
pub open spec fn is_comment_line(l: Seq<char>) -> bool {
    exists|k: int| #[trigger] comment_starts_at(l, k)
}

/// Everything before `k` is white space, and `//` stands at `k`.
pub open spec fn comment_starts_at(l: Seq<char>, k: int) -> bool {
    0 <= k && k + 1 < l.len() && (forall|i: int| 0 <= i < k ==> is_white_space(#[trigger] l[i]))
        && l[k] == '/' && l[k + 1] == '/'
}

/// Drops one `\r` from the end of a line, if it is there.
pub open spec fn strip_cr(l: Seq<char>) -> Seq<char> {
    if l.len() > 0 && l.last() == '\r' {
        l.drop_last()
    } else {
        l
    }
}

/// The lines of `s`, where `cur` is the part of the current line read so far:
/// a line ends at `\n` (with one `\r` before it dropped), and a last line
/// without a line ending counts only when it is not empty.
pub open spec fn lines_from(s: Seq<char>, cur: Seq<char>) -> Seq<Seq<char>>
    decreases s.len(),
{
    if s.len() == 0 {
        if cur.len() == 0 {
            Seq::empty()
        } else {
            seq![cur]
        }
    } else if s[0] == '\n' {
        seq![strip_cr(cur)] + lines_from(s.drop_first(), Seq::empty())
    } else {
        lines_from(s.drop_first(), cur.push(s[0]))
    }
}

/// The lines of a text, as `str::lines` yields them.
pub open spec fn lines_of(s: Seq<char>) -> Seq<Seq<char>> {
    lines_from(s, Seq::empty())
}

/// The lines joined with `\n` between each two of them.
pub open spec fn join_lines(ls: Seq<Seq<char>>) -> Seq<char>
    decreases ls.len(),
{
    if ls.len() == 0 {
        Seq::empty()
    } else if ls.len() == 1 {
        ls[0]
    } else {
        join_lines(ls.drop_last()) + seq!['\n'] + ls.last()
    }
}

/// The text with its comment lines taken out and its line endings made `\n`.
pub open spec fn without_comments(s: Seq<char>) -> Seq<char> {
    join_lines(lines_of(s).filter(|l: Seq<char>| !is_comment_line(l)))
}

/// Relies on `str::lines`: the lines of `s`, each without its line ending.
#[verifier::external_body]
fn split_lines(s: &str) -> (r: Vec<String>)
    ensures
        r@.map_values(|l: String| l@) == lines_of(s@),
{
    s.lines().map(|l| l.to_string()).collect()
}

/// The characters of `s` in order.
fn chars_of(s: &str) -> (r: Vec<char>)
    ensures
        r@ == s@,
{
    broadcast use vstd::string::axiom_spec_iter, vstd::string::next_postcondition;

    let mut it = s.chars();
    let mut r: Vec<char> = Vec::new();
    loop
        invariant
            it.obeys_prophetic_iter_laws(),
            r@ + it.remaining() == s@,
        decreases s@.len() - r@.len(),
    {
        match it.next() {
            Some(c) => {
                r.push(c);
            },
            None => {
                return r;
            },
        }
    }
}

/// Relies on `[String]::join`: the lines with `\n` between each two of them.
#[verifier::external_body]
fn join_with_newline(ls: &Vec<String>) -> (r: String)
    ensures
        r@ == join_lines(ls@.map_values(|l: String| l@)),
{
    ls.join("\n")
}

/// Whether `c` is white space, as `char::is_whitespace` says.
pub fn is_white_space_char(c: char) -> (r: bool)
    ensures
        r == is_white_space(c),
{
    let u = c as u32;
    (0x09 <= u && u <= 0x0d) || u == 0x20 || u == 0x85 || u == 0xa0 || u == 0x1680 || (0x2000
        <= u && u <= 0x200a) || u == 0x2028 || u == 0x2029 || u == 0x202f || u == 0x205f || u
        == 0x3000
}

/// Whether the line, once its leading white space is trimmed, starts with `//`.
pub fn is_comment(line: &str) -> (r: bool)
    ensures
        r == is_comment_line(line@),
{
    let cs = chars_of(line);
    let n = cs.len();
    let mut k: usize = 0;
    while k < n && is_white_space_char(cs[k])
        invariant
            k <= n,
            n == cs@.len(),
            cs@ == line@,
            forall|i: int| 0 <= i < k ==> is_white_space(#[trigger] cs@[i]),
        decreases n - k,
    {
        k = k + 1;
    }
    let r = k < n && n - k > 1 && cs[k] == '/' && cs[k + 1] == '/';
    proof {
        if r {
            assert(comment_starts_at(line@, k as int));
        } else if is_comment_line(line@) {
            let j = choose|j: int| comment_starts_at(line@, j);
            if j < k {
                assert(is_white_space(cs@[j]));
            } else if j > k {
                assert(is_white_space(line@[k as int]));
            }
        }
    }
    r
}

/// Takes out the lines that are comments (`//` after any leading white
/// space) and joins the rest with `\n`.
pub fn remove_comments(content: &str) -> (r: String)
    ensures
        r@ == without_comments(content@),
{
    let lines = split_lines(content);
    let ghost all = lines@.map_values(|l: String| l@);
    let mut kept: Vec<String> = Vec::new();
    let mut i: usize = 0;
    while i < lines.len()
        invariant
            i <= lines@.len(),
            all == lines@.map_values(|l: String| l@),
            kept@.map_values(|l: String| l@) == all.take(i as int).filter(
                |l: Seq<char>| !is_comment_line(l),
            ),
        decreases lines@.len() - i,
    {
        let ghost before = kept@;
        let comment = is_comment(lines[i].as_str());
        proof {
            assert(all.take(i + 1) == all.take(i as int).push(all[i as int]));
            all.take(i as int).lemma_filter_push(all[i as int], |l: Seq<char>| !is_comment_line(l));
        }
        if !comment {
            let l = lines[i].clone();
            kept.push(l);
            assert(kept@.map_values(|l: String| l@) == before.map_values(|l: String| l@).push(
                all[i as int],
            ));
        }
        i = i + 1;
    }
    assert(all.take(lines@.len() as int) == all);
    join_with_newline(&kept)
}

} // verus!
