//! Strings seen as sequences of characters: splitting into lines and joining them back.
use vstd::prelude::*;

verus! {

/// Drops one carriage return that ends a line.
pub open spec fn strip_cr(line: Seq<char>) -> Seq<char> {
    if line.len() > 0 && line.last() == '\r' {
        line.drop_last()
    } else {
        line
    }
}

/// Reading `s` from the left: the lines completed by a `'\n'` so far, and
/// the characters read since the last `'\n'`.
pub open spec fn scan_lines(s: Seq<char>) -> (Seq<Seq<char>>, Seq<char>)
    decreases s.len(),
{
    if s.len() == 0 {
        (Seq::empty(), Seq::empty())
    } else {
        let (done, cur) = scan_lines(s.drop_last());
        if s.last() == '\n' {
            (done.push(strip_cr(cur)), Seq::empty())
        } else {
            (done, cur.push(s.last()))
        }
    }
}

/// The lines of `s` as `str::lines` gives them: split at `'\n'` or `"\r\n"`,
/// with a final line ending optional.
pub open spec fn str_lines(s: Seq<char>) -> Seq<Seq<char>> {
    let (done, cur) = scan_lines(s);
    if cur.len() == 0 {
        done
    } else {
        done.push(cur)
    }
}

/// Lines joined with `'\n'` between each two of them.
pub open spec fn join_lines(lines: Seq<Seq<char>>) -> Seq<char>
    decreases lines.len(),
{
    if lines.len() == 0 {
        Seq::empty()
    } else if lines.len() == 1 {
        lines[0]
    } else {
        join_lines(lines.drop_last()) + seq!['\n'] + lines.last()
    }
}

/// The contents of vectors of characters.
pub open spec fn char_lines(rows: Seq<Vec<char>>) -> Seq<Seq<char>> {
    rows.map_values(|l: Vec<char>| l@)
}

/// Calls `String::push`: appends one character.
#[verifier::external_body]
pub(crate) fn push_char(s: &mut String, c: char)
    ensures
        final(s)@ == old(s)@.push(c),
{
    s.push(c);
}

/// The lines of `text`, as `str::lines` splits them.
pub fn split_lines(text: &str) -> (lines: Vec<Vec<char>>)
    ensures
        char_lines(lines@) == str_lines(text@),
{
    let mut done: Vec<Vec<char>> = Vec::new();
    let mut cur: Vec<char> = Vec::new();
    let ghost s = text@;
    for c in it: text.chars()
        invariant
            it.seq() == s,
            ({
                let (d, k) = scan_lines(s.take(it.index() as int));
                char_lines(done@) == d && cur@ == k
            }),
    {
        let ghost before = s.take(it.index() as int);
        assert(s.take(it.index() + 1).drop_last() =~= before);
        if c == '\n' {
            if cur.len() > 0 && cur[cur.len() - 1] == '\r' {
                cur.pop();
            }
            let line = cur;
            cur = Vec::new();
            done.push(line);
            assert(char_lines(done@) =~= scan_lines(s.take(it.index() + 1)).0);
        } else {
            cur.push(c);
        }
    }
    assert(s.take(s.len() as int) =~= s);
    if cur.len() > 0 {
        done.push(cur);
        assert(char_lines(done@) =~= str_lines(s));
    }
    done
}

} // verus!
