use vstd::prelude::*;

use crate::text::{char_views, has_prefix, slice, starts_with, trim, trimmed};

verus! {

/// A line that ended with a line feed, without a carriage return before it.
pub open spec fn strip_cr(seg: Seq<char>) -> Seq<char> {
    if seg.len() > 0 && seg.last() == '\r' {
        seg.drop_last()
    } else {
        seg
    }
}

/// Splitting `s` at each line feed: finished lines and the one in progress.
pub open spec fn line_state(s: Seq<char>) -> (Seq<Seq<char>>, Seq<char>)
    decreases s.len(),
{
    if s.len() == 0 {
        (Seq::empty(), Seq::empty())
    } else {
        let (done, cur) = line_state(s.drop_last());
        if s.last() == '\n' {
            (done.push(strip_cr(cur)), Seq::empty())
        } else {
            (done, cur.push(s.last()))
        }
    }
}

/// The lines of `s` as `str::lines` gives them: split at `\n` or `\r\n`,
/// with no empty line after a final line break.
pub open spec fn lines(s: Seq<char>) -> Seq<Seq<char>> {
    let (done, cur) = line_state(s);
    if cur.len() == 0 {
        done
    } else {
        done.push(cur)
    }
}

fn strip_cr_of(cur: Vec<char>) -> (r: Vec<char>)
    ensures
        r@ == strip_cr(cur@),
{
    let mut cur = cur;
    if cur.len() > 0 && cur[cur.len() - 1] == '\r' {
        cur.pop();
    }
    cur
}

/// The lines of `s`.
pub fn split_lines(s: &Vec<char>) -> (r: Vec<Vec<char>>)
    ensures
        char_views(r@) == lines(s@),
{
    let mut out: Vec<Vec<char>> = Vec::new();
    let mut cur: Vec<char> = Vec::new();
    let mut i: usize = 0;
    assert(s@.subrange(0, 0) =~= Seq::<char>::empty());
    while i < s.len()
        invariant
            i <= s@.len(),
            char_views(out@) == line_state(s@.subrange(0, i as int)).0,
            cur@ == line_state(s@.subrange(0, i as int)).1,
        decreases s@.len() - i,
    {
        assert(s@.subrange(0, i + 1).drop_last() =~= s@.subrange(0, i as int));
        if s[i] == '\n' {
            let mut done_line: Vec<char> = Vec::new();
            std::mem::swap(&mut done_line, &mut cur);
            let line = strip_cr_of(done_line);
            let ghost before = out@;
            out.push(line);
            assert(char_views(out@) =~= char_views(before).push(line@));
        } else {
            cur.push(s[i]);
        }
        i += 1;
    }
    assert(s@.subrange(0, s@.len() as int) =~= s@);
    if cur.len() > 0 {
        let ghost before = out@;
        let ghost c = cur@;
        out.push(cur);
        assert(char_views(out@) =~= char_views(before).push(c));
    }
    out
}

/// The value after `prefix` on the first line that, trimmed, starts with it;
/// the value is trimmed too.
pub open spec fn prefixed_value(ls: Seq<Seq<char>>, prefix: Seq<char>) -> Option<Seq<char>>
    decreases ls.len(),
{
    if ls.len() == 0 {
        None
    } else if starts_with(trim(ls[0]), prefix) {
        Some(trim(trim(ls[0]).subrange(prefix.len() as int, trim(ls[0]).len() as int)))
    } else {
        prefixed_value(ls.drop_first(), prefix)
    }
}

/// The value after `prefix` on the first line of `text` that, trimmed,
/// starts with it.
pub fn prefixed_value_of(text: &Vec<char>, prefix: &Vec<char>) -> (r: Option<Vec<char>>)
    ensures
        r is None <==> prefixed_value(lines(text@), prefix@) is None,
        r matches Some(v) ==> prefixed_value(lines(text@), prefix@) == Some(v@),
{
    let ls = split_lines(text);
    let ghost all = char_views(ls@);
    let mut i: usize = 0;
    assert(all.subrange(0, all.len() as int) =~= all);
    while i < ls.len()
        invariant
            i <= ls@.len(),
            all == char_views(ls@),
            all == lines(text@),
            prefixed_value(all, prefix@) == prefixed_value(all.subrange(i as int, all.len() as int), prefix@),
        decreases ls@.len() - i,
    {
        let t = trimmed(&ls[i]);
        let ghost rest = all.subrange(i as int, all.len() as int);
        assert(rest[0] == ls@[i as int]@);
        assert(t@ == trim(rest[0]));
        if has_prefix(&t, prefix) {
            let v = slice(&t, prefix.len(), t.len());
            let r = trimmed(&v);
            return Some(r);
        }
        assert(rest.drop_first() =~= all.subrange(i + 1, all.len() as int));
        i += 1;
    }
    assert(all.subrange(i as int, all.len() as int) =~= Seq::<Seq<char>>::empty());
    None
}

/// Splitting `s` at each `sep`: finished pieces and the one in progress.
pub open spec fn split_state_on(s: Seq<char>, sep: char) -> (Seq<Seq<char>>, Seq<char>)
    decreases s.len(),
{
    if s.len() == 0 {
        (Seq::empty(), Seq::empty())
    } else {
        let (done, cur) = split_state_on(s.drop_last(), sep);
        if s.last() == sep {
            (done.push(cur), Seq::empty())
        } else {
            (done, cur.push(s.last()))
        }
    }
}

/// The pieces of `s` between occurrences of `sep`, as `str::split` gives them.
pub open spec fn split_on(s: Seq<char>, sep: char) -> Seq<Seq<char>> {
    split_state_on(s, sep).0.push(split_state_on(s, sep).1)
}

/// The pieces of `s` between occurrences of `sep`.
pub fn split_chars(s: &Vec<char>, sep: char) -> (r: Vec<Vec<char>>)
    ensures
        char_views(r@) == split_on(s@, sep),
{
    let mut out: Vec<Vec<char>> = Vec::new();
    let mut cur: Vec<char> = Vec::new();
    let mut i: usize = 0;
    assert(s@.subrange(0, 0) =~= Seq::<char>::empty());
    while i < s.len()
        invariant
            i <= s@.len(),
            char_views(out@) == split_state_on(s@.subrange(0, i as int), sep).0,
            cur@ == split_state_on(s@.subrange(0, i as int), sep).1,
        decreases s@.len() - i,
    {
        assert(s@.subrange(0, i + 1).drop_last() =~= s@.subrange(0, i as int));
        if s[i] == sep {
            let mut piece: Vec<char> = Vec::new();
            std::mem::swap(&mut piece, &mut cur);
            let ghost before = out@;
            let ghost pv = piece@;
            out.push(piece);
            assert(char_views(out@) =~= char_views(before).push(pv));
        } else {
            cur.push(s[i]);
        }
        i += 1;
    }
    assert(s@.subrange(0, s@.len() as int) =~= s@);
    let ghost before = out@;
    let ghost c = cur@;
    out.push(cur);
    assert(char_views(out@) =~= char_views(before).push(c));
    out
}

} // verus!
