use vstd::prelude::*;

use crate::text::{append_chars, chars_of, string_of};

verus! {

/// Why a data-relative path was refused.
#[derive(Clone, Copy, Debug, PartialEq, Eq, Structural)]
pub enum PathError {
    /// The path starts at the root.
    Absolute,
    /// The path has a `..` segment.
    ParentSegment,
    /// No segment is left once empty and `.` segments are dropped.
    Empty,
}

/// Splitting `s` at each `/`: the finished segments and the one in progress.
pub open spec fn split_state(s: Seq<char>) -> (Seq<Seq<char>>, Seq<char>)
    decreases s.len(),
{
    if s.len() == 0 {
        (Seq::empty(), Seq::empty())
    } else {
        let (done, cur) = split_state(s.drop_last());
        if s.last() == '/' {
            (done.push(cur), Seq::empty())
        } else {
            (done, cur.push(s.last()))
        }
    }
}

/// The pieces of `s` between slashes.
pub open spec fn segments(s: Seq<char>) -> Seq<Seq<char>> {
    split_state(s).0.push(split_state(s).1)
}

/// A segment that names something: neither empty nor `.`.
pub open spec fn names_something(seg: Seq<char>) -> bool {
    seg.len() > 0 && seg != "."@
}

/// Pieces joined with `/`.
pub open spec fn joined(parts: Seq<Seq<char>>) -> Seq<char>
    decreases parts.len(),
{
    if parts.len() == 0 {
        Seq::empty()
    } else if parts.len() == 1 {
        parts[0]
    } else {
        joined(parts.drop_last()) + "/"@ + parts.last()
    }
}

pub open spec fn sanitized(s: Seq<char>) -> Result<Seq<char>, PathError> {
    let parts = segments(s).filter(|g: Seq<char>| names_something(g));
    if s.len() > 0 && s[0] == '/' {
        Err(PathError::Absolute)
    } else if segments(s).contains(".."@) {
        Err(PathError::ParentSegment)
    } else if parts.len() == 0 {
        Err(PathError::Empty)
    } else {
        Ok(joined(parts))
    }
}

proof fn lemma_filter_push(d: Seq<Seq<char>>, c: Seq<char>)
    ensures
        d.push(c).filter(|g: Seq<char>| names_something(g)) == if names_something(c) {
            d.filter(|g: Seq<char>| names_something(g)).push(c)
        } else {
            d.filter(|g: Seq<char>| names_something(g))
        },
{
    reveal_with_fuel(Seq::filter, 1);
    assert(d.push(c).drop_last() =~= d);
}

proof fn lemma_contains_push(d: Seq<Seq<char>>, c: Seq<char>, x: Seq<char>)
    ensures
        d.push(c).contains(x) <==> (d.contains(x) || c == x),
{
    if d.push(c).contains(x) {
        let k = choose|k: int| 0 <= k < d.push(c).len() && d.push(c)[k] == x;
        if k < d.len() {
            assert(d[k] == x);
        }
    }
    if d.contains(x) {
        let k = choose|k: int| 0 <= k < d.len() && d[k] == x;
        assert(d.push(c)[k] == x);
    }
    if c == x {
        assert(d.push(c)[d.len() as int] == x);
    }
}

/// Adds a finished segment to the path built so far.
fn settle_segment(
    out: &mut Vec<char>,
    count: &mut usize,
    parent: &mut bool,
    cur: &Vec<char>,
    Ghost(done): Ghost<Seq<Seq<char>>>,
)
    requires
        old(out)@ == joined(done.filter(|g: Seq<char>| names_something(g))),
        *old(count) as nat == done.filter(|g: Seq<char>| names_something(g)).len(),
        *old(parent) == done.contains(".."@),
        done.len() < usize::MAX,
        done.filter(|g: Seq<char>| names_something(g)).len() <= done.len(),
    ensures
        final(out)@ == joined(done.push(cur@).filter(|g: Seq<char>| names_something(g))),
        *final(count) as nat == done.push(cur@).filter(|g: Seq<char>| names_something(g)).len(),
        *final(parent) == done.push(cur@).contains(".."@),
{
    proof {
        reveal_strlit("..");
        reveal_strlit(".");
        lemma_filter_push(done, cur@);
        lemma_contains_push(done, cur@, ".."@);
    }
    let is_parent = cur.len() == 2 && cur[0] == '.' && cur[1] == '.';
    let is_dot = cur.len() == 1 && cur[0] == '.';
    assert(is_parent == (cur@ == ".."@)) by {
        if cur@.len() == 2 && cur@[0] == '.' && cur@[1] == '.' {
            assert(cur@ =~= ".."@);
        }
    }
    assert(is_dot == (cur@ == "."@)) by {
        if cur@.len() == 1 && cur@[0] == '.' {
            assert(cur@ =~= "."@);
        }
    }
    if is_parent {
        *parent = true;
    }
    if cur.len() > 0 && !is_dot {
        let ghost parts = done.filter(|g: Seq<char>| names_something(g));
        if *count > 0 {
            out.push('/');
        }
        append_chars(out, cur);
        *count = *count + 1;
        proof {
            let np = parts.push(cur@);
            assert(np.drop_last() =~= parts);
            if parts.len() > 0 {
                assert(joined(np) == joined(parts) + "/"@ + cur@);
                assert(final(out)@ =~= joined(parts) + "/"@ + cur@) by {
                    reveal_strlit("/");
                }
            } else {
                assert(joined(np) == np[0]);
                assert(final(out)@ =~= cur@);
            }
        }
    }
}

/// Normalises a path relative to the data directory: refuses one that is
/// absolute or has a `..` segment, drops empty and `.` segments, and refuses
/// one where nothing is left.
pub fn sanitize_data_relative_path(path: &str) -> (r: Result<String, PathError>)
    ensures
        r matches Ok(p) ==> sanitized(path@) == Ok::<Seq<char>, PathError>(p@),
        r matches Err(e) ==> sanitized(path@) == Err::<Seq<char>, PathError>(e),
{
    let s = chars_of(path);
    if s.len() > 0 && s[0] == '/' {
        return Err(PathError::Absolute);
    }
    let mut out: Vec<char> = Vec::new();
    let mut count: usize = 0;
    let mut parent = false;
    let mut cur: Vec<char> = Vec::new();
    let mut i: usize = 0;
    proof {
        reveal_with_fuel(Seq::filter, 1);
        assert(s@.subrange(0, 0) =~= Seq::<char>::empty());
    }
    while i < s.len()
        invariant
            i <= s@.len(),
            split_state(s@.subrange(0, i as int)).1 == cur@,
            out@ == joined(split_state(s@.subrange(0, i as int)).0.filter(|g: Seq<char>| names_something(g))),
            count as nat == split_state(s@.subrange(0, i as int)).0.filter(|g: Seq<char>| names_something(g)).len(),
            parent == split_state(s@.subrange(0, i as int)).0.contains(".."@),
            split_state(s@.subrange(0, i as int)).0.len() <= i,
            i > 0 ==> split_state(s@.subrange(0, i as int)).0.len() < i,
            s@.len() > 0 ==> s@[0] != '/',
        decreases s@.len() - i,
    {
        let ghost pre = s@.subrange(0, i as int);
        let ghost done = split_state(pre).0;
        assert(s@.subrange(0, i + 1).drop_last() =~= pre);
        if s[i] == '/' {
            proof {
                done.filter_lemma(|g: Seq<char>| names_something(g));
            }
            settle_segment(&mut out, &mut count, &mut parent, &cur, Ghost(done));
            cur = Vec::new();
        } else {
            cur.push(s[i]);
        }
        i += 1;
    }
    assert(s@.subrange(0, s@.len() as int) =~= s@);
    let ghost done = split_state(s@).0;
    assert(done.len() < usize::MAX) by {
        if s@.len() == 0 {
            assert(s@ =~= Seq::<char>::empty());
        }
    }
    proof {
        done.filter_lemma(|g: Seq<char>| names_something(g));
    }
    settle_segment(&mut out, &mut count, &mut parent, &cur, Ghost(done));
    if parent {
        return Err(PathError::ParentSegment);
    }
    if count == 0 {
        return Err(PathError::Empty);
    }
    Ok(string_of(&out))
}

} // verus!
