use vstd::prelude::*;

use crate::memory::relative_to;
use crate::text::{char_views, chars_of, texts, eq_ignore_ascii_case, eq_ignore_ascii_case_chars, string_of};
use crate::timestamp::Timestamp;

verus! {

/// `a` comes strictly before `b` in code-point order, which is the byte
/// order of their UTF-8 encodings and so the order of `String`.
pub open spec fn text_less(a: Seq<char>, b: Seq<char>) -> bool
    decreases a.len(),
{
    if b.len() == 0 {
        false
    } else if a.len() == 0 {
        true
    } else if a[0] != b[0] {
        a[0] < b[0]
    } else {
        text_less(a.drop_first(), b.drop_first())
    }
}

fn text_less_of(a: &Vec<char>, b: &Vec<char>) -> (r: bool)
    ensures
        r == text_less(a@, b@),
{
    let mut i: usize = 0;
    proof {
        assert(a@.subrange(0, a@.len() as int) =~= a@);
        assert(b@.subrange(0, b@.len() as int) =~= b@);
    }
    while i < a.len() && i < b.len() && a[i] == b[i]
        invariant
            i <= a@.len(),
            i <= b@.len(),
            text_less(a@, b@) == text_less(
                a@.subrange(i as int, a@.len() as int),
                b@.subrange(i as int, b@.len() as int),
            ),
        decreases a@.len() - i,
    {
        proof {
            let sa = a@.subrange(i as int, a@.len() as int);
            let sb = b@.subrange(i as int, b@.len() as int);
            assert(sa.drop_first() =~= a@.subrange(i + 1, a@.len() as int));
            assert(sb.drop_first() =~= b@.subrange(i + 1, b@.len() as int));
        }
        i += 1;
    }
    if i == b.len() {
        false
    } else if i == a.len() {
        true
    } else {
        a[i] < b[i]
    }
}

/// Where `x` goes in the ordered list `t`: before the first text it
/// precedes, after the texts equal to it.
pub open spec fn text_slot(t: Seq<Seq<char>>, x: Seq<char>) -> nat
    decreases t.len(),
{
    if t.len() == 0 || text_less(x, t[0]) {
        0
    } else {
        1 + text_slot(t.drop_first(), x)
    }
}

/// `s` in ascending code-point order.
pub open spec fn sorted_texts(s: Seq<Seq<char>>) -> Seq<Seq<char>>
    decreases s.len(),
{
    if s.len() == 0 {
        s
    } else {
        let t = sorted_texts(s.drop_last());
        t.insert(text_slot(t, s.last()) as int, s.last())
    }
}

/// The files under the data directory, relative to it, in order.
pub open spec fn tree_of(data_dir: Seq<char>, files: Seq<Seq<char>>) -> Seq<Seq<char>> {
    sorted_texts(
        files.filter(|f: Seq<char>| relative_to(data_dir, f) is Some).map_values(
            |f: Seq<char>| relative_to(data_dir, f)->0,
        ),
    )
}

proof fn lemma_text_slot(t: Seq<Seq<char>>, x: Seq<char>, j: int)
    requires
        0 <= j <= t.len(),
        forall|k: int| 0 <= k < j ==> !text_less(x, #[trigger] t[k]),
        j == t.len() || text_less(x, t[j]),
    ensures
        text_slot(t, x) == j,
    decreases j,
{
    if j > 0 {
        assert(!text_less(x, t[0]));
        lemma_text_slot(t.drop_first(), x, j - 1);
    }
}

/// The Markdown files found under `data_dir`, relative to it, sorted; files
/// outside it are left out.
pub fn list_markdown_tree(data_dir: &str, files: &Vec<String>) -> (r: Vec<String>)
    ensures
        texts(r@) == tree_of(data_dir@, texts(files@)),
{
    let ghost keep = |f: Seq<char>| relative_to(data_dir@, f) is Some;
    let ghost rel = |f: Seq<char>| relative_to(data_dir@, f)->0;
    let mut out: Vec<Vec<char>> = Vec::new();
    let mut i: usize = 0;
    proof {
        reveal_with_fuel(Seq::filter, 1);
        assert(texts(files@).take(0) =~= Seq::<Seq<char>>::empty());
    }
    while i < files.len()
        invariant
            i <= files@.len(),
            keep == (|f: Seq<char>| relative_to(data_dir@, f) is Some),
            rel == (|f: Seq<char>| relative_to(data_dir@, f)->0),
            char_views(out@) == sorted_texts(
                texts(files@).take(i as int).filter(keep).map_values(rel),
            ),
        decreases files@.len() - i,
    {
        let ghost pre = texts(files@).take(i as int);
        let ghost next = texts(files@).take(i + 1);
        assert(next.drop_last() =~= pre);
        assert(next.last() == files@[i as int]@);
        proof {
            reveal_with_fuel(Seq::filter, 1);
        }
        match crate::memory::to_anchor(data_dir, "", files[i].as_str()) {
            Some(anchor) => {
                let x = chars_of(anchor.path.as_str());
                let mut j: usize = 0;
                while j < out.len() && !text_less_of(&x, &out[j])
                    invariant
                        j <= out@.len(),
                        forall|k: int|
                            0 <= k < j ==> !text_less(x@, #[trigger] char_views(out@)[k]),
                    decreases out@.len() - j,
                {
                    assert(char_views(out@)[j as int] == out@[j as int]@);
                    j += 1;
                }
                proof {
                    if j < out@.len() {
                        assert(char_views(out@)[j as int] == out@[j as int]@);
                    }
                    lemma_text_slot(char_views(out@), x@, j as int);
                    assert(keep(next.last()));
                    assert(next.filter(keep) == pre.filter(keep).push(next.last()));
                    let s_new = next.filter(keep).map_values(rel);
                    let s_old = pre.filter(keep).map_values(rel);
                    assert(s_new.drop_last() =~= s_old);
                    assert(s_new.last() == x@);
                }
                let ghost before = out@;
                let ghost xv = x@;
                out.insert(j, x);
                assert(char_views(out@) =~= char_views(before).insert(
                    j as int,
                    xv,
                ));
            },
            None => {
                assert(!keep(next.last()));
                assert(next.filter(keep) == pre.filter(keep));
            },
        }
        i += 1;
    }
    assert(texts(files@).take(files@.len() as int) =~= texts(files@));
    let mut result: Vec<String> = Vec::new();
    let mut k: usize = 0;
    while k < out.len()
        invariant
            k <= out@.len(),
            texts(result@) == char_views(out@).take(k as int),
        decreases out@.len() - k,
    {
        let ghost before = result@;
        let s = string_of(&out[k]);
        let ghost sv = s@;
        result.push(s);
        assert(char_views(out@)[k as int] == out@[k as int]@);
        assert(texts(result@) =~= texts(before).push(sv));
        assert(texts(result@) =~= char_views(out@).take(k + 1));
        k += 1;
    }
    assert(char_views(out@).take(out@.len() as int) =~= char_views(out@));
    result
}

/// Filters on the reasoning-trace log; `limit` 0 means the default of 100.
#[derive(Debug)]
pub struct LlmLogQuery {
    pub model: Option<String>,
    pub run_id: Option<u128>,
    pub phase: Option<String>,
    pub since: Option<Timestamp>,
    pub limit: usize,
}

impl LlmLogQuery {
    /// No filter, at most 100 entries.
    pub fn new() -> (r: LlmLogQuery)
        ensures
            r.model is None && r.run_id is None && r.phase is None && r.since is None,
            r.limit == 100,
    {
        LlmLogQuery { model: None, run_id: None, phase: None, since: None, limit: 100 }
    }

    /// The number of entries a read returns at most.
    pub open spec fn cap(&self) -> nat {
        if self.limit == 0 {
            100
        } else {
            self.limit as nat
        }
    }
}

/// What the filters read of one log entry.
#[derive(Debug)]
pub struct LogHeader {
    pub model: Option<String>,
    pub phase: String,
    pub run_id: u128,
    pub at: Timestamp,
}

/// Whether an entry passes the filters: model and phase match up to ASCII
/// case (an entry without a model fails a model filter), the run id is
/// equal, and the entry is not older than `since`.
pub open spec fn log_passes(q: LlmLogQuery, h: LogHeader) -> bool {
    &&& (q.model matches Some(m) ==> (h.model matches Some(hm) && eq_ignore_ascii_case(hm@, m@)))
    &&& (q.phase matches Some(p) ==> eq_ignore_ascii_case(h.phase@, p@))
    &&& (q.run_id matches Some(id) ==> h.run_id == id)
    &&& (q.since matches Some(t) ==> t.key() <= h.at.key())
}

/// Indices of the entries that pass, in order, at most `cap` of them.
pub open spec fn passing(q: LlmLogQuery, hs: Seq<LogHeader>, n: nat) -> Seq<nat>
    decreases n,
{
    if n == 0 || n > hs.len() {
        Seq::empty()
    } else {
        let prev = passing(q, hs, (n - 1) as nat);
        if prev.len() < q.cap() && log_passes(q, hs[n - 1]) {
            prev.push((n - 1) as nat)
        } else {
            prev
        }
    }
}

fn passes(q: &LlmLogQuery, h: &LogHeader) -> (r: bool)
    requires
        q.since matches Some(t) ==> t.wf(),
        h.at.wf(),
    ensures
        r == log_passes(*q, *h),
{
    let model_ok = match &q.model {
        Some(m) => match &h.model {
            Some(hm) => {
                let c = chars_of(hm.as_str());
                eq_ignore_ascii_case_chars(&c, m.as_str())
            },
            None => false,
        },
        None => true,
    };
    let phase_ok = match &q.phase {
        Some(p) => {
            let c = chars_of(h.phase.as_str());
            eq_ignore_ascii_case_chars(&c, p.as_str())
        },
        None => true,
    };
    let run_ok = match q.run_id {
        Some(id) => h.run_id == id,
        None => true,
    };
    let time_ok = match &q.since {
        Some(t) => t.not_after(&h.at),
        None => true,
    };
    model_ok && phase_ok && run_ok && time_ok
}

proof fn lemma_passing_len(q: LlmLogQuery, hs: Seq<LogHeader>, n: nat)
    ensures
        passing(q, hs, n).len() <= n,
        passing(q, hs, n).len() <= q.cap(),
    decreases n,
{
    if n > 0 && n <= hs.len() {
        lemma_passing_len(q, hs, (n - 1) as nat);
    }
}

proof fn lemma_passing_full(q: LlmLogQuery, hs: Seq<LogHeader>, i: nat, n: nat)
    requires
        i <= n <= hs.len(),
        passing(q, hs, i).len() >= q.cap(),
    ensures
        passing(q, hs, n) == passing(q, hs, i),
    decreases n - i,
{
    if n > i {
        lemma_passing_full(q, hs, i, (n - 1) as nat);
    }
}

/// Reads the log newest first: given the entries in that order, the indices
/// of those that pass the filters, up to the limit.
pub fn select_logs(q: &LlmLogQuery, headers: &Vec<LogHeader>) -> (r: Vec<usize>)
    requires
        q.since matches Some(t) ==> t.wf(),
        forall|i: int| 0 <= i < headers@.len() ==> (#[trigger] headers@[i]).at.wf(),
    ensures
        r@.map_values(|i: usize| i as nat) == passing(*q, headers@, headers@.len()),
{
    let cap: usize = if q.limit == 0 {
        100
    } else {
        q.limit
    };
    let mut out: Vec<usize> = Vec::new();
    let mut i: usize = 0;
    while i < headers.len() && out.len() < cap
        invariant
            i <= headers@.len(),
            cap as nat == q.cap(),
            q.since matches Some(t) ==> t.wf(),
            forall|k: int| 0 <= k < headers@.len() ==> (#[trigger] headers@[k]).at.wf(),
            out@.map_values(|x: usize| x as nat) == passing(*q, headers@, i as nat),
        decreases headers@.len() - i,
    {
        proof {
            lemma_passing_len(*q, headers@, i as nat);
        }
        let ghost before = out@;
        if passes(q, &headers[i]) {
            out.push(i);
            assert(out@.map_values(|x: usize| x as nat) =~= before.map_values(|x: usize| x as nat).push(i as nat));
        }
        i += 1;
    }
    proof {
        if i < headers@.len() {
            lemma_passing_full(*q, headers@, i as nat, headers@.len() as nat);
        }
    }
    out
}

/// What a Markdown file request answers: the text itself, or it rendered.
#[derive(Debug)]
pub enum MarkdownBody {
    Raw(String),
    Html(String),
}

/// What `pulldown_cmark` renders for a Markdown text, tables and footnotes on.
pub uninterp spec fn markdown_html(s: Seq<char>) -> Seq<char>;

/// Relies on pulldown_cmark's `Parser::new_ext` with tables and footnotes
/// and `html::push_html`: the HTML depends on the text alone.
#[verifier::external_body]
fn render_markdown(markdown: &str) -> (r: String)
    ensures
        r@ == markdown_html(markdown@),
{
    let mut options = pulldown_cmark::Options::empty();
    options.insert(pulldown_cmark::Options::ENABLE_TABLES);
    options.insert(pulldown_cmark::Options::ENABLE_FOOTNOTES);
    let mut output = String::new();
    pulldown_cmark::html::push_html(&mut output, pulldown_cmark::Parser::new_ext(markdown, options));
    output
}

/// The answer to a Markdown file request: rendered to HTML when asked.
pub fn markdown_body(content: String, render: bool) -> (r: MarkdownBody)
    ensures
        render ==> (r matches MarkdownBody::Html(h) && h@ == markdown_html(content@)),
        !render ==> (r matches MarkdownBody::Raw(t) && t@ == content@),
{
    if render {
        MarkdownBody::Html(render_markdown(content.as_str()))
    } else {
        MarkdownBody::Raw(content)
    }
}

} // verus!
