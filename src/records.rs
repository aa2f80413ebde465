use vstd::prelude::*;
use vstd::string::StringExecFns;

use crate::agent::AgentStep;
use crate::tasks::Intent;
use crate::text::{
    append_chars, append_str, chars_of, contains, decimal, decimal_chars, ends_with, find,
    has_prefix, has_suffix, occurs_at, padded, padded_chars, slice, starts_with, string_of, trim,
    trim_end, trim_start, trimmed, trimmed_end, trimmed_start,
};
use crate::timestamp::Timestamp;

verus! {

/// The hexadecimal digit for `d` (below sixteen), lower case.
pub open spec fn hex_digit(d: nat) -> char {
    if d < 10 {
        crate::text::digit(d)
    } else if d == 10 {
        'a'
    } else if d == 11 {
        'b'
    } else if d == 12 {
        'c'
    } else if d == 13 {
        'd'
    } else if d == 14 {
        'e'
    } else {
        'f'
    }
}

/// The last `count` hexadecimal digits of `n`, most significant first.
pub open spec fn hex_digits(n: nat, count: nat) -> Seq<char>
    decreases count,
{
    if count == 0 {
        Seq::empty()
    } else {
        hex_digits(n / 16, (count - 1) as nat).push(hex_digit(n % 16))
    }
}

/// An id in the hyphenated form: 32 lower-case hex digits in groups of
/// 8-4-4-4-12.
pub open spec fn uuid_text(id: u128) -> Seq<char> {
    let h = hex_digits(id as nat, 32);
    h.subrange(0, 8) + "-"@ + h.subrange(8, 12) + "-"@ + h.subrange(12, 16) + "-"@ + h.subrange(
        16,
        20,
    ) + "-"@ + h.subrange(20, 32)
}

/// Relies on uuid's `Uuid::from_u128` (big-endian) and its hyphenated,
/// lower-case `Display`.
#[verifier::external_body]
fn uuid_string(id: u128) -> (r: String)
    ensures
        r@ == uuid_text(id),
{
    uuid::Uuid::from_u128(id).hyphenated().to_string()
}

/// `YYYYMMDDTHHMMSS`.
pub open spec fn compact_stamp(t: Timestamp) -> Seq<char> {
    padded(t.year as nat, 4) + padded(t.month as nat, 2) + padded(t.day as nat, 2) + "T"@
        + padded(t.hour as nat, 2) + padded(t.minute as nat, 2) + padded(t.second as nat, 2)
}

/// `HH:MM:SS`.
pub open spec fn clock_text(t: Timestamp) -> Seq<char> {
    padded(t.hour as nat, 2) + ":"@ + padded(t.minute as nat, 2) + ":"@ + padded(t.second as nat, 2)
}

/// The file name of an intent record: creation time, then id, so that names
/// sort chronologically and never collide.
pub open spec fn intent_file_name_text(created_at: Timestamp, id: u128) -> Seq<char> {
    compact_stamp(created_at) + "-"@ + uuid_text(id) + ".md"@
}

fn push_padded(out: &mut Vec<char>, n: u64, width: usize)
    ensures
        final(out)@ == old(out)@ + padded(n as nat, width as nat),
{
    let p = padded_chars(n, width);
    append_chars(out, &p);
}

/// The file name of an intent record created at `created_at` with id `id`.
pub fn intent_file_name(created_at: &Timestamp, id: u128) -> (r: String)
    requires
        created_at.wf(),
    ensures
        r@ == intent_file_name_text(*created_at, id),
{
    let mut out: Vec<char> = Vec::new();
    push_padded(&mut out, created_at.year as u64, 4);
    push_padded(&mut out, created_at.month as u64, 2);
    push_padded(&mut out, created_at.day as u64, 2);
    append_str(&mut out, "T");
    push_padded(&mut out, created_at.hour as u64, 2);
    push_padded(&mut out, created_at.minute as u64, 2);
    push_padded(&mut out, created_at.second as u64, 2);
    append_str(&mut out, "-");
    let u = uuid_string(id);
    append_str(&mut out, u.as_str());
    append_str(&mut out, ".md");
    assert(out@ =~= intent_file_name_text(*created_at, id));
    string_of(&out)
}

/// The data-relative path of the per-day file under `dir` for the day of
/// `t`: `dir/YYYY/MM/DD` followed by `ext`.
pub open spec fn dated_path_text(dir: Seq<char>, t: Timestamp, ext: Seq<char>) -> Seq<char> {
    dir + "/"@ + padded(t.year as nat, 4) + "/"@ + padded(t.month as nat, 2) + "/"@ + padded(
        t.day as nat,
        2,
    ) + ext
}

/// The per-day file under `dir` for the day of `t` (journals, reasoning
/// logs, memories).
pub fn dated_path(dir: &str, t: &Timestamp, ext: &str) -> (r: String)
    requires
        t.wf(),
    ensures
        r@ == dated_path_text(dir@, *t, ext@),
{
    let mut out: Vec<char> = Vec::new();
    append_str(&mut out, dir);
    append_str(&mut out, "/");
    push_padded(&mut out, t.year as u64, 4);
    append_str(&mut out, "/");
    push_padded(&mut out, t.month as u64, 2);
    append_str(&mut out, "/");
    push_padded(&mut out, t.day as u64, 2);
    append_str(&mut out, ext);
    assert(out@ =~= dated_path_text(dir@, *t, ext@));
    string_of(&out)
}

/// The data-relative path of the journal file of the day of `t`.
pub fn journal_path(t: &Timestamp) -> (r: String)
    requires
        t.wf(),
    ensures
        r@ == dated_path_text("journals"@, *t, ".md"@),
{
    dated_path("journals", t, ".md")
}

/// The trace block of step number `n` (counted from 1).
pub open spec fn trace_block(n: nat, s: AgentStep) -> Seq<char> {
    decimal(n) + ". Thought: "@ + s.thought@ + "\n   Action: "@ + s.action@
        + "\n   Observation: "@ + s.observation@ + "\n"@
}

pub open spec fn trace_blocks(steps: Seq<AgentStep>, n: nat) -> Seq<char>
    decreases n,
{
    if n == 0 || n > steps.len() {
        Seq::empty()
    } else {
        trace_blocks(steps, (n - 1) as nat) + trace_block(n, steps[n - 1])
    }
}

/// The reasoning trace of a journal entry.
pub open spec fn trace_text(steps: Seq<AgentStep>) -> Seq<char> {
    if steps.len() == 0 {
        "(no ReAct steps recorded)\n"@
    } else {
        trace_blocks(steps, steps.len())
    }
}

/// The journal entry of one processed intent.
pub open spec fn journal_entry_text(
    now: Timestamp,
    summary: Seq<char>,
    final_answer: Seq<char>,
    steps: Seq<AgentStep>,
) -> Seq<char> {
    "## "@ + clock_text(now) + " — "@ + summary + "\n\nIntent processed: "@ + summary
        + "\nFinal answer: "@ + final_answer + "\n\n### ReAct trace\n"@ + trim_end(
        trace_text(steps),
    ) + "\n"@
}

/// The journal entry of one processed intent: time, summary, final answer
/// and the numbered reasoning trace.
pub fn journal_entry(now: &Timestamp, summary: &str, final_answer: &str, steps: &Vec<AgentStep>) -> (r:
    String)
    requires
        now.wf(),
    ensures
        r@ == journal_entry_text(*now, summary@, final_answer@, steps@),
{
    let mut trace: Vec<char> = Vec::new();
    let mut i: usize = 0;
    while i < steps.len()
        invariant
            i <= steps@.len(),
            trace@ == trace_blocks(steps@, i as nat),
        decreases steps@.len() - i,
    {
        let n = decimal_chars((i + 1) as u64);
        append_chars(&mut trace, &n);
        append_str(&mut trace, ". Thought: ");
        append_str(&mut trace, steps[i].thought.as_str());
        append_str(&mut trace, "\n   Action: ");
        append_str(&mut trace, steps[i].action.as_str());
        append_str(&mut trace, "\n   Observation: ");
        append_str(&mut trace, steps[i].observation.as_str());
        append_str(&mut trace, "\n");
        i += 1;
        assert(trace@ =~= trace_blocks(steps@, i as nat));
    }
    if steps.len() == 0 {
        append_str(&mut trace, "(no ReAct steps recorded)\n");
        assert(trace@ =~= trace_text(steps@));
    }
    let trace = trimmed_end(&trace);
    let mut out: Vec<char> = Vec::new();
    append_str(&mut out, "## ");
    push_padded(&mut out, now.hour as u64, 2);
    append_str(&mut out, ":");
    push_padded(&mut out, now.minute as u64, 2);
    append_str(&mut out, ":");
    push_padded(&mut out, now.second as u64, 2);
    append_str(&mut out, " — ");
    append_str(&mut out, summary);
    append_str(&mut out, "\n\nIntent processed: ");
    append_str(&mut out, summary);
    append_str(&mut out, "\nFinal answer: ");
    append_str(&mut out, final_answer);
    append_str(&mut out, "\n\n### ReAct trace\n");
    append_chars(&mut out, &trace);
    append_str(&mut out, "\n");
    assert(out@ =~= journal_entry_text(*now, summary@, final_answer@, steps@));
    string_of(&out)
}

pub open spec fn strip_prefix_of(s: Seq<char>, p: Seq<char>) -> Seq<char> {
    if starts_with(s, p) {
        s.subrange(p.len() as int, s.len() as int)
    } else {
        s
    }
}

pub open spec fn strip_suffix_of(s: Seq<char>, p: Seq<char>) -> Seq<char> {
    if ends_with(s, p) {
        s.subrange(0, s.len() - p.len())
    } else {
        s
    }
}

/// The header lines of a serialized record header: without a leading
/// document marker `---`, a trailing end marker `...` and trailing space.
pub open spec fn header_lines(yaml: Seq<char>) -> Seq<char> {
    trim_end(strip_suffix_of(strip_prefix_of(yaml, "---\n"@), "...\n"@))
}

/// A record file: the header between `---` fences, a blank line, then the
/// body, which ends with a newline when it is not empty.
pub open spec fn intent_document_text(yaml: Seq<char>, body: Seq<char>) -> Seq<char> {
    let h = header_lines(yaml);
    "---\n"@ + (if h.len() > 0 {
        h + "\n"@
    } else {
        Seq::empty()
    }) + "---\n\n"@ + (if body.len() == 0 {
        Seq::empty()
    } else if ends_with(body, "\n"@) {
        body
    } else {
        body + "\n"@
    })
}

/// Frames a serialized header `yaml` and a free-text `body` as a record file.
pub fn intent_document(yaml: &str, body: &str) -> (r: String)
    ensures
        r@ == intent_document_text(yaml@, body@),
{
    let y = chars_of(yaml);
    let open_marker = chars_of("---\n");
    let y1 = if has_prefix(&y, &open_marker) {
        slice(&y, open_marker.len(), y.len())
    } else {
        y
    };
    let end_marker = chars_of("...\n");
    let y2 = if has_suffix(&y1, &end_marker) {
        slice(&y1, 0, y1.len() - end_marker.len())
    } else {
        y1
    };
    let h = trimmed_end(&y2);
    let mut out: Vec<char> = Vec::new();
    append_str(&mut out, "---\n");
    if h.len() > 0 {
        append_chars(&mut out, &h);
        append_str(&mut out, "\n");
    }
    append_str(&mut out, "---\n\n");
    let b = chars_of(body);
    if b.len() > 0 {
        append_chars(&mut out, &b);
        let newline = chars_of("\n");
        if !has_suffix(&b, &newline) {
            append_str(&mut out, "\n");
        }
    }
    assert(out@ =~= intent_document_text(yaml@, body@));
    string_of(&out)
}

/// `s` before the first occurrence of `p`, or all of `s` when `p` does not occur.
pub open spec fn before_first(s: Seq<char>, p: Seq<char>) -> Seq<char> {
    if contains(s, p) {
        let i = choose|i: int| occurs_at(s, p, i) && forall|j: int| 0 <= j < i ==> !occurs_at(s, p, j);
        s.subrange(0, i)
    } else {
        s
    }
}

fn prefix_before(s: &Vec<char>, p: &Vec<char>) -> (r: Vec<char>)
    ensures
        r@ == before_first(s@, p@),
{
    match find(s, p) {
        Some(i) => {
            proof {
                let k = choose|k: int|
                    occurs_at(s@, p@, k) && forall|j: int| 0 <= j < k ==> !occurs_at(s@, p@, j);
                if k < i {
                } else if k > i {
                    assert(!occurs_at(s@, p@, i as int));
                }
            }
            slice(s, 0, i)
        },
        None => slice(s, 0, s.len()),
    }
}

pub open spec fn is_line_break(c: char) -> bool {
    c == '\n' || c == '\r'
}

/// `s` without its leading line breaks.
pub open spec fn skip_line_breaks(s: Seq<char>) -> Seq<char>
    decreases s.len(),
{
    if s.len() > 0 && is_line_break(s[0]) {
        skip_line_breaks(s.drop_first())
    } else {
        s
    }
}

proof fn lemma_skip_line_breaks(s: Seq<char>, i: int)
    requires
        0 <= i <= s.len(),
        forall|j: int| 0 <= j < i ==> is_line_break(s[j]),
    ensures
        skip_line_breaks(s) == skip_line_breaks(s.subrange(i, s.len() as int)),
    decreases i,
{
    if i > 0 {
        lemma_skip_line_breaks(s.drop_first(), i - 1);
        assert(s.drop_first().subrange(i - 1, s.drop_first().len() as int) =~= s.subrange(
            i,
            s.len() as int,
        ));
    } else {
        assert(s.subrange(0, s.len() as int) =~= s);
    }
}

/// The header block at the top of a record file: between a leading `---`
/// fence and the next line that starts with `---`, or, without a fence,
/// everything before the first blank line.
pub open spec fn header_block(content: Seq<char>) -> Seq<char> {
    let t = trim_start(content);
    if starts_with(t, "---"@) {
        let rest = skip_line_breaks(t.subrange(3, t.len() as int));
        before_first(rest, "\n---"@)
    } else {
        before_first(t, "\n\n"@)
    }
}

/// The header block of a record file, or None when it is blank (every
/// header field then takes its default).
pub fn header_block_of(content: &str) -> (r: Option<String>)
    ensures
        trim(header_block(content@)).len() == 0 ==> r is None,
        trim(header_block(content@)).len() > 0 ==> (r matches Some(b) && b@ == header_block(content@)),
{
    proof {
        reveal_strlit("---");
    }
    let c = chars_of(content);
    let t = trimmed_start(&c);
    let fence = chars_of("---");
    let block = if has_prefix(&t, &fence) {
        let mut a: usize = 3;
        while a < t.len() && (t[a] == '\n' || t[a] == '\r')
            invariant
                3 <= a <= t@.len(),
                forall|j: int| 3 <= j < a ==> is_line_break(t@[j]),
            decreases t@.len() - a,
        {
            a += 1;
        }
        proof {
            let u = t@.subrange(3, t@.len() as int);
            assert forall|j: int| 0 <= j < a - 3 implies is_line_break(u[j]) by {
                assert(u[j] == t@[j + 3]);
            }
            lemma_skip_line_breaks(u, a - 3);
            assert(u.subrange(a - 3, u.len() as int) =~= t@.subrange(a as int, t@.len() as int));
        }
        let rest = slice(&t, a, t.len());
        let close = chars_of("\n---");
        prefix_before(&rest, &close)
    } else {
        let blank = chars_of("\n\n");
        prefix_before(&t, &blank)
    };
    let probe = trimmed(&block);
    if probe.len() == 0 {
        None
    } else {
        Some(string_of(&block))
    }
}

/// The header fields of a record file; each may be missing.
#[derive(Debug)]
pub struct IntentHeader {
    pub id: Option<u128>,
    pub source: Option<String>,
    pub summary: Option<String>,
    pub telos_alignment: Option<i64>,
    pub created_at: Option<Timestamp>,
}

impl IntentHeader {
    /// A header with no fields, as a blank header block gives.
    pub fn empty() -> (r: IntentHeader)
        ensures
            r.id is None && r.source is None && r.summary is None && r.telos_alignment is None
                && r.created_at is None,
    {
        IntentHeader { id: None, source: None, summary: None, telos_alignment: None, created_at: None }
    }
}

/// The intent of a record file at `path`: its header's fields, with the
/// defaults for those missing: `fresh_id`, source "unknown", the file stem
/// as summary, alignment 0, and `now` as creation time.
pub fn intent_from_header(
    header: IntentHeader,
    stem: &str,
    path: String,
    fresh_id: u128,
    now: Timestamp,
) -> (r: Intent)
    ensures
        r.id == match header.id {
            Some(id) => id,
            None => fresh_id,
        },
        r.source@ == match header.source {
            Some(s) => s@,
            None => "unknown"@,
        },
        r.summary@ == match header.summary {
            Some(s) => s@,
            None => stem@,
        },
        r.telos_alignment == match header.telos_alignment {
            Some(a) => a,
            None => 0,
        },
        r.created_at == match header.created_at {
            Some(t) => t,
            None => now,
        },
        r.storage_path == Some(path),
{
    let id = match header.id {
        Some(id) => id,
        None => fresh_id,
    };
    let source = match header.source {
        Some(s) => s,
        None => String::from_str("unknown"),
    };
    let summary = match header.summary {
        Some(s) => s,
        None => String::from_str(stem),
    };
    let telos_alignment = match header.telos_alignment {
        Some(a) => a,
        None => 0,
    };
    let created_at = match header.created_at {
        Some(t) => t,
        None => now,
    };
    Intent { id, source, summary, telos_alignment, created_at, storage_path: Some(path) }
}

/// All creation times are well formed.
pub open spec fn created_wf(s: Seq<Intent>) -> bool {
    forall|i: int| 0 <= i < s.len() ==> (#[trigger] s[i]).created_at.wf()
}

/// Where `x` goes in the creation-ordered list `t`: before the first intent
/// created strictly later, so that equal times keep their order.
pub open spec fn creation_slot(t: Seq<Intent>, x: Intent) -> nat
    decreases t.len(),
{
    if t.len() == 0 || t[0].created_at.key() > x.created_at.key() {
        0
    } else {
        1 + creation_slot(t.drop_first(), x)
    }
}

/// `s` ordered by creation time, oldest first; a stable sort.
pub open spec fn by_creation(s: Seq<Intent>) -> Seq<Intent>
    decreases s.len(),
{
    if s.len() == 0 {
        s
    } else {
        let t = by_creation(s.drop_last());
        t.insert(creation_slot(t, s.last()) as int, s.last())
    }
}

proof fn lemma_creation_slot(t: Seq<Intent>, x: Intent, j: int)
    requires
        0 <= j <= t.len(),
        forall|k: int| 0 <= k < j ==> (#[trigger] t[k]).created_at.key() <= x.created_at.key(),
        j == t.len() || t[j].created_at.key() > x.created_at.key(),
    ensures
        creation_slot(t, x) == j,
    decreases j,
{
    if j > 0 {
        assert(t[0].created_at.key() <= x.created_at.key());
        lemma_creation_slot(t.drop_first(), x, j - 1);
    }
}

proof fn lemma_creation_slot_bound(t: Seq<Intent>, x: Intent)
    ensures
        creation_slot(t, x) <= t.len(),
    decreases t.len(),
{
    if t.len() > 0 && !(t[0].created_at.key() > x.created_at.key()) {
        lemma_creation_slot_bound(t.drop_first(), x);
    }
}

proof fn lemma_by_creation_wf(s: Seq<Intent>)
    requires
        created_wf(s),
    ensures
        created_wf(by_creation(s)),
        by_creation(s).len() == s.len(),
    decreases s.len(),
{
    if s.len() > 0 {
        lemma_by_creation_wf(s.drop_last());
        let t = by_creation(s.drop_last());
        lemma_creation_slot_bound(t, s.last());
        let p = creation_slot(t, s.last()) as int;
        let u = t.insert(p, s.last());
        assert forall|i: int| 0 <= i < u.len() implies (#[trigger] u[i]).created_at.wf() by {
            if i < p {
                assert(u[i] == t[i]);
            } else if i > p {
                assert(u[i] == t[i - 1]);
            }
        }
    }
}

/// Orders scanned records by creation time, oldest first; records created
/// at the same time keep their scan order.
pub fn order_by_creation(records: Vec<Intent>) -> (r: Vec<Intent>)
    requires
        created_wf(records@),
    ensures
        r@ == by_creation(records@),
        forall|i: int, j: int|
            0 <= i < j < r@.len() ==> (#[trigger] r@[i]).created_at.key() <= (
            #[trigger] r@[j]).created_at.key(),
{
    let ghost all = records@;
    let mut rest = records;
    let mut out: Vec<Intent> = Vec::new();
    let ghost mut taken: nat = 0;
    let ghost total = all.len();
    proof {
        assert(all.take(0) =~= Seq::<Intent>::empty());
    }
    while rest.len() > 0
        invariant
            taken + rest@.len() == total,
            total == all.len(),
            rest@ == all.subrange(taken as int, total as int),
            out@ == by_creation(all.take(taken as int)),
            created_wf(all),
            created_wf(out@),
        decreases rest@.len(),
    {
        let ghost rs = rest@;
        let x = rest.remove(0);
        assert(rest@ =~= all.subrange(taken as int + 1, total as int));
        assert(x == all[taken as int]);
        assert(x.created_at.wf());
        let mut j: usize = 0;
        while j < out.len() && out[j].created_at.not_after(&x.created_at)
            invariant
                x.created_at.wf(),
                created_wf(out@),
                j <= out@.len(),
                x == all[taken as int],
                taken < total == all.len(),
                forall|k: int|
                    0 <= k < j ==> (#[trigger] out@[k]).created_at.key() <= x.created_at.key(),
            decreases out@.len() - j,
        {
            j += 1;
        }
        proof {
            lemma_creation_slot(out@, x, j as int);
            assert(all.take(taken as int + 1).drop_last() =~= all.take(taken as int));
            assert(all.take(taken as int + 1).last() == x);
        }
        out.insert(j, x);
        proof {
            assert(created_wf(all.take(taken as int + 1))) by {
                assert forall|i: int| 0 <= i < all.take(taken as int + 1).len() implies (
                #[trigger] all.take(taken as int + 1)[i]).created_at.wf() by {
                    assert(all.take(taken as int + 1)[i] == all[i]);
                }
            }
            lemma_by_creation_wf(all.take(taken as int + 1));
            taken = taken + 1;
        }
    }
    assert(all.take(total as int) =~= all);
    proof {
        lemma_by_creation_sorted(all);
    }
    out
}

/// Every intent before the slot was created no later than `x`; the one at
/// the slot, if any, strictly later.
proof fn lemma_creation_slot_bounds(t: Seq<Intent>, x: Intent)
    ensures
        creation_slot(t, x) <= t.len(),
        forall|k: int|
            0 <= k < creation_slot(t, x) ==> (#[trigger] t[k]).created_at.key()
                <= x.created_at.key(),
        creation_slot(t, x) < t.len() ==> t[creation_slot(t, x) as int].created_at.key()
            > x.created_at.key(),
    decreases t.len(),
{
    if t.len() > 0 && !(t[0].created_at.key() > x.created_at.key()) {
        lemma_creation_slot_bounds(t.drop_first(), x);
        assert forall|k: int| 0 <= k < creation_slot(t, x) implies (
        #[trigger] t[k]).created_at.key() <= x.created_at.key() by {
            if k > 0 {
                assert(t[k] == t.drop_first()[k - 1]);
            }
        }
    }
}

/// Scanned records come out oldest first: `by_creation` is ordered by
/// creation time.
pub proof fn lemma_by_creation_sorted(s: Seq<Intent>)
    ensures
        forall|i: int, j: int|
            0 <= i < j < by_creation(s).len() ==> (#[trigger] by_creation(s)[i]).created_at.key()
                <= (#[trigger] by_creation(s)[j]).created_at.key(),
    decreases s.len(),
{
    if s.len() > 0 {
        lemma_by_creation_sorted(s.drop_last());
        let t = by_creation(s.drop_last());
        let x = s.last();
        lemma_creation_slot_bounds(t, x);
        let p = creation_slot(t, x) as int;
        let u = t.insert(p, x);
        assert(u == by_creation(s));
        assert forall|i: int, j: int| 0 <= i < j < u.len() implies (#[trigger] u[i]).created_at.key()
            <= (#[trigger] u[j]).created_at.key() by {
            if j < p {
                assert(u[i] == t[i] && u[j] == t[j]);
            } else if j == p {
                assert(u[i] == t[i]);
            } else if i < p {
                assert(u[i] == t[i] && u[j] == t[j - 1]);
                assert(t[i].created_at.key() <= x.created_at.key());
                assert(t[p].created_at.key() > x.created_at.key());
                if j - 1 > p {
                    assert(t[p].created_at.key() <= t[j - 1].created_at.key());
                }
            } else if i == p {
                assert(u[j] == t[j - 1]);
                assert(t[p].created_at.key() > x.created_at.key());
                if j - 1 > p {
                    assert(t[p].created_at.key() <= t[j - 1].created_at.key());
                }
            } else {
                assert(u[i] == t[i - 1] && u[j] == t[j - 1]);
            }
        }
    }
}

/// A journal entry records the final answer: it holds the line
/// "Final answer: " followed by the answer.
pub proof fn lemma_journal_records_final_answer(
    now: Timestamp,
    summary: Seq<char>,
    final_answer: Seq<char>,
    steps: Seq<AgentStep>,
)
    ensures
        contains(journal_entry_text(now, summary, final_answer, steps), "Final answer: "@ + final_answer),
{
    reveal_strlit("\nFinal answer: ");
    reveal_strlit("Final answer: ");
    let pre = "## "@ + clock_text(now) + " — "@ + summary + "\n\nIntent processed: "@ + summary;
    let rest = "\n\n### ReAct trace\n"@ + trim_end(trace_text(steps)) + "\n"@;
    let text = journal_entry_text(now, summary, final_answer, steps);
    let needle = "Final answer: "@ + final_answer;
    assert(text =~= pre + "\nFinal answer: "@ + final_answer + rest);
    assert("\nFinal answer: "@ =~= seq!['\n'] + "Final answer: "@);
    let i: int = pre.len() as int + 1;
    assert(text.subrange(i, i + needle.len() as int) =~= needle);
    assert(occurs_at(text, needle, i));
}

} // verus!
