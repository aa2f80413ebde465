use vstd::prelude::*;

use crate::text::{append_chars, append_str, decimal, decimal_chars, string_of, texts};
use crate::timestamp::Timestamp;

verus! {

/// Most entries each list of the usage index keeps.
pub const USAGE_LIST_CAP: usize = 10;

/// One line of the usage index: a completed "intent ⇒ answer" summary, how
/// often it was completed and when last.
#[derive(Clone, Debug)]
pub struct SpEntry {
    pub summary: String,
    pub count: u32,
    pub last_seen: Timestamp,
}

pub type SpEntryView = (Seq<char>, u32, Timestamp);

impl View for SpEntry {
    type V = SpEntryView;

    open spec fn view(&self) -> SpEntryView {
        (self.summary@, self.count, self.last_seen)
    }
}

/// The persisted usage index.
#[derive(Debug)]
pub struct UsageIndex {
    pub top_used: Vec<SpEntry>,
    pub most_recent: Vec<SpEntry>,
}

/// The usage index as the dashboard lists it.
#[derive(Debug)]
pub struct SpIndex {
    pub top_used: Vec<String>,
    pub most_recent: Vec<String>,
}

pub open spec fn views(s: Seq<SpEntry>) -> Seq<SpEntryView> {
    s.map_values(|e: SpEntry| e@)
}

/// All timestamps in the list are well formed.
pub open spec fn stamps_wf(s: Seq<SpEntryView>) -> bool {
    forall|i: int| 0 <= i < s.len() ==> (#[trigger] s[i]).2.wf()
}

/// The summary line under which a completion is counted.
pub open spec fn usage_summary(intent_summary: Seq<char>, final_answer: Seq<char>) -> Seq<char> {
    intent_summary + " ⇒ "@ + final_answer
}

/// `a` is listed strictly ahead of `b`: by count, then by recency (top
/// used), or by recency alone (most recent).
pub open spec fn ahead(a: SpEntryView, b: SpEntryView, by_count: bool) -> bool {
    if by_count {
        a.1 > b.1 || (a.1 == b.1 && a.2.key() > b.2.key())
    } else {
        a.2.key() > b.2.key()
    }
}

/// Where `x` goes in the ordered list `t`: before the first entry it is
/// strictly ahead of, so that entries that compare equal keep their order.
pub open spec fn slot(t: Seq<SpEntryView>, x: SpEntryView, by_count: bool) -> nat
    decreases t.len(),
{
    if t.len() == 0 || ahead(x, t[0], by_count) {
        0
    } else {
        1 + slot(t.drop_first(), x, by_count)
    }
}

/// `s` in list order: a stable sort, descending.
pub open spec fn ordered(s: Seq<SpEntryView>, by_count: bool) -> Seq<SpEntryView>
    decreases s.len(),
{
    if s.len() == 0 {
        s
    } else {
        let t = ordered(s.drop_last(), by_count);
        t.insert(slot(t, s.last(), by_count) as int, s.last())
    }
}

pub open spec fn capped(s: Seq<SpEntryView>) -> Seq<SpEntryView> {
    if s.len() > USAGE_LIST_CAP {
        s.take(USAGE_LIST_CAP as int)
    } else {
        s
    }
}

pub open spec fn bumped(n: u32) -> u32 {
    if n == u32::MAX {
        n
    } else {
        (n + 1) as u32
    }
}

/// Index of the first entry with this summary.
pub open spec fn first_with(s: Seq<SpEntryView>, summary: Seq<char>) -> Option<nat>
    decreases s.len(),
{
    if s.len() == 0 {
        None
    } else if s[0].0 == summary {
        Some(0)
    } else {
        match first_with(s.drop_first(), summary) {
            Some(i) => Some(i + 1),
            None => None,
        }
    }
}

/// The top-used list before reordering: the matching entry counted once
/// more and seen now, or a new entry with count 1.
pub open spec fn counted(s: Seq<SpEntryView>, summary: Seq<char>, now: Timestamp) -> Seq<
    SpEntryView,
> {
    match first_with(s, summary) {
        Some(i) => s.update(i as int, (summary, bumped(s[i as int].1), now)),
        None => s.push((summary, 1, now)),
    }
}

/// The most-recent list before reordering: other summaries, then this one.
pub open spec fn refreshed(s: Seq<SpEntryView>, summary: Seq<char>, now: Timestamp) -> Seq<
    SpEntryView,
> {
    s.filter(|e: SpEntryView| e.0 != summary).push((summary, 1, now))
}

fn ahead_of(a: &SpEntry, b: &SpEntry, by_count: bool) -> (r: bool)
    requires
        a.last_seen.wf(),
        b.last_seen.wf(),
    ensures
        r == ahead(a@, b@, by_count),
{
    if by_count && a.count != b.count {
        a.count > b.count
    } else {
        !a.last_seen.not_after(&b.last_seen)
    }
}

proof fn lemma_slot(t: Seq<SpEntryView>, x: SpEntryView, by_count: bool, j: int)
    requires
        0 <= j <= t.len(),
        forall|k: int| 0 <= k < j ==> !ahead(x, #[trigger] t[k], by_count),
        j == t.len() || ahead(x, t[j], by_count),
    ensures
        slot(t, x, by_count) == j,
    decreases j,
{
    if j > 0 {
        assert(!ahead(x, t[0], by_count));
        lemma_slot(t.drop_first(), x, by_count, j - 1);
    }
}

proof fn lemma_ordered_wf(s: Seq<SpEntryView>, by_count: bool)
    requires
        stamps_wf(s),
    ensures
        stamps_wf(ordered(s, by_count)),
        ordered(s, by_count).len() == s.len(),
    decreases s.len(),
{
    if s.len() > 0 {
        lemma_ordered_wf(s.drop_last(), by_count);
        let t = ordered(s.drop_last(), by_count);
        lemma_slot_bound(t, s.last(), by_count);
        let u = t.insert(slot(t, s.last(), by_count) as int, s.last());
        assert forall|i: int| 0 <= i < u.len() implies (#[trigger] u[i]).2.wf() by {
            let p = slot(t, s.last(), by_count) as int;
            if i < p {
                assert(u[i] == t[i]);
            } else if i > p {
                assert(u[i] == t[i - 1]);
            }
        }
    }
}

proof fn lemma_slot_bound(t: Seq<SpEntryView>, x: SpEntryView, by_count: bool)
    ensures
        slot(t, x, by_count) <= t.len(),
    decreases t.len(),
{
    if t.len() > 0 && !ahead(x, t[0], by_count) {
        lemma_slot_bound(t.drop_first(), x, by_count);
    }
}

/// Reorders `entries` into list order.
fn reorder(entries: Vec<SpEntry>, by_count: bool) -> (r: Vec<SpEntry>)
    requires
        stamps_wf(views(entries@)),
    ensures
        views(r@) == ordered(views(entries@), by_count),
        stamps_wf(views(r@)),
{
    let ghost all = views(entries@);
    let mut rest = entries;
    let mut out: Vec<SpEntry> = Vec::new();
    let ghost mut taken: nat = 0;
    let ghost total = all.len();
    proof {
        assert(all.take(0) =~= Seq::<SpEntryView>::empty());
    }
    while rest.len() > 0
        invariant
            taken + rest@.len() == total,
            total == all.len(),
            views(rest@) == all.subrange(taken as int, total as int),
            views(out@) == ordered(all.take(taken as int), by_count),
            stamps_wf(all),
            stamps_wf(views(out@)),
        decreases rest@.len(),
    {
        let ghost rs = rest@;
        let x = rest.remove(0);
        assert(views(rest@) =~= all.subrange(taken as int + 1, total as int)) by {
            assert(rest@ =~= rs.drop_first());
            assert(views(rest@) =~= views(rs).drop_first());
        }
        assert(x@ == all[taken as int]) by {
            assert(views(rs)[0] == x@);
        }
        assert(x.last_seen.wf()) by {
            assert(all[taken as int].2.wf());
        }
        assert forall|k: int| 0 <= k < out@.len() implies (#[trigger] out@[k]).last_seen.wf() by {
            assert(views(out@)[k].2.wf());
        }
        let mut j: usize = 0;
        while j < out.len() && !ahead_of(&x, &out[j], by_count)
            invariant
                x.last_seen.wf(),
                forall|k: int| 0 <= k < out@.len() ==> (#[trigger] out@[k]).last_seen.wf(),
                j <= out@.len(),
                stamps_wf(views(out@)),
                x@ == all[taken as int],
                stamps_wf(all),
                taken < total == all.len(),
                forall|k: int| 0 <= k < j ==> !ahead(x@, #[trigger] views(out@)[k], by_count),
            decreases out@.len() - j,
        {
            assert(views(out@)[j as int] == out@[j as int]@);
            j += 1;
        }
        proof {
            if j < out@.len() {
                assert(views(out@)[j as int] == out@[j as int]@);
            }
            lemma_slot(views(out@), x@, by_count, j as int);
            let prefix = all.take(taken as int);
            assert(all.take(taken as int + 1).drop_last() =~= prefix);
            assert(all.take(taken as int + 1).last() == x@);
        }
        let ghost before = out@;
        out.insert(j, x);
        proof {
            assert(views(out@) =~= views(before).insert(j as int, x@));
            lemma_ordered_wf(all.take(taken as int + 1), by_count);
            assert(stamps_wf(all.take(taken as int + 1))) by {
                assert forall|i: int| 0 <= i < all.take(taken as int + 1).len() implies (
                #[trigger] all.take(taken as int + 1)[i]).2.wf() by {
                    assert(all.take(taken as int + 1)[i] == all[i]);
                }
            }
        }
        proof {
            taken = taken + 1;
        }
    }
    assert(all.take(total as int) =~= all);
    out
}

fn cap(entries: &mut Vec<SpEntry>)
    ensures
        views(final(entries)@) == capped(views(old(entries)@)),
{
    if entries.len() > USAGE_LIST_CAP {
        entries.truncate(USAGE_LIST_CAP);
        assert(views(entries@) =~= views(old(entries)@).take(USAGE_LIST_CAP as int));
    }
}

proof fn lemma_first_with(s: Seq<SpEntryView>, summary: Seq<char>, i: int)
    requires
        0 <= i <= s.len(),
        forall|k: int| 0 <= k < i ==> (#[trigger] s[k]).0 != summary,
        i == s.len() || s[i].0 == summary,
    ensures
        i == s.len() ==> first_with(s, summary) is None,
        i < s.len() ==> first_with(s, summary) == Some(i as nat),
    decreases i,
{
    if i > 0 {
        assert(s[0].0 != summary);
        lemma_first_with(s.drop_first(), summary, i - 1);
    }
}

proof fn lemma_first_with_bound(s: Seq<SpEntryView>, summary: Seq<char>)
    ensures
        first_with(s, summary) matches Some(i) ==> i < s.len(),
    decreases s.len(),
{
    if s.len() > 0 {
        lemma_first_with_bound(s.drop_first(), summary);
    }
}

/// Counts one completion of `summary` in the top-used list: the first entry
/// with that exact summary gets one more (saturating) and is stamped `now`,
/// else an entry with count 1 is added; the list is then ordered by count,
/// then recency, both descending (ties keep their order), and cut to ten.
pub fn upsert_top_used(entries: &mut Vec<SpEntry>, summary: &String, now: Timestamp)
    requires
        stamps_wf(views(old(entries)@)),
        now.wf(),
    ensures
        views(final(entries)@) == capped(
            ordered(counted(views(old(entries)@), summary@, now), true),
        ),
        stamps_wf(views(final(entries)@)),
{
    let ghost s = views(entries@);
    let n = entries.len();
    let mut i: usize = 0;
    let mut found = false;
    while i < n && !found
        invariant
            n == entries@.len(),
            i <= n,
            entries@ == old(entries)@,
            s == views(entries@),
            forall|k: int| 0 <= k < i ==> (#[trigger] s[k]).0 != summary@,
            found ==> i < n && s[i as int].0 == summary@,
        decreases n - i + (if found { 0int } else { 1 }),
    {
        if entries[i].summary == *summary {
            found = true;
        } else {
            i += 1;
        }
    }
    proof {
        lemma_first_with(s, summary@, i as int);
    }
    let mut list: Vec<SpEntry> = Vec::new();
    std::mem::swap(&mut list, entries);
    if found {
        let old_entry = list.remove(i);
        let count = if old_entry.count == u32::MAX {
            old_entry.count
        } else {
            old_entry.count + 1
        };
        list.insert(i, SpEntry { summary: summary.clone(), count, last_seen: now });
        assert(views(list@) =~= counted(s, summary@, now));
    } else {
        list.push(SpEntry { summary: summary.clone(), count: 1, last_seen: now });
        assert(views(list@) =~= counted(s, summary@, now));
    }
    assert(stamps_wf(views(list@))) by {
        assert forall|k: int| 0 <= k < views(list@).len() implies (
        #[trigger] views(list@)[k]).2.wf() by {
            if k != i {
                assert(views(list@)[k] == s[k]);
            }
        }
    }
    let mut sorted = reorder(list, true);
    cap(&mut sorted);
    assert(stamps_wf(views(sorted@))) by {
        assert forall|k: int| 0 <= k < views(sorted@).len() implies (
        #[trigger] views(sorted@)[k]).2.wf() by {
            assert(views(sorted@)[k] == ordered(counted(s, summary@, now), true)[k]);
        }
    }
    *entries = sorted;
}

/// Records `summary` as the most recent completion: entries with that exact
/// summary are dropped, an entry stamped `now` is added, the list is ordered
/// by recency, descending (ties keep their order), and cut to ten.
pub fn upsert_most_recent(entries: &mut Vec<SpEntry>, summary: &String, now: Timestamp)
    requires
        stamps_wf(views(old(entries)@)),
        now.wf(),
    ensures
        views(final(entries)@) == capped(ordered(refreshed(views(old(entries)@), summary@, now), false)),
        stamps_wf(views(final(entries)@)),
{
    let ghost s = views(entries@);
    let ghost keep = |e: SpEntryView| e.0 != summary@;
    let mut list: Vec<SpEntry> = Vec::new();
    std::mem::swap(&mut list, entries);
    let mut kept: Vec<SpEntry> = Vec::new();
    let ghost mut taken: nat = 0;
    let ghost total = s.len();
    proof {
        assert(s.take(0) =~= Seq::<SpEntryView>::empty());
        reveal_with_fuel(Seq::filter, 1);
    }
    while list.len() > 0
        invariant
            taken + list@.len() == total,
            total == s.len(),
            views(list@) == s.subrange(taken as int, total as int),
            views(kept@) == s.take(taken as int).filter(keep),
            keep == (|e: SpEntryView| e.0 != summary@),
        decreases list@.len(),
    {
        let ghost ls = list@;
        let e = list.remove(0);
        assert(views(list@) =~= s.subrange(taken as int + 1, total as int)) by {
            assert(list@ =~= ls.drop_first());
            assert(views(list@) =~= views(ls).drop_first());
        }
        assert(e@ == s[taken as int]) by {
            assert(views(ls)[0] == e@);
        }
        proof {
            assert(s.take(taken as int + 1).drop_last() =~= s.take(taken as int));
            reveal_with_fuel(Seq::filter, 1);
        }
        if e.summary != *summary {
            let ghost before = kept@;
            kept.push(e);
            assert(views(kept@) =~= views(before).push(e@));
        }
        proof {
            taken = taken + 1;
        }
    }
    assert(s.take(total as int) =~= s);
    let ghost filtered = views(kept@);
    kept.push(SpEntry { summary: summary.clone(), count: 1, last_seen: now });
    assert(views(kept@) =~= refreshed(s, summary@, now));
    assert(stamps_wf(views(kept@))) by {
        assert forall|k: int| 0 <= k < views(kept@).len() implies (
        #[trigger] views(kept@)[k]).2.wf() by {
            if k < filtered.len() {
                assert(filtered == s.filter(keep));
                assert(filtered.contains(filtered[k]));
                s.lemma_filter_contains_rev(keep, filtered[k]);
                assert(s.contains(filtered[k]));
                let idx = choose|idx: int| 0 <= idx < s.len() && s[idx] == filtered[k];
                assert(s[idx].2.wf());
                assert(views(kept@)[k] == filtered[k]);
            }
        }
    }
    let mut sorted = reorder(kept, false);
    cap(&mut sorted);
    assert(stamps_wf(views(sorted@))) by {
        assert forall|k: int| 0 <= k < views(sorted@).len() implies (
        #[trigger] views(sorted@)[k]).2.wf() by {
            assert(views(sorted@)[k] == ordered(refreshed(s, summary@, now), false)[k]);
        }
    }
    *entries = sorted;
}

/// The summary line under which a completion is counted.
pub fn usage_summary_of(intent_summary: &str, final_answer: &str) -> (r: String)
    ensures
        r@ == usage_summary(intent_summary@, final_answer@),
{
    let mut line: Vec<char> = Vec::new();
    append_str(&mut line, intent_summary);
    append_str(&mut line, " ⇒ ");
    append_str(&mut line, final_answer);
    string_of(&line)
}

impl UsageIndex {
    pub fn new() -> (r: UsageIndex)
        ensures
            r.top_used@.len() == 0,
            r.most_recent@.len() == 0,
    {
        UsageIndex { top_used: Vec::new(), most_recent: Vec::new() }
    }

    /// All timestamps in both lists are well formed.
    pub open spec fn wf(&self) -> bool {
        stamps_wf(views(self.top_used@)) && stamps_wf(views(self.most_recent@))
    }

    /// Counts a completed intent in both lists, under the line
    /// "summary ⇒ final answer" matched exactly.
    pub fn record_completion(&mut self, intent_summary: &str, final_answer: &str, now: Timestamp)
        requires
            old(self).wf(),
            now.wf(),
        ensures
            final(self).wf(),
            views(final(self).top_used@) == capped(
                ordered(
                    counted(
                        views(old(self).top_used@),
                        usage_summary(intent_summary@, final_answer@),
                        now,
                    ),
                    true,
                ),
            ),
            views(final(self).most_recent@) == capped(
                ordered(
                    refreshed(
                        views(old(self).most_recent@),
                        usage_summary(intent_summary@, final_answer@),
                        now,
                    ),
                    false,
                ),
            ),
            in_list_order(views(final(self).top_used@), true),
            in_list_order(views(final(self).most_recent@), false),
            final(self).top_used@.len() <= USAGE_LIST_CAP,
            final(self).most_recent@.len() <= USAGE_LIST_CAP,
    {
        let line = usage_summary_of(intent_summary, final_answer);
        upsert_top_used(&mut self.top_used, &line, now);
        upsert_most_recent(&mut self.most_recent, &line, now);
        proof {
            lemma_ordered_in_order(counted(views(old(self).top_used@), line@, now), true);
            lemma_ordered_in_order(refreshed(views(old(self).most_recent@), line@, now), false);
            assert(views(self.top_used@).len() == self.top_used@.len());
            assert(views(self.most_recent@).len() == self.most_recent@.len());
        }
    }
}

/// A top-used line as the dashboard shows it: "summary (count)".
pub open spec fn counted_line(e: SpEntryView) -> Seq<char> {
    e.0 + " ("@ + decimal(e.1 as nat) + ")"@
}

/// The dashboard's listing of the index: top-used lines with their counts,
/// most-recent lines by summary alone.
pub fn sp_index_of(index: &UsageIndex) -> (r: SpIndex)
    ensures
        texts(r.top_used@) == views(index.top_used@).map_values(|e: SpEntryView| counted_line(e)),
        texts(r.most_recent@) == views(index.most_recent@).map_values(|e: SpEntryView| e.0),
{
    let mut top: Vec<String> = Vec::new();
    let mut i: usize = 0;
    while i < index.top_used.len()
        invariant
            i <= index.top_used@.len(),
            texts(top@) == views(index.top_used@).map_values(|e: SpEntryView| counted_line(e)).take(i as int),
        decreases index.top_used@.len() - i,
    {
        let e = &index.top_used[i];
        let mut line: Vec<char> = Vec::new();
        append_str(&mut line, e.summary.as_str());
        append_str(&mut line, " (");
        let digits = decimal_chars(e.count as u64);
        append_chars(&mut line, &digits);
        append_str(&mut line, ")");
        let ghost before = top@;
        let text = string_of(&line);
        top.push(text);
        assert(texts(top@) =~= texts(before).push(line@));
        assert(texts(top@) =~= views(index.top_used@).map_values(|e: SpEntryView| counted_line(e)).take(i + 1));
        i += 1;
    }
    let mut recent: Vec<String> = Vec::new();
    let mut i: usize = 0;
    while i < index.most_recent.len()
        invariant
            i <= index.most_recent@.len(),
            texts(recent@) == views(index.most_recent@).map_values(|e: SpEntryView| e.0).take(i as int),
        decreases index.most_recent@.len() - i,
    {
        let ghost before = recent@;
        let text = index.most_recent[i].summary.clone();
        recent.push(text);
        assert(texts(recent@) =~= texts(before).push(index.most_recent@[i as int].summary@));
        assert(views(index.most_recent@)[i as int].0 == index.most_recent@[i as int].summary@);
        assert(texts(recent@) =~= views(index.most_recent@).map_values(|e: SpEntryView| e.0).take(i + 1));
        i += 1;
    }
    assert(texts(top@) =~= views(index.top_used@).map_values(|e: SpEntryView| counted_line(e)));
    assert(texts(recent@) =~= views(index.most_recent@).map_values(|e: SpEntryView| e.0));
    SpIndex { top_used: top, most_recent: recent }
}

proof fn lemma_slot_bounds(t: Seq<SpEntryView>, x: SpEntryView, by_count: bool)
    ensures
        slot(t, x, by_count) <= t.len(),
        forall|k: int| 0 <= k < slot(t, x, by_count) ==> !ahead(x, #[trigger] t[k], by_count),
        slot(t, x, by_count) < t.len() ==> ahead(x, t[slot(t, x, by_count) as int], by_count),
    decreases t.len(),
{
    if t.len() > 0 && !ahead(x, t[0], by_count) {
        lemma_slot_bounds(t.drop_first(), x, by_count);
        assert forall|k: int| 0 <= k < slot(t, x, by_count) implies !ahead(
            x,
            #[trigger] t[k],
            by_count,
        ) by {
            if k > 0 {
                assert(t[k] == t.drop_first()[k - 1]);
            }
        }
    }
}

/// No entry is listed after one it is strictly ahead of.
pub open spec fn in_list_order(s: Seq<SpEntryView>, by_count: bool) -> bool {
    forall|i: int, j: int| 0 <= i < j < s.len() ==> !ahead(#[trigger] s[j], #[trigger] s[i], by_count)
}

/// The usage lists stay in order: by count then recency (top used), or by
/// recency (most recent), descending; cutting the list keeps the order.
pub proof fn lemma_ordered_in_order(s: Seq<SpEntryView>, by_count: bool)
    ensures
        in_list_order(ordered(s, by_count), by_count),
        in_list_order(capped(ordered(s, by_count)), by_count),
    decreases s.len(),
{
    if s.len() > 0 {
        lemma_ordered_in_order(s.drop_last(), by_count);
        let t = ordered(s.drop_last(), by_count);
        let x = s.last();
        lemma_slot_bounds(t, x, by_count);
        let p = slot(t, x, by_count) as int;
        let u = t.insert(p, x);
        assert(u == ordered(s, by_count));
        assert forall|i: int, j: int| 0 <= i < j < u.len() implies !ahead(
            #[trigger] u[j],
            #[trigger] u[i],
            by_count,
        ) by {
            if j < p {
                assert(u[i] == t[i] && u[j] == t[j]);
            } else if j == p {
                assert(u[i] == t[i]);
            } else if i < p {
                assert(u[i] == t[i] && u[j] == t[j - 1]);
            } else if i == p {
                assert(u[j] == t[j - 1]);
                if j - 1 > p {
                    assert(!ahead(t[j - 1], t[p], by_count));
                }
            } else {
                assert(u[i] == t[i - 1] && u[j] == t[j - 1]);
            }
        }
    }
    let o = ordered(s, by_count);
    let c = capped(o);
    assert forall|i: int, j: int| 0 <= i < j < c.len() implies !ahead(
        #[trigger] c[j],
        #[trigger] c[i],
        by_count,
    ) by {
        assert(c[i] == o[i] && c[j] == o[j]);
    }
}

/// The first completion recorded in an empty index makes each list hold
/// exactly that summary, with count 1 and stamped `now`.
pub proof fn lemma_first_completion(summary: Seq<char>, now: Timestamp)
    ensures
        capped(ordered(counted(Seq::empty(), summary, now), true)) == seq![(summary, 1u32, now)],
        capped(ordered(refreshed(Seq::empty(), summary, now), false)) == seq![(summary, 1u32, now)],
{
    let e = (summary, 1u32, now);
    assert(first_with(Seq::<SpEntryView>::empty(), summary) is None);
    assert(counted(Seq::empty(), summary, now) =~= seq![e]);
    reveal_with_fuel(Seq::filter, 1);
    assert(Seq::<SpEntryView>::empty().filter(|x: SpEntryView| x.0 != summary) =~= Seq::<SpEntryView>::empty());
    assert(refreshed(Seq::empty(), summary, now) =~= seq![e]);
    let one = seq![e];
    assert(one.drop_last() =~= Seq::<SpEntryView>::empty());
    let none = Seq::<SpEntryView>::empty();
    assert(ordered(none, true) == none);
    assert(ordered(none, false) == none);
    assert(slot(none, e, true) == 0);
    assert(slot(none, e, false) == 0);
    assert(none.insert(0, e) =~= one);
    assert(ordered(one, true) == one);
    assert(ordered(one, false) == one);
}

} // verus!
