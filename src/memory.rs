use vstd::prelude::*;

use vstd::string::StringExecFns;

use crate::agent::AgentOutcome;
use crate::tasks::Intent;
use crate::text::{
    append_chars, char_views, eq_ignore_ascii_case, eq_ignore_ascii_case_chars, texts, append_str, chars_of, decimal, decimal_chars, has_prefix, is_space,
    is_space_char, padded, padded_chars, slice, starts_with, string_of,
};
use crate::timestamp::Timestamp;

verus! {

/// `L1` is one processed event, `L2` the rollup of one day.
#[derive(Clone, Copy, Debug, PartialEq, Eq, Structural)]
pub enum MemoryLevel {
    L1,
    L2,
}

/// A label and a data-relative path pointing at a journal or history file.
#[derive(Clone, Debug)]
pub struct MemoryAnchor {
    pub label: String,
    pub path: String,
}

impl View for MemoryAnchor {
    type V = (Seq<char>, Seq<char>);

    open spec fn view(&self) -> (Seq<char>, Seq<char>) {
        (self.label@, self.path@)
    }
}

impl MemoryAnchor {
    /// A copy with the same label and path.
    pub fn duplicate(&self) -> (r: MemoryAnchor)
        ensures
            r@ == self@,
    {
        MemoryAnchor { label: self.label.clone(), path: self.path.clone() }
    }

    pub fn same_as(&self, other: &MemoryAnchor) -> (r: bool)
        ensures
            r == (self@ == other@),
    {
        self.label == other.label && self.path == other.path
    }
}

#[derive(Clone, Debug)]
pub struct MemoryEntry {
    pub id: u128,
    pub level: MemoryLevel,
    pub summary: String,
    pub details: Vec<String>,
    pub anchors: Vec<MemoryAnchor>,
    pub tags: Vec<String>,
    pub related_intents: Vec<u128>,
    pub created_at: Timestamp,
    pub updated_at: Timestamp,
}

pub open spec fn anchor_views(s: Seq<MemoryAnchor>) -> Seq<(Seq<char>, Seq<char>)> {
    s.map_values(|a: MemoryAnchor| a@)
}

/// Every tag of every entry.
pub open spec fn tag_set(entries: Seq<MemoryEntry>) -> Set<Seq<char>>
    decreases entries.len(),
{
    if entries.len() == 0 {
        Set::empty()
    } else {
        tag_set(entries.drop_last()) + texts(entries.last().tags@).to_set()
    }
}

/// Every anchor of every entry.
pub open spec fn anchor_set(entries: Seq<MemoryEntry>) -> Set<(Seq<char>, Seq<char>)>
    decreases entries.len(),
{
    if entries.len() == 0 {
        Set::empty()
    } else {
        anchor_set(entries.drop_last()) + anchor_views(entries.last().anchors@).to_set()
    }
}

/// Every related intent of every entry.
pub open spec fn intent_set(entries: Seq<MemoryEntry>) -> Set<u128>
    decreases entries.len(),
{
    if entries.len() == 0 {
        Set::empty()
    } else {
        intent_set(entries.drop_last()) + entries.last().related_intents@.to_set()
    }
}

/// `YYYY-MM-DD`.
pub open spec fn date_text(t: Timestamp) -> Seq<char> {
    padded(t.year as nat, 4) + "-"@ + padded(t.month as nat, 2) + "-"@ + padded(t.day as nat, 2)
}

/// The rollup's headline: how many memories the day holds.
pub open spec fn rollup_summary(count: nat, day: Timestamp) -> Seq<char> {
    decimal(count) + " memories on "@ + date_text(day)
}

/// Every detail line of every entry.
pub open spec fn detail_set(entries: Seq<MemoryEntry>) -> Set<Seq<char>>
    decreases entries.len(),
{
    if entries.len() == 0 {
        Set::empty()
    } else {
        detail_set(entries.drop_last()) + texts(entries.last().details@).to_set()
    }
}

/// `s` with `x` added at the end unless it is there already.
pub open spec fn dedup_push<A>(s: Seq<A>, x: A) -> Seq<A> {
    if s.contains(x) {
        s
    } else {
        s.push(x)
    }
}

/// The first occurrence of each element of `s`, in order.
pub open spec fn first_occurrences<A>(s: Seq<A>) -> Seq<A>
    decreases s.len(),
{
    if s.len() == 0 {
        s
    } else {
        dedup_push(first_occurrences(s.drop_last()), s.last())
    }
}

/// The anchors of all entries, entry after entry.
pub open spec fn all_anchors(entries: Seq<MemoryEntry>) -> Seq<(Seq<char>, Seq<char>)>
    decreases entries.len(),
{
    if entries.len() == 0 {
        Seq::empty()
    } else {
        all_anchors(entries.drop_last()) + anchor_views(entries.last().anchors@)
    }
}

/// The detail lines of all entries, entry after entry.
pub open spec fn all_details(entries: Seq<MemoryEntry>) -> Seq<Seq<char>>
    decreases entries.len(),
{
    if entries.len() == 0 {
        Seq::empty()
    } else {
        all_details(entries.drop_last()) + texts(entries.last().details@)
    }
}

/// The rollup keeps the id of the rollup it replaces; only the first one
/// of a day takes the fresh id.
pub open spec fn rollup_id(previous: Option<(u128, Timestamp)>, fresh_id: u128) -> u128 {
    match previous {
        Some(p) => p.0,
        None => fresh_id,
    }
}

fn date_chars(t: &Timestamp) -> (r: Vec<char>)
    requires
        t.wf(),
    ensures
        r@ == date_text(*t),
{
    proof {
        reveal_strlit("-");
    }
    let mut out = padded_chars(t.year as u64, 4);
    out.push('-');
    let m = padded_chars(t.month as u64, 2);
    append_chars(&mut out, &m);
    out.push('-');
    let d = padded_chars(t.day as u64, 2);
    append_chars(&mut out, &d);
    assert(out@ =~= date_text(*t));
    out
}

proof fn lemma_texts_push(s: Seq<String>, x: String)
    ensures
        texts(s.push(x)).to_set() == texts(s).to_set().insert(x@),
{
    assert(texts(s.push(x)) =~= texts(s).push(x@));
    texts(s).lemma_push_to_set_commute(x@);
}

/// Appends `x` unless a string with the same text is already there.
fn push_unique_text(out: &mut Vec<String>, x: &String)
    requires
        texts(old(out)@).no_duplicates(),
    ensures
        texts(final(out)@).no_duplicates(),
        texts(final(out)@).to_set() == texts(old(out)@).to_set().insert(x@),
        texts(final(out)@) == dedup_push(texts(old(out)@), x@),
{
    let mut i: usize = 0;
    while i < out.len()
        invariant
            out@ == old(out)@,
            texts(out@).no_duplicates(),
            i <= out@.len(),
            forall|j: int| 0 <= j < i ==> out@[j]@ != x@,
        decreases out@.len() - i,
    {
        if out[i] == *x {
            assert(texts(out@)[i as int] == x@);
            assert(texts(out@).contains(x@));
            assert(texts(out@).to_set().contains(x@));
            assert(texts(out@).to_set().insert(x@) =~= texts(out@).to_set());
            return;
        }
        i += 1;
    }
    let ghost before = out@;
    let copy = x.clone();
    out.push(copy);
    proof {
        lemma_texts_push(before, copy);
        assert(texts(out@) =~= texts(before).push(x@));
        assert(!texts(before).contains(x@)) by {
            if texts(before).contains(x@) {
                let k = choose|k: int| 0 <= k < texts(before).len() && texts(before)[k] == x@;
                assert(before[k]@ == x@);
            }
        }
    }
}

fn push_unique_anchor(out: &mut Vec<MemoryAnchor>, x: &MemoryAnchor)
    requires
        anchor_views(old(out)@).no_duplicates(),
    ensures
        anchor_views(final(out)@).no_duplicates(),
        anchor_views(final(out)@).to_set() == anchor_views(old(out)@).to_set().insert(x@),
        anchor_views(final(out)@) == dedup_push(anchor_views(old(out)@), x@),
{
    let mut i: usize = 0;
    while i < out.len()
        invariant
            out@ == old(out)@,
            anchor_views(out@).no_duplicates(),
            i <= out@.len(),
            forall|j: int| 0 <= j < i ==> out@[j]@ != x@,
        decreases out@.len() - i,
    {
        if out[i].same_as(x) {
            assert(anchor_views(out@)[i as int] == x@);
            assert(anchor_views(out@).contains(x@));
            assert(anchor_views(out@).to_set().contains(x@));
            assert(anchor_views(out@).to_set().insert(x@) =~= anchor_views(out@).to_set());
            return;
        }
        i += 1;
    }
    let ghost before = out@;
    let a = x.duplicate();
    out.push(a);
    proof {
        assert(anchor_views(out@) =~= anchor_views(before).push(x@));
        anchor_views(before).lemma_push_to_set_commute(x@);
        assert(!anchor_views(before).contains(x@)) by {
            if anchor_views(before).contains(x@) {
                let k = choose|k: int|
                    0 <= k < anchor_views(before).len() && anchor_views(before)[k] == x@;
                assert(before[k]@ == x@);
            }
        }
    }
}

fn push_unique_id(out: &mut Vec<u128>, x: u128)
    requires
        old(out)@.no_duplicates(),
    ensures
        final(out)@.no_duplicates(),
        final(out)@.to_set() == old(out)@.to_set().insert(x),
{
    let mut i: usize = 0;
    while i < out.len()
        invariant
            out@ == old(out)@,
            out@.no_duplicates(),
            i <= out@.len(),
            forall|j: int| 0 <= j < i ==> out@[j] != x,
        decreases out@.len() - i,
    {
        if out[i] == x {
            assert(out@.to_set().contains(x));
            assert(out@.to_set().insert(x) =~= out@.to_set());
            return;
        }
        i += 1;
    }
    let ghost before = out@;
    out.push(x);
    proof {
        before.lemma_push_to_set_commute(x);
    }
}

proof fn lemma_take_step<A>(s: Seq<A>, i: int)
    requires
        0 <= i < s.len(),
    ensures
        s.take(i + 1).drop_last() == s.take(i),
        s.take(i + 1).last() == s[i],
{
    assert(s.take(i + 1).drop_last() =~= s.take(i));
}

/// Folds one day's `L1` entries into its `L2` rollup: a headline with the
/// count and the date, and the union of the entries' detail lines, anchors,
/// tags and related intents, each without duplicates (detail lines and
/// anchors in order of first occurrence). The rollup keeps `previous`'s id and creation time when the
/// day already has one; otherwise it takes `fresh_id` and the first entry's
/// creation time. There is no rollup of a day without entries.
pub fn rollup_day(
    entries: &Vec<MemoryEntry>,
    previous: Option<(u128, Timestamp)>,
    fresh_id: u128,
    day: &Timestamp,
    now: &Timestamp,
) -> (r: Option<MemoryEntry>)
    requires
        day.wf(),
    ensures
        entries@.len() == 0 <==> r is None,
        r matches Some(m) ==> {
            &&& m.id == rollup_id(previous, fresh_id)
            &&& m.level == MemoryLevel::L2
            &&& m.summary@ == rollup_summary(entries@.len(), *day)
            &&& texts(m.details@).to_set() == detail_set(entries@)
            &&& texts(m.details@).no_duplicates()
            &&& texts(m.details@) == first_occurrences(all_details(entries@))
            &&& anchor_views(m.anchors@) == first_occurrences(all_anchors(entries@))
            &&& anchor_views(m.anchors@).to_set() == anchor_set(entries@)
            &&& anchor_views(m.anchors@).no_duplicates()
            &&& texts(m.tags@).to_set() == tag_set(entries@)
            &&& texts(m.tags@).no_duplicates()
            &&& m.related_intents@.to_set() == intent_set(entries@)
            &&& m.related_intents@.no_duplicates()
            &&& m.created_at == match previous {
                Some(p) => p.1,
                None => entries@[0].created_at,
            }
            &&& m.updated_at == *now
        },
{
    let n = entries.len();
    if n == 0 {
        return None;
    }
    let (id, created_at) = match previous {
        Some(p) => p,
        None => (fresh_id, entries[0].created_at),
    };
    let mut headline = decimal_chars(n as u64);
    append_str(&mut headline, " memories on ");
    let date = date_chars(day);
    append_chars(&mut headline, &date);

    let mut details: Vec<String> = Vec::new();
    let mut anchors: Vec<MemoryAnchor> = Vec::new();
    let mut tags: Vec<String> = Vec::new();
    let mut related: Vec<u128> = Vec::new();
    let mut k: usize = 0;
    while k < n
        invariant
            n == entries@.len(),
            k <= n,
            anchor_views(anchors@).no_duplicates(),
            texts(tags@).no_duplicates(),
            related@.no_duplicates(),
            texts(details@).no_duplicates(),
            texts(details@).to_set() == detail_set(entries@.take(k as int)),
            texts(details@) == first_occurrences(all_details(entries@.take(k as int))),
            anchor_views(anchors@) == first_occurrences(all_anchors(entries@.take(k as int))),
            anchor_views(anchors@).to_set() == anchor_set(entries@.take(k as int)),
            texts(tags@).to_set() == tag_set(entries@.take(k as int)),
            related@.to_set() == intent_set(entries@.take(k as int)),
        decreases n - k,
    {
        let entry = &entries[k];
        proof {
            lemma_take_step(entries@, k as int);
        }
        let ghost a0 = anchor_views(anchors@).to_set();
        let ghost aseq = all_anchors(entries@.take(k as int));
        let mut j: usize = 0;
        while j < entry.anchors.len()
            invariant
                k < entries@.len(),
                entry == entries@[k as int],
                j <= entry.anchors@.len(),
                anchor_views(anchors@) == first_occurrences(
                    aseq + anchor_views(entry.anchors@.take(j as int)),
                ),
                anchor_views(anchors@).no_duplicates(),
                anchor_views(anchors@).to_set() == a0 + anchor_views(
                    entry.anchors@.take(j as int),
                ).to_set(),
            decreases entry.anchors@.len() - j,
        {
            push_unique_anchor(&mut anchors, &entry.anchors[j]);
            proof {
                assert(anchor_views(entry.anchors@.take(j + 1)) =~= anchor_views(
                    entry.anchors@.take(j as int),
                ).push(entry.anchors@[j as int]@));
                anchor_views(entry.anchors@.take(j as int)).lemma_push_to_set_commute(
                    entry.anchors@[j as int]@,
                );
                let pa = aseq + anchor_views(entry.anchors@.take(j as int));
                let na = aseq + anchor_views(entry.anchors@.take(j + 1));
                assert(na =~= pa.push(entry.anchors@[j as int]@));
                assert(na.drop_last() =~= pa);
                assert(anchor_views(anchors@).to_set() =~= a0 + anchor_views(
                    entry.anchors@.take(j + 1),
                ).to_set());
            }
            j += 1;
        }
        assert(entry.anchors@.take(j as int) =~= entry.anchors@);
        assert(aseq + anchor_views(Seq::<MemoryAnchor>::empty()) =~= aseq);

        let ghost d0 = texts(details@).to_set();
        let ghost dseq = all_details(entries@.take(k as int));
        let mut j: usize = 0;
        while j < entry.details.len()
            invariant
                k < entries@.len(),
                entry == entries@[k as int],
                j <= entry.details@.len(),
                texts(details@) == first_occurrences(dseq + texts(entry.details@.take(j as int))),
                texts(details@).no_duplicates(),
                texts(details@).to_set() == d0 + texts(entry.details@.take(j as int)).to_set(),
            decreases entry.details@.len() - j,
        {
            push_unique_text(&mut details, &entry.details[j]);
            proof {
                assert(entry.details@.take(j + 1) =~= entry.details@.take(j as int).push(
                    entry.details@[j as int],
                ));
                lemma_texts_push(entry.details@.take(j as int), entry.details@[j as int]);
                assert(texts(details@).to_set() =~= d0 + texts(entry.details@.take(j + 1)).to_set());
                let pd = dseq + texts(entry.details@.take(j as int));
                let nd = dseq + texts(entry.details@.take(j + 1));
                assert(nd =~= pd.push(entry.details@[j as int]@));
                assert(nd.drop_last() =~= pd);
            }
            j += 1;
        }
        assert(entry.details@.take(j as int) =~= entry.details@);

        let ghost t0 = texts(tags@).to_set();
        let mut j: usize = 0;
        while j < entry.tags.len()
            invariant
                k < entries@.len(),
                entry == entries@[k as int],
                j <= entry.tags@.len(),
                texts(tags@).no_duplicates(),
                texts(tags@).to_set() == t0 + texts(entry.tags@.take(j as int)).to_set(),
            decreases entry.tags@.len() - j,
        {
            push_unique_text(&mut tags, &entry.tags[j]);
            proof {
                assert(entry.tags@.take(j + 1) =~= entry.tags@.take(j as int).push(
                    entry.tags@[j as int],
                ));
                lemma_texts_push(entry.tags@.take(j as int), entry.tags@[j as int]);
                assert(texts(tags@).to_set() =~= t0 + texts(entry.tags@.take(j + 1)).to_set());
            }
            j += 1;
        }
        assert(entry.tags@.take(j as int) =~= entry.tags@);

        let ghost r0 = related@.to_set();
        let mut j: usize = 0;
        while j < entry.related_intents.len()
            invariant
                k < entries@.len(),
                entry == entries@[k as int],
                j <= entry.related_intents@.len(),
                related@.no_duplicates(),
                related@.to_set() == r0 + entry.related_intents@.take(j as int).to_set(),
            decreases entry.related_intents@.len() - j,
        {
            push_unique_id(&mut related, entry.related_intents[j]);
            proof {
                assert(entry.related_intents@.take(j + 1) =~= entry.related_intents@.take(
                    j as int,
                ).push(entry.related_intents@[j as int]));
                entry.related_intents@.take(j as int).lemma_push_to_set_commute(
                    entry.related_intents@[j as int],
                );
                assert(related@.to_set() =~= r0 + entry.related_intents@.take(j + 1).to_set());
            }
            j += 1;
        }
        assert(entry.related_intents@.take(j as int) =~= entry.related_intents@);
        k += 1;
    }
    assert(entries@.take(n as int) =~= entries@);
    assert(headline@ =~= rollup_summary(entries@.len(), *day));
    Some(
        MemoryEntry {
            id,
            level: MemoryLevel::L2,
            summary: string_of(&headline),
            details,
            anchors,
            tags,
            related_intents: related,
            created_at,
            updated_at: *now,
        },
    )
}

/// A day's rollup is stable across rebuilds: when another `L1` entry joins
/// the day and the rollup is rebuilt from the one before, the id stays the
/// same, and the detail lines, anchors, tags and related intents become the
/// old ones plus those of the new entry.
pub proof fn lemma_rollup_rebuild_stable(
    entries: Seq<MemoryEntry>,
    added: MemoryEntry,
    previous: (u128, Timestamp),
    fresh_id: u128,
)
    ensures
        rollup_id(Some(previous), fresh_id) == previous.0,
        anchor_set(entries.push(added)) == anchor_set(entries) + anchor_views(
            added.anchors@,
        ).to_set(),
        tag_set(entries.push(added)) == tag_set(entries) + texts(added.tags@).to_set(),
        detail_set(entries.push(added)) == detail_set(entries) + texts(added.details@).to_set(),
        intent_set(entries.push(added)) == intent_set(entries) + added.related_intents@.to_set(),
{
    assert(entries.push(added).drop_last() =~= entries);
}

/// What `str::to_lowercase` gives for a text; it depends on the text alone.
pub uninterp spec fn lower_of(s: Seq<char>) -> Seq<char>;

/// Whether `char::is_alphanumeric` holds of a character.
pub uninterp spec fn alphanumeric(c: char) -> bool;

/// Relies on `str::to_lowercase`: the result depends on the text alone, and
/// the empty text stays empty.
#[verifier::external_body]
fn lowercase(s: &str) -> (r: String)
    ensures
        r@ == lower_of(s@),
        s@.len() == 0 ==> r@.len() == 0,
{
    s.to_lowercase()
}

/// Relies on `char::is_alphanumeric` (Unicode Alphabetic or Numeric).
#[verifier::external_body]
fn is_alphanumeric(c: char) -> (r: bool)
    ensures
        r == alphanumeric(c),
{
    c.is_alphanumeric()
}

/// Bytes of a character in UTF-8.
pub open spec fn utf8_width(c: char) -> nat {
    if (c as u32) < 0x80 {
        1
    } else if (c as u32) < 0x800 {
        2
    } else if (c as u32) < 0x10000 {
        3
    } else {
        4
    }
}

/// Bytes of a text in UTF-8.
pub open spec fn byte_len(s: Seq<char>) -> nat
    decreases s.len(),
{
    if s.len() == 0 {
        0
    } else {
        byte_len(s.drop_last()) + utf8_width(s.last())
    }
}

fn utf8_width_of(c: char) -> (r: usize)
    ensures
        r as nat == utf8_width(c),
        1 <= r <= 4,
{
    let u = #[verifier::truncate] (c as u32);
    assert(u == c as u32);
    if u < 0x80 {
        1
    } else if u < 0x800 {
        2
    } else if u < 0x10000 {
        3
    } else {
        4
    }
}

/// The longest prefix of `s` that fits in `max` bytes.
pub open spec fn fitting_prefix(s: Seq<char>, max: nat) -> nat
    decreases s.len(),
{
    if s.len() == 0 || byte_len(s) <= max {
        s.len()
    } else {
        fitting_prefix(s.drop_last(), max)
    }
}

/// `s` if it fits in `max` bytes, else its longest prefix that does,
/// followed by an ellipsis.
pub open spec fn truncated(s: Seq<char>, max: nat) -> Seq<char> {
    if byte_len(s) <= max {
        s
    } else {
        s.take(fitting_prefix(s, max) as int) + "…"@
    }
}

proof fn lemma_fitting_prefix(s: Seq<char>, max: nat, k: int)
    requires
        0 <= k <= s.len(),
        byte_len(s.take(k)) <= max,
        forall|j: int| k < j <= s.len() ==> byte_len(#[trigger] s.take(j)) > max,
    ensures
        fitting_prefix(s, max) == k,
    decreases s.len(),
{
    assert(s.take(s.len() as int) =~= s);
    if s.len() as int == k {
    } else {
        assert(byte_len(s) > max);
        assert forall|j: int| k < j <= s.drop_last().len() implies byte_len(
            #[trigger] s.drop_last().take(j),
        ) > max by {
            assert(s.drop_last().take(j) =~= s.take(j));
        }
        assert(s.drop_last().take(k) =~= s.take(k));
        lemma_fitting_prefix(s.drop_last(), max, k);
    }
}

proof fn lemma_byte_len_monotone(s: Seq<char>, i: int, j: int)
    requires
        0 <= i <= j <= s.len(),
    ensures
        byte_len(s.take(i)) <= byte_len(s.take(j)),
    decreases j - i,
{
    if i < j {
        lemma_byte_len_monotone(s, i, j - 1);
        assert(s.take(j).drop_last() =~= s.take(j - 1));
    }
}

/// `value` cut to at most `max` bytes, marked with an ellipsis when cut.
pub fn truncate(value: &str, max: usize) -> (r: String)
    ensures
        r@ == truncated(value@, max as nat),
{
    let s = chars_of(value);
    let mut k: usize = 0;
    let mut used: usize = 0;
    let mut full = false;
    assert(s@.take(0) =~= Seq::<char>::empty());
    while k < s.len() && !full
        invariant
            k <= s@.len(),
            used as nat == byte_len(s@.take(k as int)),
            used <= max,
            full ==> k < s@.len() && byte_len(s@.take(k + 1)) > max,
        decreases s@.len() - k + (if full { 0int } else { 1 }),
    {
        let w = utf8_width_of(s[k]);
        assert(s@.take(k + 1).drop_last() =~= s@.take(k as int));
        if w > max - used {
            full = true;
        } else {
            used = used + w;
            k += 1;
        }
    }
    if !full {
        assert(s@.take(k as int) =~= s@);
        return string_of(&s);
    }
    proof {
        assert forall|j: int| k < j <= s@.len() implies byte_len(#[trigger] s@.take(j)) > max by {
            lemma_byte_len_monotone(s@, k + 1, j);
        }
        lemma_fitting_prefix(s@, max as nat, k as int);
        assert(s@.take(s@.len() as int) =~= s@);
        lemma_byte_len_monotone(s@, k + 1, s@.len() as int);
    }
    let mut out = slice(&s, 0, k);
    append_str(&mut out, "…");
    string_of(&out)
}

/// `s` without leading and trailing characters that are not alphanumeric.
pub open spec fn strip_non_alnum(s: Seq<char>) -> Seq<char>
    decreases s.len(),
{
    if s.len() > 0 && !alphanumeric(s[0]) {
        strip_non_alnum(s.drop_first())
    } else if s.len() > 0 && !alphanumeric(s.last()) {
        strip_non_alnum(s.drop_last())
    } else {
        s
    }
}

proof fn lemma_strip_non_alnum(s: Seq<char>, a: int, b: int)
    requires
        0 <= a <= b <= s.len(),
        forall|j: int| 0 <= j < a ==> !alphanumeric(s[j]),
        forall|j: int| b <= j < s.len() ==> !alphanumeric(s[j]),
        a == b || (alphanumeric(s[a]) && alphanumeric(s[b - 1])),
    ensures
        strip_non_alnum(s) == s.subrange(a, b),
    decreases s.len(),
{
    if a > 0 {
        let t = s.drop_first();
        assert forall|j: int| b - 1 <= j < t.len() implies !alphanumeric(t[j]) by {
            assert(t[j] == s[j + 1]);
        }
        lemma_strip_non_alnum(t, a - 1, b - 1);
        assert(t.subrange(a - 1, b - 1) =~= s.subrange(a, b));
    } else if b < s.len() {
        let t = s.drop_last();
        if s.len() > 0 && !alphanumeric(s[0]) {
            assert(a == b);
            assert(b == 0);
            let u = s.drop_first();
            lemma_strip_non_alnum(u, 0, 0);
            assert(u.subrange(0, 0) =~= s.subrange(0, 0));
        } else {
            lemma_strip_non_alnum(t, a, b);
            assert(t.subrange(a, b) =~= s.subrange(a, b));
        }
    } else {
        assert(s.subrange(a, b) =~= s);
        if a < b {
            assert(alphanumeric(s[0]));
            assert(alphanumeric(s.last()));
        }
    }
}

/// Splitting at white space: finished words and the one in progress.
pub open spec fn word_state(s: Seq<char>) -> (Seq<Seq<char>>, Seq<char>)
    decreases s.len(),
{
    if s.len() == 0 {
        (Seq::empty(), Seq::empty())
    } else {
        let (done, cur) = word_state(s.drop_last());
        if is_space(s.last()) {
            if cur.len() > 0 {
                (done.push(cur), Seq::empty())
            } else {
                (done, cur)
            }
        } else {
            (done, cur.push(s.last()))
        }
    }
}

/// The words of `s`, as `str::split_whitespace` gives them.
pub open spec fn words(s: Seq<char>) -> Seq<Seq<char>> {
    let (done, cur) = word_state(s);
    if cur.len() > 0 {
        done.push(cur)
    } else {
        done
    }
}

pub open spec fn add_unique(s: Seq<Seq<char>>, x: Seq<char>) -> Seq<Seq<char>> {
    if s.contains(x) {
        s
    } else {
        s.push(x)
    }
}

/// The tag a word gives: lower case, without non-alphanumeric ends.
pub open spec fn word_tag(w: Seq<char>) -> Seq<char> {
    lower_of(strip_non_alnum(w))
}

/// The tags after reading the first `n` words: a word's tag is kept when it
/// has at least three bytes, and reading stops once there are eight tags.
pub open spec fn tags_after(ws: Seq<Seq<char>>, n: nat, base: Seq<Seq<char>>) -> Seq<Seq<char>>
    decreases n,
{
    if n == 0 || n > ws.len() {
        base
    } else {
        let prev = tags_after(ws, (n - 1) as nat, base);
        if prev.len() >= 8 {
            prev
        } else if byte_len(word_tag(ws[n - 1])) >= 3 {
            add_unique(prev, word_tag(ws[n - 1]))
        } else {
            prev
        }
    }
}

/// The tags of an intent: its source in lower case, then the tags of the
/// words of its summary.
pub open spec fn intent_tags(source: Seq<char>, summary: Seq<char>) -> Seq<Seq<char>> {
    tags_after(words(summary), words(summary).len(), seq![lower_of(source)])
}

fn split_words(s: &Vec<char>) -> (r: Vec<Vec<char>>)
    ensures
        char_views(r@) == words(s@),
{
    let mut out: Vec<Vec<char>> = Vec::new();
    let mut cur: Vec<char> = Vec::new();
    let mut i: usize = 0;
    assert(s@.subrange(0, 0) =~= Seq::<char>::empty());
    while i < s.len()
        invariant
            i <= s@.len(),
            char_views(out@) == word_state(s@.subrange(0, i as int)).0,
            cur@ == word_state(s@.subrange(0, i as int)).1,
        decreases s@.len() - i,
    {
        assert(s@.subrange(0, i + 1).drop_last() =~= s@.subrange(0, i as int));
        if is_space_char(s[i]) {
            if cur.len() > 0 {
                let mut w: Vec<char> = Vec::new();
                std::mem::swap(&mut w, &mut cur);
                let ghost before = out@;
                let ghost wv = w@;
                out.push(w);
                assert(char_views(out@) =~= char_views(before).push(wv));
            }
        } else {
            cur.push(s[i]);
        }
        i += 1;
    }
    assert(s@.subrange(0, s@.len() as int) =~= s@);
    if cur.len() > 0 {
        let ghost before = out@;
        let ghost c = cur@;
        out.push(cur);
        assert(char_views(out@) =~= char_views(before).push(c));
    }
    out
}

fn tag_of_word(w: &Vec<char>) -> (r: Vec<char>)
    ensures
        r@ == word_tag(w@),
{
    let mut a: usize = 0;
    while a < w.len() && !is_alphanumeric(w[a])
        invariant
            a <= w@.len(),
            forall|j: int| 0 <= j < a ==> !alphanumeric(w@[j]),
        decreases w@.len() - a,
    {
        a += 1;
    }
    let mut b: usize = w.len();
    while b > a && !is_alphanumeric(w[b - 1])
        invariant
            a <= b <= w@.len(),
            forall|j: int| b <= j < w@.len() ==> !alphanumeric(w@[j]),
        decreases b - a,
    {
        b -= 1;
    }
    proof {
        lemma_strip_non_alnum(w@, a as int, b as int);
    }
    let core = slice(w, a, b);
    let text = string_of(&core);
    let lower = lowercase(text.as_str());
    chars_of(lower.as_str())
}

fn byte_len_of(s: &Vec<char>) -> (r: usize)
    requires
        s@.len() <= usize::MAX / 4,
    ensures
        r as nat == byte_len(s@),
{
    let mut total: usize = 0;
    let mut i: usize = 0;
    assert(s@.take(0) =~= Seq::<char>::empty());
    while i < s.len()
        invariant
            i <= s@.len() <= usize::MAX / 4,
            total as nat == byte_len(s@.take(i as int)),
            total <= 4 * i,
        decreases s@.len() - i,
    {
        assert(s@.take(i + 1).drop_last() =~= s@.take(i as int));
        total = total + utf8_width_of(s[i]);
        i += 1;
    }
    assert(s@.take(s@.len() as int) =~= s@);
    total
}

fn push_unique_chars(out: &mut Vec<Vec<char>>, x: Vec<char>)
    ensures
        char_views(final(out)@) == add_unique(char_views(old(out)@), x@),
        final(out)@.len() <= old(out)@.len() + 1,
{
    let mut i: usize = 0;
    while i < out.len()
        invariant
            out@ == old(out)@,
            i <= out@.len(),
            forall|j: int| 0 <= j < i ==> out@[j]@ != x@,
        decreases out@.len() - i,
    {
        if crate::text::same_chars(&out[i], &x) {
            assert(char_views(out@)[i as int] == x@);
            return;
        }
        i += 1;
    }
    let ghost before = out@;
    let ghost xv = x@;
    out.push(x);
    assert(!char_views(before).contains(xv)) by {
        if char_views(before).contains(xv) {
            let k = choose|k: int| 0 <= k < before.len() && char_views(before)[k] == xv;
            assert(before[k]@ == xv);
        }
    }
    assert(char_views(out@) =~= char_views(before).push(xv));
}

proof fn lemma_tags_after_len(ws: Seq<Seq<char>>, n: nat, base: Seq<Seq<char>>)
    ensures
        tags_after(ws, n, base).len() <= base.len() + n,
    decreases n,
{
    if n > 0 && n <= ws.len() {
        lemma_tags_after_len(ws, (n - 1) as nat, base);
    }
}

/// The tags of an intent, derived from its source and summary: at most
/// eight distinct ones (more only when the source alone gives them).
pub fn derive_tags(intent: &Intent) -> (r: Vec<String>)
    ensures
        texts(r@) == intent_tags(intent.source@, intent.summary@),
{
    let src = lowercase(intent.source.as_str());
    let mut tags: Vec<Vec<char>> = Vec::new();
    tags.push(chars_of(src.as_str()));
    let ghost base = char_views(tags@);
    assert(base =~= seq![lower_of(intent.source@)]);
    let text = chars_of(intent.summary.as_str());
    let ws = split_words(&text);
    let ghost wv = char_views(ws@);
    let mut i: usize = 0;
    while i < ws.len()
        invariant
            i <= ws@.len(),
            wv == char_views(ws@),
            wv == words(intent.summary@),
            base == seq![lower_of(intent.source@)],
            char_views(tags@) == tags_after(wv, i as nat, base),
            tags@.len() <= 9,
        decreases ws@.len() - i,
    {
        if tags.len() >= 8 {
            proof {
                let mut k: nat = (i + 1) as nat;
                assert forall|m: nat| i < m <= wv.len() implies tags_after(wv, m, base) == tags_after(wv, i as nat, base) by {
                    lemma_tags_stop(wv, i as nat, m, base);
                }
            }
            i = ws.len();
        } else {
            let tag = tag_of_word(&ws[i]);
            assert(wv[i as int] == ws@[i as int]@);
            if tag.len() <= usize::MAX / 4 && byte_len_of(&tag) >= 3 {
                push_unique_chars(&mut tags, tag);
            } else if tag.len() > usize::MAX / 4 {
                proof {
                    lemma_byte_len_at_least(tag@);
                }
                push_unique_chars(&mut tags, tag);
            }
            i += 1;
        }
    }
    assert(char_views(tags@) == tags_after(wv, wv.len(), base));
    let mut out: Vec<String> = Vec::new();
    let mut j: usize = 0;
    while j < tags.len()
        invariant
            j <= tags@.len(),
            texts(out@) == char_views(tags@).take(j as int),
        decreases tags@.len() - j,
    {
        let ghost before = out@;
        let t = string_of(&tags[j]);
        assert(char_views(tags@)[j as int] == tags@[j as int]@);
        let ghost tv = t@;
        out.push(t);
        assert(texts(out@) =~= texts(before).push(tv));
        assert(texts(out@) =~= char_views(tags@).take(j + 1));
        j += 1;
    }
    assert(char_views(tags@).take(tags@.len() as int) =~= char_views(tags@));
    out
}

proof fn lemma_tags_stop(ws: Seq<Seq<char>>, i: nat, m: nat, base: Seq<Seq<char>>)
    requires
        i < m <= ws.len(),
        tags_after(ws, i, base).len() >= 8,
    ensures
        tags_after(ws, m, base) == tags_after(ws, i, base),
    decreases m - i,
{
    if m - 1 > i {
        lemma_tags_stop(ws, i, (m - 1) as nat, base);
    }
}

proof fn lemma_byte_len_at_least(s: Seq<char>)
    ensures
        byte_len(s) >= s.len(),
    decreases s.len(),
{
    if s.len() > 0 {
        lemma_byte_len_at_least(s.drop_last());
    }
}

/// `s` without its trailing slashes.
pub open spec fn without_trailing_slashes(s: Seq<char>) -> Seq<char>
    decreases s.len(),
{
    if s.len() > 0 && s.last() == '/' {
        without_trailing_slashes(s.drop_last())
    } else {
        s
    }
}

/// `s` without its leading slashes.
pub open spec fn without_leading_slashes(s: Seq<char>) -> Seq<char>
    decreases s.len(),
{
    if s.len() > 0 && s[0] == '/' {
        without_leading_slashes(s.drop_first())
    } else {
        s
    }
}

/// `path` relative to the directory `base`, when it lies under it.
pub open spec fn relative_to(base: Seq<char>, path: Seq<char>) -> Option<Seq<char>> {
    let b = without_trailing_slashes(base);
    if path == b {
        Some(Seq::empty())
    } else if starts_with(path, b + "/"@) {
        Some(without_leading_slashes(path.subrange(b.len() as int + 1, path.len() as int)))
    } else {
        None
    }
}

fn drop_trailing_slashes(s: &Vec<char>) -> (r: Vec<char>)
    ensures
        r@ == without_trailing_slashes(s@),
{
    let mut b: usize = s.len();
    assert(s@.subrange(0, s@.len() as int) =~= s@);
    while b > 0 && s[b - 1] == '/'
        invariant
            b <= s@.len(),
            without_trailing_slashes(s@) == without_trailing_slashes(s@.subrange(0, b as int)),
        decreases b,
    {
        assert(s@.subrange(0, b as int).drop_last() =~= s@.subrange(0, b - 1));
        b -= 1;
    }
    slice(s, 0, b)
}

fn drop_leading_slashes(s: &Vec<char>) -> (r: Vec<char>)
    ensures
        r@ == without_leading_slashes(s@),
{
    let mut a: usize = 0;
    assert(s@.subrange(0, s@.len() as int) =~= s@);
    while a < s.len() && s[a] == '/'
        invariant
            a <= s@.len(),
            without_leading_slashes(s@) == without_leading_slashes(s@.subrange(a as int, s@.len() as int)),
        decreases s@.len() - a,
    {
        assert(s@.subrange(a as int, s@.len() as int).drop_first() =~= s@.subrange(a + 1, s@.len() as int));
        a += 1;
    }
    slice(s, a, s.len())
}

/// An anchor with `label` for `path`, when `path` lies under the data
/// directory; its path is then relative to it.
pub fn to_anchor(data_dir: &str, label: &str, path: &str) -> (r: Option<MemoryAnchor>)
    ensures
        r is None <==> relative_to(data_dir@, path@) is None,
        r matches Some(a) ==> a.label@ == label@ && Some(a.path@) == relative_to(data_dir@, path@),
{
    let d = chars_of(data_dir);
    let p = chars_of(path);
    let b = drop_trailing_slashes(&d);
    if crate::text::same_chars(&p, &b) {
        return Some(MemoryAnchor { label: String::from_str(label), path: String::new() });
    }
    let mut prefix = b;
    let ghost bv = prefix@;
    prefix.push('/');
    proof {
        reveal_strlit("/");
        assert(prefix@ =~= bv + "/"@);
    }
    if has_prefix(&p, &prefix) {
        let rest = slice(&p, prefix.len(), p.len());
        let rel = drop_leading_slashes(&rest);
        Some(MemoryAnchor { label: String::from_str(label), path: string_of(&rel) })
    } else {
        None
    }
}

/// The `L1` summary of a processed intent: its summary, then its final
/// answer cut to 160 bytes.
pub open spec fn l1_summary(summary: Seq<char>, final_answer: Seq<char>) -> Seq<char> {
    summary + " ⇒ "@ + truncated(final_answer, 160)
}

/// The `L1` detail lines: source, final answer and, if there is a step, the
/// first observation.
pub open spec fn l1_details(source: Seq<char>, outcome: AgentOutcome) -> Seq<Seq<char>> {
    let base = seq!["Source: "@ + source, "Final: "@ + outcome.final_answer@];
    if outcome.steps@.len() > 0 {
        base.push("First observation: "@ + outcome.steps@[0].observation@)
    } else {
        base
    }
}

/// The anchors of a processed intent: its history file, then its journal,
/// each when it lies under the data directory.
pub open spec fn l1_anchors(data_dir: Seq<char>, journal_path: Seq<char>, history_path: Option<Seq<char>>) -> Seq<(Seq<char>, Seq<char>)> {
    let h = match history_path {
        Some(p) => match relative_to(data_dir, p) {
            Some(rel) => seq![("intent/history"@, rel)],
            None => Seq::empty(),
        },
        None => Seq::empty(),
    };
    match relative_to(data_dir, journal_path) {
        Some(rel) => h.push(("journals"@, rel)),
        None => h,
    }
}

/// The `L1` memory of one successfully processed intent.
pub fn memory_l1_entry(
    data_dir: &str,
    intent: &Intent,
    outcome: &AgentOutcome,
    journal_path: &str,
    history_path: Option<&str>,
    id: u128,
    now: Timestamp,
) -> (r: MemoryEntry)
    ensures
        r.id == id,
        r.level == MemoryLevel::L1,
        r.summary@ == l1_summary(intent.summary@, outcome.final_answer@),
        texts(r.details@) == l1_details(intent.source@, *outcome),
        anchor_views(r.anchors@) == l1_anchors(
            data_dir@,
            journal_path@,
            match history_path {
                Some(p) => Some(p@),
                None => None,
            },
        ),
        texts(r.tags@) == intent_tags(intent.source@, intent.summary@),
        r.related_intents@ == seq![intent.id],
        r.created_at == now,
        r.updated_at == now,
{
    let mut anchors: Vec<MemoryAnchor> = Vec::new();
    match history_path {
        Some(h) => {
            match to_anchor(data_dir, "intent/history", h) {
                Some(a) => anchors.push(a),
                None => {},
            }
        },
        None => {},
    }
    let ghost before = anchors@;
    match to_anchor(data_dir, "journals", journal_path) {
        Some(a) => {
            anchors.push(a);
        },
        None => {},
    }
    assert(anchor_views(anchors@) =~= l1_anchors(
        data_dir@,
        journal_path@,
        match history_path {
            Some(p) => Some(p@),
            None => None,
        },
    ));
    let tags = derive_tags(intent);
    let cut = truncate(outcome.final_answer.as_str(), 160);
    let mut summary: Vec<char> = Vec::new();
    append_str(&mut summary, intent.summary.as_str());
    append_str(&mut summary, " ⇒ ");
    append_str(&mut summary, cut.as_str());
    let mut details: Vec<String> = Vec::new();
    let mut line: Vec<char> = Vec::new();
    append_str(&mut line, "Source: ");
    append_str(&mut line, intent.source.as_str());
    details.push(string_of(&line));
    let mut line: Vec<char> = Vec::new();
    append_str(&mut line, "Final: ");
    append_str(&mut line, outcome.final_answer.as_str());
    details.push(string_of(&line));
    if outcome.steps.len() > 0 {
        let mut line: Vec<char> = Vec::new();
        append_str(&mut line, "First observation: ");
        append_str(&mut line, outcome.steps[0].observation.as_str());
        details.push(string_of(&line));
    }
    assert(texts(details@) =~= l1_details(intent.source@, *outcome));
    let mut related: Vec<u128> = Vec::new();
    related.push(intent.id);
    assert(related@ =~= seq![intent.id]);
    MemoryEntry {
        id,
        level: MemoryLevel::L1,
        summary: string_of(&summary),
        details,
        anchors,
        tags,
        related_intents: related,
        created_at: now,
        updated_at: now,
    }
}

/// `L1` or `L2`, in any ASCII case.
pub fn parse_memory_level(raw: &str) -> (r: Option<MemoryLevel>)
    ensures
        eq_ignore_ascii_case(raw@, "L1"@) ==> r == Some(MemoryLevel::L1),
        eq_ignore_ascii_case(raw@, "L2"@) ==> r == Some(MemoryLevel::L2),
        !eq_ignore_ascii_case(raw@, "L1"@) && !eq_ignore_ascii_case(raw@, "L2"@) ==> r is None,
{
    proof {
        reveal_strlit("L1");
        reveal_strlit("L2");
        if eq_ignore_ascii_case(raw@, "L2"@) {
            assert(crate::text::same_ignoring_ascii_case(raw@[1], '2'));
            assert(!crate::text::same_ignoring_ascii_case(raw@[1], '1'));
        }
    }
    let c = chars_of(raw);
    if eq_ignore_ascii_case_chars(&c, "L1") {
        Some(MemoryLevel::L1)
    } else if eq_ignore_ascii_case_chars(&c, "L2") {
        Some(MemoryLevel::L2)
    } else {
        None
    }
}

/// Which memories to list: of one level, at most `limit`, none created
/// before `since`, and only those with `tag` (in any ASCII case).
#[derive(Debug)]
pub struct MemoryQuery {
    pub level: MemoryLevel,
    pub limit: usize,
    pub since: Option<Timestamp>,
    pub tag: Option<String>,
}

impl MemoryQuery {
    /// The daily rollups, at most twenty.
    pub fn new() -> (r: MemoryQuery)
        ensures
            r.level == MemoryLevel::L2,
            r.limit == 20,
            r.since is None,
            r.tag is None,
    {
        MemoryQuery { level: MemoryLevel::L2, limit: 20, since: None, tag: None }
    }
}

pub open spec fn memory_passes(since: Option<Timestamp>, tag: Option<Seq<char>>, e: MemoryEntry) -> bool {
    &&& (since matches Some(t) ==> t.key() <= e.created_at.key())
    &&& (tag matches Some(g) ==> exists|k: int|
        0 <= k < e.tags@.len() && eq_ignore_ascii_case(#[trigger] e.tags@[k]@, g))
}

/// Where `x` goes in the newest-first list `t`: before the first entry
/// created strictly earlier.
pub open spec fn newest_slot(t: Seq<MemoryEntry>, x: MemoryEntry) -> nat
    decreases t.len(),
{
    if t.len() == 0 || t[0].created_at.key() < x.created_at.key() {
        0
    } else {
        1 + newest_slot(t.drop_first(), x)
    }
}

/// `s` newest first; entries created at the same time keep their order.
pub open spec fn newest_first(s: Seq<MemoryEntry>) -> Seq<MemoryEntry>
    decreases s.len(),
{
    if s.len() == 0 {
        s
    } else {
        let t = newest_first(s.drop_last());
        t.insert(newest_slot(t, s.last()) as int, s.last())
    }
}

/// The listed memories: those passing the filters, newest first, at most
/// `limit` of them.
pub open spec fn selected(limit: nat, since: Option<Timestamp>, tag: Option<Seq<char>>, s: Seq<MemoryEntry>) -> Seq<MemoryEntry> {
    let f = newest_first(s.filter(|e: MemoryEntry| memory_passes(since, tag, e)));
    if f.len() > limit {
        f.take(limit as int)
    } else {
        f
    }
}

pub open spec fn tag_view(tag: Option<String>) -> Option<Seq<char>> {
    match tag {
        Some(g) => Some(g@),
        None => None,
    }
}

proof fn lemma_newest_slot(t: Seq<MemoryEntry>, x: MemoryEntry, j: int)
    requires
        0 <= j <= t.len(),
        forall|k: int| 0 <= k < j ==> (#[trigger] t[k]).created_at.key() >= x.created_at.key(),
        j == t.len() || t[j].created_at.key() < x.created_at.key(),
    ensures
        newest_slot(t, x) == j,
    decreases j,
{
    if j > 0 {
        assert(t[0].created_at.key() >= x.created_at.key());
        lemma_newest_slot(t.drop_first(), x, j - 1);
    }
}

proof fn lemma_newest_slot_bound(t: Seq<MemoryEntry>, x: MemoryEntry)
    ensures
        newest_slot(t, x) <= t.len(),
    decreases t.len(),
{
    if t.len() > 0 && !(t[0].created_at.key() < x.created_at.key()) {
        lemma_newest_slot_bound(t.drop_first(), x);
    }
}

pub open spec fn entries_wf(s: Seq<MemoryEntry>) -> bool {
    forall|i: int| 0 <= i < s.len() ==> (#[trigger] s[i]).created_at.wf()
}

proof fn lemma_newest_first_wf(s: Seq<MemoryEntry>)
    requires
        entries_wf(s),
    ensures
        entries_wf(newest_first(s)),
        newest_first(s).len() == s.len(),
    decreases s.len(),
{
    if s.len() > 0 {
        lemma_newest_first_wf(s.drop_last());
        let t = newest_first(s.drop_last());
        lemma_newest_slot_bound(t, s.last());
        let p = newest_slot(t, s.last()) as int;
        let u = t.insert(p, s.last());
        assert forall|i: int| 0 <= i < u.len() implies (#[trigger] u[i]).created_at.wf() by {
            if i < p {
                assert(u[i] == t[i]);
            } else if i > p {
                assert(u[i] == t[i - 1]);
            }
        }
    }
}

fn has_tag(e: &MemoryEntry, tag: &String) -> (r: bool)
    ensures
        r == exists|k: int| 0 <= k < e.tags@.len() && eq_ignore_ascii_case(#[trigger] e.tags@[k]@, tag@),
{
    let mut i: usize = 0;
    while i < e.tags.len()
        invariant
            i <= e.tags@.len(),
            forall|k: int| 0 <= k < i ==> !eq_ignore_ascii_case(#[trigger] e.tags@[k]@, tag@),
        decreases e.tags@.len() - i,
    {
        let c = chars_of(e.tags[i].as_str());
        if eq_ignore_ascii_case_chars(&c, tag.as_str()) {
            return true;
        }
        i += 1;
    }
    false
}

/// Lists memories for `query`: those passing its filters, newest first
/// (equal times keep their order), at most `limit` of them.
pub fn select_memories(entries: Vec<MemoryEntry>, query: &MemoryQuery) -> (r: Vec<MemoryEntry>)
    requires
        entries_wf(entries@),
        query.since matches Some(t) ==> t.wf(),
    ensures
        r@ == selected(query.limit as nat, query.since, tag_view(query.tag), entries@),
{
    let ghost all = entries@;
    let ghost pass = |e: MemoryEntry| memory_passes(query.since, tag_view(query.tag), e);
    let mut rest = entries;
    let mut out: Vec<MemoryEntry> = Vec::new();
    let ghost mut taken: nat = 0;
    let ghost total = all.len();
    proof {
        assert(all.take(0) =~= Seq::<MemoryEntry>::empty());
        reveal_with_fuel(Seq::filter, 1);
    }
    while rest.len() > 0
        invariant
            taken + rest@.len() == total,
            total == all.len(),
            rest@ == all.subrange(taken as int, total as int),
            out@ == newest_first(all.take(taken as int).filter(pass)),
            entries_wf(all),
            entries_wf(out@),
            query.since matches Some(t) ==> t.wf(),
            pass == (|e: MemoryEntry| memory_passes(query.since, tag_view(query.tag), e)),
        decreases rest@.len(),
    {
        let x = rest.remove(0);
        assert(rest@ =~= all.subrange(taken as int + 1, total as int));
        assert(x == all[taken as int]);
        assert(x.created_at.wf());
        let ghost pre = all.take(taken as int);
        let ghost next = all.take(taken as int + 1);
        assert(next.drop_last() =~= pre);
        assert(next.last() == x);
        proof {
            reveal_with_fuel(Seq::filter, 1);
        }
        let time_ok = match &query.since {
            Some(t) => t.not_after(&x.created_at),
            None => true,
        };
        let tag_ok = match &query.tag {
            Some(g) => has_tag(&x, g),
            None => true,
        };
        if time_ok && tag_ok {
            assert(pass(x));
            assert(next.filter(pass) == pre.filter(pass).push(x));
            let mut j: usize = 0;
            while j < out.len() && x.created_at.not_after(&out[j].created_at)
                invariant
                    x.created_at.wf(),
                    entries_wf(out@),
                    j <= out@.len(),
                    forall|k: int|
                        0 <= k < j ==> (#[trigger] out@[k]).created_at.key() >= x.created_at.key(),
                decreases out@.len() - j,
            {
                j += 1;
            }
            proof {
                lemma_newest_slot(out@, x, j as int);
                assert(next.filter(pass).drop_last() =~= pre.filter(pass));
            }
            let ghost before = out@;
            out.insert(j, x);
            assert forall|i: int| 0 <= i < out@.len() implies (#[trigger] out@[i]).created_at.wf() by {
                if i < j {
                    assert(out@[i] == before[i]);
                } else if i > j {
                    assert(out@[i] == before[i - 1]);
                }
            }
        } else {
            assert(!pass(x));
            assert(next.filter(pass) == pre.filter(pass));
        }
        proof {
            taken = taken + 1;
        }
    }
    assert(all.take(total as int) =~= all);
    if out.len() > query.limit {
        out.truncate(query.limit);
    }
    out
}

} // verus!
