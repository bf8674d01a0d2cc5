//! The search of the guide for programmes that are on or still to come.

use vstd::prelude::*;
use crate::epg::{programme_views, Epg, Programme, ProgrammeView};
use crate::order::{
    key_of, lemma_filter_map_commute, lemma_sorted_item_known, sorted_by_instant, with_key,
};
use crate::text::{chars_of, contains_chars, contains_seq, lowercased, to_lowercase};
use crate::timestamp::Timestamp;

verus! {

/// Whether the programme has not ended before `now`.
pub open spec fn still_on(p: ProgrammeView, now: Timestamp) -> bool {
    !p.stop.is_before(now)
}

/// Whether the title or the description holds `query`, letter case aside.
pub open spec fn mentions(p: ProgrammeView, query: Seq<char>) -> bool {
    contains_seq(lowercased(p.title), lowercased(query)) || contains_seq(
        lowercased(p.desc),
        lowercased(query),
    )
}

/// The programmes of `s` that mention `query` and have not ended before
/// `now`, in the order of `s`.
pub open spec fn found(s: Seq<ProgrammeView>, query: Seq<char>, now: Timestamp) -> Seq<
    ProgrammeView,
> {
    s.filter(|p: ProgrammeView| still_on(p, now) && mentions(p, query))
}

/// Each programme of `s` with its mark; a programme beyond the end of
/// `marks` counts as unmarked.
pub open spec fn tagged(s: Seq<ProgrammeView>, marks: Seq<bool>) -> Seq<(ProgrammeView, bool)> {
    Seq::new(s.len(), |i: int| (s[i], i < marks.len() && marks[i]))
}

/// The marked programmes of `s` that have not ended before `now`, in the
/// order of `s`.
pub open spec fn marked_and_on(s: Seq<ProgrammeView>, marks: Seq<bool>, now: Timestamp) -> Seq<
    ProgrammeView,
> {
    tagged(s, marks).filter(|t: (ProgrammeView, bool)| t.1 && still_on(t.0, now)).map_values(
        |t: (ProgrammeView, bool)| t.0,
    )
}

/// Whether the programme starts at the instant `k`: seconds and nanoseconds.
pub open spec fn starts_at(p: ProgrammeView, k: (i64, u32)) -> bool {
    p.start.secs() == k.0 && p.start.nanos() == k.1
}

/// The programmes of `s` that start at the instant `k`, in the order of `s`.
pub open spec fn run(s: Seq<ProgrammeView>, k: (i64, u32)) -> Seq<ProgrammeView> {
    s.filter(|p: ProgrammeView| starts_at(p, k))
}

/// Whether no programme of `s` starts before one that precedes it.
pub open spec fn ascending(s: Seq<ProgrammeView>) -> bool {
    forall|i: int, j: int| 0 <= i < j < s.len() ==> !(#[trigger] s[j]).start.is_before(
        (#[trigger] s[i]).start,
    )
}

/// Whether `r` is `m` sorted by start instant with ties left in the order
/// of `m`: `r` ascends, and for every instant the programmes that start
/// then are the same in both, in the same order.
pub open spec fn is_stable_sort_of(r: Seq<ProgrammeView>, m: Seq<ProgrammeView>) -> bool {
    &&& ascending(r)
    &&& forall|k: (i64, u32)| #[trigger] run(r, k) == run(m, k)
}

/// An element of a sorted list is an element of the list that was sorted.
pub proof fn lemma_sorted_holds_only(r: Seq<ProgrammeView>, m: Seq<ProgrammeView>, i: int)
    requires
        is_stable_sort_of(r, m),
        0 <= i < r.len(),
    ensures
        m.contains(r[i]),
{
    r[i].start.lemma_fits();
    let k = (r[i].start.secs() as i64, r[i].start.nanos() as u32);
    let pred = |p: ProgrammeView| starts_at(p, k);
    r.lemma_filter_contains(pred, i);
    assert(run(r, k).contains(r[i]));
    m.lemma_filter_contains_rev(pred, r[i]);
}

/// A search never yields a programme that ended before `now`: every
/// programme it yields is one of the guide that mentions the query and
/// has not ended. Where every programme of the guide has ended, it yields
/// nothing.
pub proof fn lemma_search_yields_current(
    r: Seq<ProgrammeView>,
    s: Seq<ProgrammeView>,
    query: Seq<char>,
    now: Timestamp,
)
    requires
        is_stable_sort_of(r, found(s, query, now)),
    ensures
        forall|i: int|
            0 <= i < r.len() ==> !(#[trigger] r[i]).stop.is_before(now) && mentions(r[i], query)
                && s.contains(r[i]),
        (forall|j: int| 0 <= j < s.len() ==> (#[trigger] s[j]).stop.is_before(now)) ==> r.len()
            == 0,
{
    let wanted = |p: ProgrammeView| still_on(p, now) && mentions(p, query);
    let m = found(s, query, now);
    assert forall|i: int| 0 <= i < r.len() implies !(#[trigger] r[i]).stop.is_before(now)
        && mentions(r[i], query) && s.contains(r[i]) by {
        lemma_sorted_holds_only(r, m, i);
        let a = choose|a: int| 0 <= a < m.len() && m[a] == r[i];
        s.lemma_filter_pred(wanted, a);
        s.lemma_filter_contains_rev(wanted, r[i]);
    }
    if r.len() > 0 && (forall|j: int| 0 <= j < s.len() ==> (#[trigger] s[j]).stop.is_before(now)) {
        let j = choose|j: int| 0 <= j < s.len() && s[j] == r[0];
        assert(s[j].stop.is_before(now));
    }
}

impl Epg {
    /// The marked programmes that have not ended before `now`, ordered by
    /// start; programmes that start together stay in document order.
    /// `marks[i]` marks programme `i`.
    pub fn select_current(&self, marks: &Vec<bool>, now: &Timestamp) -> (r: Vec<Programme>)
        ensures
            is_stable_sort_of(
                programme_views(r@),
                marked_and_on(self.programme_seq(), marks@, *now),
            ),
    {
        let n = self.programmes.len();
        let ghost views = self.programme_seq();
        let ghost tg = tagged(views, marks@);
        let ghost sel = |t: (ProgrammeView, bool)| t.1 && still_on(t.0, *now);
        let ghost first = |t: (ProgrammeView, bool)| t.0;
        let ghost pick = |item: (i64, u32, usize)| views[item.2 as int];
        let mut keys: Vec<(i64, u32, usize)> = Vec::new();
        let mut j: usize = 0;
        proof {
            reveal(Seq::filter);
        }
        while j < n
            invariant
                j <= n,
                n == self.programmes.len(),
                views == self.programme_seq(),
                tg == tagged(views, marks@),
                sel == |t: (ProgrammeView, bool)| t.1 && still_on(t.0, *now),
                first == |t: (ProgrammeView, bool)| t.0,
                pick == |item: (i64, u32, usize)| views[item.2 as int],
                forall|a: int|
                    0 <= a < keys.len() ==> (#[trigger] keys[a]).2 < n && starts_at(
                        views[keys[a].2 as int],
                        key_of(keys[a]),
                    ),
                keys@.map_values(pick) == tg.take(j as int).filter(sel).map_values(first),
            decreases n - j,
        {
            let p = &self.programmes[j];
            let marked = j < marks.len() && marks[j];
            if marked && !p.stop.before(now) {
                keys.push((p.start.unix_seconds(), p.start.subsec_nanos(), j));
            }
            proof {
                reveal(Seq::filter);
                assert(tg.take(j + 1).drop_last() =~= tg.take(j as int));
                let prior = tg.take(j as int).filter(sel);
                if sel(tg[j as int]) {
                    assert(prior.push(tg[j as int]).map_values(first) =~= prior.map_values(
                        first,
                    ).push(views[j as int]));
                }
            }
            j = j + 1;
        }
        let ghost m = marked_and_on(views, marks@, *now);
        proof {
            assert(tg.take(n as int) =~= tg);
        }
        let order = sorted_by_instant(keys);
        proof {
            assert forall|a: int| 0 <= a < order.len() implies (#[trigger] order[a]).2 < n
                && starts_at(views[order[a].2 as int], key_of(order[a])) by {
                lemma_sorted_item_known(keys@, order@, a);
            }
        }
        let mut out: Vec<Programme> = Vec::new();
        let mut i: usize = 0;
        while i < order.len()
            invariant
                i <= order.len(),
                n == self.programmes.len(),
                views == self.programme_seq(),
                out.len() == i,
                forall|a: int| 0 <= a < order.len() ==> (#[trigger] order[a]).2 < n,
                forall|a: int| 0 <= a < i ==> (#[trigger] out[a])@ == views[order[a].2 as int],
            decreases order.len() - i,
        {
            let at = order[i].2;
            out.push(self.programmes[at].clone());
            i = i + 1;
        }
        proof {
            let r = programme_views(out@);
            assert(r =~= order@.map_values(pick));
            assert forall|k: (i64, u32)| #[trigger] run(r, k) == run(m, k) by {
                let on_item = |item: (i64, u32, usize)| key_of(item) == k;
                let on_view = |p: ProgrammeView| starts_at(p, k);
                lemma_filter_map_commute(order@, pick, on_item, on_view);
                lemma_filter_map_commute(keys@, pick, on_item, on_view);
                assert(with_key(order@, k) == with_key(keys@, k));
            }
        }
        out
    }

    /// The programmes whose title or description holds `search_term`,
    /// letter case aside, and that have not ended before `now`; ordered by
    /// start, programmes that start together in document order.
    pub fn search(&self, search_term: &str, now: &Timestamp) -> (r: Vec<Programme>)
        ensures
            is_stable_sort_of(
                programme_views(r@),
                found(self.programme_seq(), search_term@, *now),
            ),
            forall|i: int|
                0 <= i < r.len() ==> !(#[trigger] r[i]).stop.is_before(*now) && mentions(
                    r[i]@,
                    search_term@,
                ),
            (forall|j: int|
                0 <= j < self.programmes.len() ==> (#[trigger] self.programmes[j]).stop.is_before(
                    *now,
                )) ==> r.len() == 0,
    {
        let needle = chars_of(to_lowercase(search_term).as_str());
        let ghost views = self.programme_seq();
        let mut marks: Vec<bool> = Vec::new();
        let mut j: usize = 0;
        while j < self.programmes.len()
            invariant
                j <= self.programmes.len(),
                marks.len() == j,
                needle@ == lowercased(search_term@),
                views == self.programme_seq(),
                forall|a: int| 0 <= a < j ==> marks[a] == mentions(#[trigger] views[a], search_term@),
            decreases self.programmes.len() - j,
        {
            let p = &self.programmes[j];
            let title = chars_of(to_lowercase(p.title.as_str()).as_str());
            let desc = chars_of(to_lowercase(p.desc.as_str()).as_str());
            let hit = contains_chars(&title, &needle) || contains_chars(&desc, &needle);
            marks.push(hit);
            j = j + 1;
        }
        let r = self.select_current(&marks, now);
        proof {
            let tg = tagged(views, marks@);
            let sel = |t: (ProgrammeView, bool)| t.1 && still_on(t.0, *now);
            let first = |t: (ProgrammeView, bool)| t.0;
            let wanted = |p: ProgrammeView| still_on(p, *now) && mentions(p, search_term@);
            lemma_filter_map_commute(tg, first, sel, wanted);
            assert(tg.map_values(first) =~= views);
            lemma_search_yields_current(programme_views(r@), views, search_term@, *now);
            assert forall|i: int| 0 <= i < r.len() implies !(#[trigger] r[i]).stop.is_before(*now)
                && mentions(r[i]@, search_term@) by {
                assert(programme_views(r@)[i] == r[i]@);
            }
        }
        r
    }
}

} // verus!
