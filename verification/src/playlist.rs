//! The channel playlist: its entries, the exclusion pipeline that derives
//! the filtered view, and the two-line record text of each entry.

use vstd::prelude::*;
use crate::lookup::{find_last, id_views, last_with, lemma_last_with};
use crate::text::{chars_of, contains_chars, contains_seq, is_listed};

verus! {

/// One channel offering of the playlist.
#[derive(Debug, PartialEq)]
pub struct PlaylistEntry {
    /// Length in seconds; `-1` for a live stream.
    pub duration: i32,
    /// Identifier that joins the entry to a guide channel.
    pub tvg_id: String,
    pub tvg_name: String,
    pub tvg_logo: String,
    /// Category or region label.
    pub group_title: String,
    /// Human title of the stream.
    pub name: String,
    pub url: String,
}

/// The mathematical content of a `PlaylistEntry`.
pub struct EntryView {
    pub duration: int,
    pub tvg_id: Seq<char>,
    pub tvg_name: Seq<char>,
    pub tvg_logo: Seq<char>,
    pub group_title: Seq<char>,
    pub name: Seq<char>,
    pub url: Seq<char>,
}

impl View for PlaylistEntry {
    type V = EntryView;

    open spec fn view(&self) -> EntryView {
        EntryView {
            duration: self.duration as int,
            tvg_id: self.tvg_id@,
            tvg_name: self.tvg_name@,
            tvg_logo: self.tvg_logo@,
            group_title: self.group_title@,
            name: self.name@,
            url: self.url@,
        }
    }
}

impl Clone for PlaylistEntry {
    fn clone(&self) -> (r: Self)
        ensures
            r@ == self@,
    {
        PlaylistEntry {
            duration: self.duration,
            tvg_id: self.tvg_id.clone(),
            tvg_name: self.tvg_name.clone(),
            tvg_logo: self.tvg_logo.clone(),
            group_title: self.group_title.clone(),
            name: self.name.clone(),
            url: self.url.clone(),
        }
    }
}

/// The views of a sequence of entries, in order.
pub open spec fn entry_views(s: Seq<PlaylistEntry>) -> Seq<EntryView> {
    s.map_values(|e: PlaylistEntry| e@)
}

/// The character sequences of a list of string slices, in order.
pub open spec fn str_views(s: Seq<&str>) -> Seq<Seq<char>> {
    s.map_values(|t: &str| t@)
}

/// Whether the entry's group title is exactly one of `names`.
pub open spec fn in_groups(e: EntryView, names: Seq<Seq<char>>) -> bool {
    names.contains(e.group_title)
}

/// Whether the entry's group title contains one of `snippets`.
pub open spec fn group_contains_any(e: EntryView, snippets: Seq<Seq<char>>) -> bool {
    exists|k: int| 0 <= k < snippets.len() && contains_seq(e.group_title, #[trigger] snippets[k])
}

/// Whether the last path segment of `url`, the part after its last `/`,
/// holds a `.`.
pub open spec fn has_extension(url: Seq<char>) -> bool {
    exists|i: int|
        0 <= i < url.len() && #[trigger] url[i] == '.' && forall|j: int|
            i < j < url.len() ==> url[j] != '/'
}

/// The entries of `s` whose group title is none of `names`.
pub open spec fn without_groups(s: Seq<EntryView>, names: Seq<Seq<char>>) -> Seq<EntryView> {
    s.filter(|e: EntryView| !in_groups(e, names))
}

/// The entries of `s` whose group title contains none of `snippets`.
pub open spec fn without_containing(s: Seq<EntryView>, snippets: Seq<Seq<char>>) -> Seq<
    EntryView,
> {
    s.filter(|e: EntryView| !group_contains_any(e, snippets))
}

/// The entries of `s` whose URL has no extension in its last segment.
pub open spec fn without_extensions(s: Seq<EntryView>) -> Seq<EntryView> {
    s.filter(|e: EntryView| !has_extension(e.url))
}

/// Copies the entries of `entries` that `keep` marks, in order.
fn keep_marked(
    entries: &Vec<PlaylistEntry>,
    keep: &Vec<bool>,
    Ghost(pred): Ghost<spec_fn(EntryView) -> bool>,
) -> (out: Vec<PlaylistEntry>)
    requires
        keep.len() == entries.len(),
        forall|i: int| 0 <= i < entries.len() ==> keep[i] == pred(#[trigger] entries[i]@),
    ensures
        entry_views(out@) == entry_views(entries@).filter(pred),
{
    let mut out: Vec<PlaylistEntry> = Vec::new();
    let mut i: usize = 0;
    proof {
        reveal(Seq::filter);
    }
    while i < entries.len()
        invariant
            i <= entries.len(),
            keep.len() == entries.len(),
            forall|j: int| 0 <= j < entries.len() ==> keep[j] == pred(#[trigger] entries[j]@),
            entry_views(out@) == entry_views(entries@).take(i as int).filter(pred),
        decreases entries.len() - i,
    {
        let ghost all = entry_views(entries@);
        if keep[i] {
            out.push(entries[i].clone());
        }
        proof {
            reveal(Seq::filter);
            assert(all.take(i + 1).drop_last() =~= all.take(i as int));
        }
        i = i + 1;
    }
    proof {
        assert(entry_views(entries@).take(entries.len() as int) =~= entry_views(entries@));
    }
    out
}

/// Tests whether `title` contains one of `snippets`.
fn title_contains_any(title: &Vec<char>, snippets: &Vec<Vec<char>>) -> (r: bool)
    ensures
        r == exists|k: int|
            0 <= k < snippets.len() && contains_seq(title@, #[trigger] snippets[k]@),
{
    let mut k: usize = 0;
    while k < snippets.len()
        invariant
            k <= snippets.len(),
            forall|j: int| 0 <= j < k ==> !contains_seq(title@, #[trigger] snippets[j]@),
        decreases snippets.len() - k,
    {
        if contains_chars(title, &snippets[k]) {
            return true;
        }
        k = k + 1;
    }
    false
}

/// Tests whether the last path segment of `url` holds a `.`.
pub fn url_has_extension(url: &Vec<char>) -> (r: bool)
    ensures
        r == has_extension(url@),
{
    let mut i: usize = url.len();
    while i > 0
        invariant
            i <= url.len(),
            forall|j: int| i <= j < url.len() ==> url@[j] != '/' && url@[j] != '.',
        decreases i,
    {
        i = i - 1;
        if url[i] == '.' {
            return true;
        }
        if url[i] == '/' {
            return false;
        }
    }
    false
}

/// Copies each string slice into a vector of its characters.
fn chars_of_all(items: &Vec<&str>) -> (out: Vec<Vec<char>>)
    ensures
        out.len() == items.len(),
        forall|k: int| 0 <= k < items.len() ==> #[trigger] out[k]@ == items[k]@,
{
    let mut out: Vec<Vec<char>> = Vec::new();
    let mut k: usize = 0;
    while k < items.len()
        invariant
            k <= items.len(),
            out.len() == k,
            forall|j: int| 0 <= j < k ==> #[trigger] out[j]@ == items[j]@,
        decreases items.len() - k,
    {
        out.push(chars_of(items[k]));
        k = k + 1;
    }
    out
}

/// The playlist: every entry of the feed in feed order, and the entries
/// that survive the exclusions applied so far.
#[derive(Debug)]
pub struct Playlist {
    /// All entries, as parsed.
    pub entries: Vec<PlaylistEntry>,
    /// The entries not excluded; initially all of them.
    pub filtered_entries: Vec<PlaylistEntry>,
}

impl Clone for Playlist {
    fn clone(&self) -> (r: Self)
        ensures
            entry_views(r.entries@) == entry_views(self.entries@),
            entry_views(r.filtered_entries@) == entry_views(self.filtered_entries@),
    {
        Playlist {
            entries: clone_entries(&self.entries),
            filtered_entries: clone_entries(&self.filtered_entries),
        }
    }
}

/// Copies a list of entries.
pub fn clone_entries(entries: &Vec<PlaylistEntry>) -> (out: Vec<PlaylistEntry>)
    ensures
        entry_views(out@) == entry_views(entries@),
{
    let mut out: Vec<PlaylistEntry> = Vec::new();
    let mut i: usize = 0;
    while i < entries.len()
        invariant
            i <= entries.len(),
            out.len() == i,
            forall|j: int| 0 <= j < i ==> #[trigger] out[j]@ == entries[j]@,
        decreases entries.len() - i,
    {
        out.push(entries[i].clone());
        i = i + 1;
    }
    out
}

impl Playlist {
    /// The views of all entries.
    pub open spec fn full(&self) -> Seq<EntryView> {
        entry_views(self.entries@)
    }

    /// The views of the surviving entries.
    pub open spec fn filtered(&self) -> Seq<EntryView> {
        entry_views(self.filtered_entries@)
    }

    /// Every surviving entry is one of the entries of the feed.
    pub open spec fn wf(&self) -> bool {
        forall|i: int|
            0 <= i < self.filtered().len() ==> self.full().contains(#[trigger] self.filtered()[i])
    }

    /// A playlist of `entries` with nothing excluded.
    pub fn new(entries: Vec<PlaylistEntry>) -> (r: Playlist)
        ensures
            r.full() == entry_views(entries@),
            r.filtered() == r.full(),
            r.wf(),
    {
        let filtered_entries = clone_entries(&entries);
        Playlist { entries, filtered_entries }
    }

    /// Removes from the filtered view the entries whose group title is
    /// exactly one of `groups`.
    pub fn exclude_groups(&mut self, groups: Vec<&str>)
        ensures
            final(self).full() == old(self).full(),
            final(self).filtered() == without_groups(old(self).filtered(), str_views(groups@)),
            forall|i: int|
                0 <= i < final(self).filtered().len() ==> !in_groups(
                    #[trigger] final(self).filtered()[i],
                    str_views(groups@),
                ),
            old(self).wf() ==> final(self).wf(),
    {
        let names = chars_of_all(&groups);
        let ghost names_view = str_views(groups@);
        let ghost pred = |e: EntryView| !in_groups(e, names_view);
        let mut keep: Vec<bool> = Vec::new();
        let mut i: usize = 0;
        while i < self.filtered_entries.len()
            invariant
                i <= self.filtered_entries.len(),
                keep.len() == i,
                *self == *old(self),
                names.len() == groups.len(),
                names_view == str_views(groups@),
                forall|k: int| 0 <= k < groups.len() ==> #[trigger] names[k]@ == groups[k]@,
                forall|j: int|
                    0 <= j < i ==> keep[j] == !in_groups(
                        #[trigger] self.filtered_entries[j]@,
                        names_view,
                    ),
            decreases self.filtered_entries.len() - i,
        {
            let title = chars_of(self.filtered_entries[i].group_title.as_str());
            let listed = is_listed(&title, &names);
            proof {
                let e = self.filtered_entries[i as int]@;
                if listed {
                    let k = choose|k: int| 0 <= k < names.len() && #[trigger] names[k]@ == title@;
                    assert(names_view[k] == e.group_title);
                } else if in_groups(e, names_view) {
                    let k = choose|k: int|
                        0 <= k < names_view.len() && names_view[k] == e.group_title;
                    assert(names[k]@ == title@);
                }
            }
            keep.push(!listed);
            i = i + 1;
        }
        let kept = keep_marked(&self.filtered_entries, &keep, Ghost(pred));
        proof {
            lemma_filter_keeps(old(self).filtered(), pred, old(self).full());
        }
        self.filtered_entries = kept;
    }

    /// Removes from the filtered view the entries whose group title holds
    /// one of `snippets` as a substring; letter case counts.
    pub fn exclude_containing(&mut self, snippets: Vec<&str>)
        ensures
            final(self).full() == old(self).full(),
            final(self).filtered() == without_containing(
                old(self).filtered(),
                str_views(snippets@),
            ),
            forall|i: int|
                0 <= i < final(self).filtered().len() ==> !group_contains_any(
                    #[trigger] final(self).filtered()[i],
                    str_views(snippets@),
                ),
            old(self).wf() ==> final(self).wf(),
    {
        let parts = chars_of_all(&snippets);
        let ghost parts_view = str_views(snippets@);
        let ghost pred = |e: EntryView| !group_contains_any(e, parts_view);
        let mut keep: Vec<bool> = Vec::new();
        let mut i: usize = 0;
        while i < self.filtered_entries.len()
            invariant
                i <= self.filtered_entries.len(),
                keep.len() == i,
                *self == *old(self),
                parts.len() == snippets.len(),
                parts_view == str_views(snippets@),
                forall|k: int| 0 <= k < snippets.len() ==> #[trigger] parts[k]@ == snippets[k]@,
                forall|j: int|
                    0 <= j < i ==> keep[j] == !group_contains_any(
                        #[trigger] self.filtered_entries[j]@,
                        parts_view,
                    ),
            decreases self.filtered_entries.len() - i,
        {
            let title = chars_of(self.filtered_entries[i].group_title.as_str());
            let found = title_contains_any(&title, &parts);
            proof {
                let e = self.filtered_entries[i as int]@;
                if found {
                    let k = choose|k: int|
                        0 <= k < parts.len() && contains_seq(title@, #[trigger] parts[k]@);
                    assert(contains_seq(e.group_title, parts_view[k]));
                } else if group_contains_any(e, parts_view) {
                    let k = choose|k: int|
                        0 <= k < parts_view.len() && contains_seq(
                            e.group_title,
                            #[trigger] parts_view[k],
                        );
                    assert(contains_seq(title@, parts[k]@));
                }
            }
            keep.push(!found);
            i = i + 1;
        }
        let kept = keep_marked(&self.filtered_entries, &keep, Ghost(pred));
        proof {
            lemma_filter_keeps(old(self).filtered(), pred, old(self).full());
        }
        self.filtered_entries = kept;
    }

    /// Removes from the filtered view the entries whose URL ends in a path
    /// segment with a `.` in it: links to files rather than to live streams.
    pub fn exclude_all_extensions(&mut self)
        ensures
            final(self).full() == old(self).full(),
            final(self).filtered() == without_extensions(old(self).filtered()),
            forall|i: int|
                0 <= i < final(self).filtered().len() ==> !has_extension(
                    (#[trigger] final(self).filtered()[i]).url,
                ),
            old(self).wf() ==> final(self).wf(),
    {
        let ghost pred = |e: EntryView| !has_extension(e.url);
        let mut keep: Vec<bool> = Vec::new();
        let mut i: usize = 0;
        while i < self.filtered_entries.len()
            invariant
                i <= self.filtered_entries.len(),
                keep.len() == i,
                *self == *old(self),
                forall|j: int|
                    0 <= j < i ==> keep[j] == !has_extension(
                        (#[trigger] self.filtered_entries[j]@).url,
                    ),
            decreases self.filtered_entries.len() - i,
        {
            let url = chars_of(self.filtered_entries[i].url.as_str());
            keep.push(!url_has_extension(&url));
            i = i + 1;
        }
        let kept = keep_marked(&self.filtered_entries, &keep, Ghost(pred));
        proof {
            lemma_filter_keeps(old(self).filtered(), pred, old(self).full());
        }
        self.filtered_entries = kept;
    }
}

/// Filtering twice by one predicate removes nothing the first pass kept.
pub proof fn lemma_filter_idempotent(s: Seq<EntryView>, pred: spec_fn(EntryView) -> bool)
    ensures
        s.filter(pred).filter(pred) == s.filter(pred),
    decreases s.len(),
{
    reveal(Seq::filter);
    if s.len() > 0 {
        lemma_filter_idempotent(s.drop_last(), pred);
        if pred(s.last()) {
            let sub = s.drop_last().filter(pred);
            assert(sub.push(s.last()).drop_last() =~= sub);
        }
    }
}

/// Excluding the same groups a second time changes nothing, and no entry
/// left by the exclusion has one of the excluded group titles.
pub proof fn lemma_exclude_groups_idempotent(s: Seq<EntryView>, names: Seq<Seq<char>>)
    ensures
        without_groups(without_groups(s, names), names) == without_groups(s, names),
        forall|i: int|
            0 <= i < without_groups(s, names).len() ==> !names.contains(
                (#[trigger] without_groups(s, names)[i]).group_title,
            ),
{
    let pred = |e: EntryView| !in_groups(e, names);
    lemma_filter_idempotent(s, pred);
    lemma_filter_keeps(s, pred, s);
}

/// Excluding by the same snippets a second time changes nothing.
pub proof fn lemma_exclude_containing_idempotent(s: Seq<EntryView>, snippets: Seq<Seq<char>>)
    ensures
        without_containing(without_containing(s, snippets), snippets) == without_containing(
            s,
            snippets,
        ),
{
    lemma_filter_idempotent(s, |e: EntryView| !group_contains_any(e, snippets));
}

/// Excluding file links a second time changes nothing.
pub proof fn lemma_exclude_extensions_idempotent(s: Seq<EntryView>)
    ensures
        without_extensions(without_extensions(s)) == without_extensions(s),
{
    lemma_filter_idempotent(s, |e: EntryView| !has_extension(e.url));
}

/// The channel ids of a list of entries, in order.
pub open spec fn entry_ids(s: Seq<EntryView>) -> Seq<Seq<char>> {
    s.map_values(|e: EntryView| e.tvg_id)
}

/// The entry that the channel id `id` stands for: the last of `s` with
/// that id.
pub open spec fn entry_for(s: Seq<EntryView>, id: Seq<char>) -> Option<EntryView> {
    match last_with(entry_ids(s), id) {
        Some(i) => Some(s[i]),
        None => None,
    }
}

/// Playlist entries, to be looked up by channel id. Where two entries
/// share an id, the later one is found.
pub struct EntryMap {
    ids: Vec<Vec<char>>,
    entries: Vec<PlaylistEntry>,
}

impl EntryMap {
    #[verifier::type_invariant]
    closed spec fn inv(self) -> bool {
        &&& self.ids.len() == self.entries.len()
        &&& forall|i: int|
            0 <= i < self.ids.len() ==> #[trigger] self.ids[i]@ == self.entries[i].tvg_id@
    }

    /// The entries held, in the order they were given.
    pub closed spec fn entries(self) -> Seq<EntryView> {
        entry_views(self.entries@)
    }

    /// Collects `entries` for lookup.
    pub fn new(entries: &Vec<PlaylistEntry>) -> (r: EntryMap)
        ensures
            r.entries() == entry_views(entries@),
    {
        let mut ids: Vec<Vec<char>> = Vec::new();
        let mut held: Vec<PlaylistEntry> = Vec::new();
        let mut i: usize = 0;
        while i < entries.len()
            invariant
                i <= entries.len(),
                ids.len() == i,
                held.len() == i,
                forall|j: int| 0 <= j < i ==> #[trigger] ids[j]@ == held[j].tvg_id@,
                forall|j: int| 0 <= j < i ==> #[trigger] held[j]@ == entries[j]@,
            decreases entries.len() - i,
        {
            let e = entries[i].clone();
            ids.push(chars_of(e.tvg_id.as_str()));
            held.push(e);
            i = i + 1;
        }
        EntryMap { ids, entries: held }
    }

    /// Looks up the entry with channel id `id`.
    pub fn get(&self, id: &str) -> (r: Option<&PlaylistEntry>)
        ensures
            match r {
                Some(e) => entry_for(self.entries(), id@) == Some(e@),
                None => entry_for(self.entries(), id@) is None,
            },
    {
        proof {
            use_type_invariant(self);
            assert(id_views(self.ids@) =~= entry_ids(self.entries()));
            lemma_last_with(entry_ids(self.entries()), id@);
        }
        let wanted = chars_of(id);
        match find_last(&self.ids, &wanted) {
            Some(i) => Some(&self.entries[i]),
            None => None,
        }
    }
}

/// A filtered sequence holds only elements that meet the predicate, and
/// only elements of any sequence that held all of the unfiltered one's.
pub proof fn lemma_filter_keeps(
    s: Seq<EntryView>,
    pred: spec_fn(EntryView) -> bool,
    all: Seq<EntryView>,
)
    ensures
        forall|i: int| 0 <= i < s.filter(pred).len() ==> pred(#[trigger] s.filter(pred)[i]),
        (forall|i: int| 0 <= i < s.len() ==> all.contains(#[trigger] s[i])) ==> (forall|i: int|
            0 <= i < s.filter(pred).len() ==> all.contains(#[trigger] s.filter(pred)[i])),
{
    let f = s.filter(pred);
    assert forall|i: int| 0 <= i < f.len() implies pred(#[trigger] f[i]) by {
        s.lemma_filter_pred(pred, i);
    }
    if forall|i: int| 0 <= i < s.len() ==> all.contains(#[trigger] s[i]) {
        assert forall|i: int| 0 <= i < f.len() implies all.contains(#[trigger] f[i]) by {
            s.lemma_filter_contains_rev(pred, f[i]);
        }
    }
}

} // verus!
