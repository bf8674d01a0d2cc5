//! Search across guide and playlist: programmes joined to their channel's
//! name and group, and playlist channels matched by name.

use vstd::prelude::*;
use vstd::string::StringExecFns;
use crate::epg::{
    channel_for, programme_views, ChannelMap, ChannelView, Epg, Programme, ProgrammeView,
};
use crate::guide_search::{found, is_stable_sort_of};
use crate::playlist::{entry_for, entry_views, EntryMap, EntryView, Playlist, PlaylistEntry};
use crate::text::{chars_of, contains_chars, contains_seq, lowercased, text_of, to_lowercase};
use crate::timestamp::Timestamp;

verus! {

/// What a search asks for.
#[derive(Debug)]
pub struct SearchQuery {
    /// The text to look for.
    pub search_query: String,
    /// `Some(true)` to search the channels that the exclusions hid as well.
    pub include_hidden: Option<bool>,
}

/// A programme found, with the name and group of its channel.
#[derive(Debug)]
pub struct ProgrammeResult {
    pub channel_name: String,
    pub channel_group: Option<String>,
    pub programme_title: String,
    pub programme_desc: String,
    pub start: Timestamp,
    pub stop: Timestamp,
}

/// A playlist channel found by name.
#[derive(Debug)]
pub struct ChannelResult {
    /// The channel's name, then its group in round brackets.
    pub channel_name: String,
}

/// What a search found.
#[derive(Debug)]
pub struct SearchResult {
    pub programmes: Vec<ProgrammeResult>,
    pub channels: Vec<ChannelResult>,
}

/// The mathematical content of a `ProgrammeResult`.
pub struct ProgrammeResultView {
    pub channel_name: Seq<char>,
    pub channel_group: Option<Seq<char>>,
    pub programme_title: Seq<char>,
    pub programme_desc: Seq<char>,
    pub start: Timestamp,
    pub stop: Timestamp,
}

impl View for ProgrammeResult {
    type V = ProgrammeResultView;

    open spec fn view(&self) -> ProgrammeResultView {
        ProgrammeResultView {
            channel_name: self.channel_name@,
            channel_group: text_of(self.channel_group),
            programme_title: self.programme_title@,
            programme_desc: self.programme_desc@,
            start: self.start,
            stop: self.stop,
        }
    }
}

/// The views of a list of programme results, in order.
pub open spec fn result_views(s: Seq<ProgrammeResult>) -> Seq<ProgrammeResultView> {
    s.map_values(|r: ProgrammeResult| r@)
}

/// The names of a list of channel results, in order.
pub open spec fn result_names(s: Seq<ChannelResult>) -> Seq<Seq<char>> {
    s.map_values(|r: ChannelResult| r.channel_name@)
}

/// The display name of the programme's channel, or `Unknown channel`
/// where the guide has no channel with the programme's channel id.
pub open spec fn joined_name(p: ProgrammeView, channels: Seq<ChannelView>) -> Seq<char> {
    match channel_for(channels, p.channel) {
        Some(c) => c.display_name,
        None => "Unknown channel"@,
    }
}

/// The group title of the playlist entry of the programme's channel;
/// none where the guide lacks the channel or `entries` lacks its id.
pub open spec fn joined_group(
    p: ProgrammeView,
    channels: Seq<ChannelView>,
    entries: Seq<EntryView>,
) -> Option<Seq<char>> {
    match channel_for(channels, p.channel) {
        Some(c) => match entry_for(entries, c.id) {
            Some(e) => Some(e.group_title),
            None => None,
        },
        None => None,
    }
}

/// The programme with its channel's name and group joined to it.
pub open spec fn joined(
    p: ProgrammeView,
    channels: Seq<ChannelView>,
    entries: Seq<EntryView>,
) -> ProgrammeResultView {
    ProgrammeResultView {
        channel_name: joined_name(p, channels),
        channel_group: joined_group(p, channels, entries),
        programme_title: p.title,
        programme_desc: p.desc,
        start: p.start,
        stop: p.stop,
    }
}

/// The programmes `hits`, each joined to its channel, without those that
/// have no group unless `include_hidden` is set.
pub open spec fn offered(
    hits: Seq<ProgrammeView>,
    channels: Seq<ChannelView>,
    entries: Seq<EntryView>,
    include_hidden: bool,
) -> Seq<ProgrammeResultView> {
    hits.map_values(|p: ProgrammeView| joined(p, channels, entries)).filter(
        |r: ProgrammeResultView| include_hidden || r.channel_group is Some,
    )
}

/// How a playlist channel is shown: its name, then its group in round
/// brackets.
pub open spec fn label(e: EntryView) -> Seq<char> {
    e.name + " ("@ + e.group_title + ")"@
}

/// The labels of the marked entries, in order; an entry beyond the end of
/// `marks` counts as unmarked.
pub open spec fn marked_labels(entries: Seq<EntryView>, marks: Seq<bool>) -> Seq<Seq<char>>
    decreases entries.len(),
{
    if entries.len() == 0 {
        Seq::empty()
    } else {
        let rest = marked_labels(entries.drop_last(), marks);
        if entries.len() - 1 < marks.len() && marks[entries.len() - 1] {
            rest.push(label(entries.last()))
        } else {
            rest
        }
    }
}

/// Whether the entry's name holds `query`, letter case aside.
pub open spec fn name_mentions(e: EntryView, query: Seq<char>) -> bool {
    contains_seq(lowercased(e.name), lowercased(query))
}

/// The labels of the entries whose name holds `query`, in order.
pub open spec fn matching_labels(entries: Seq<EntryView>, query: Seq<char>) -> Seq<Seq<char>> {
    entries.filter(|e: EntryView| name_mentions(e, query)).map_values(|e: EntryView| label(e))
}

/// Marking exactly the entries whose name holds the query gives the
/// labels of the matching entries.
pub proof fn lemma_marked_labels(entries: Seq<EntryView>, marks: Seq<bool>, query: Seq<char>)
    requires
        marks.len() == entries.len(),
        forall|i: int| 0 <= i < entries.len() ==> marks[i] == name_mentions(entries[i], query),
    ensures
        marked_labels(entries, marks) == matching_labels(entries, query),
    decreases entries.len(),
{
    reveal(Seq::filter);
    if entries.len() != 0 {
        let front = entries.drop_last();
        let fewer = marks.drop_last();
        lemma_marked_labels(front, fewer, query);
        lemma_marks_beyond(front, marks, fewer);
    }
}

/// Marks beyond the end of the entries do not matter.
pub proof fn lemma_marks_beyond(entries: Seq<EntryView>, marks: Seq<bool>, fewer: Seq<bool>)
    requires
        entries.len() <= fewer.len() <= marks.len(),
        forall|i: int| 0 <= i < entries.len() ==> marks[i] == fewer[i],
    ensures
        marked_labels(entries, marks) == marked_labels(entries, fewer),
    decreases entries.len(),
{
    if entries.len() > 0 {
        lemma_marks_beyond(entries.drop_last(), marks, fewer);
    }
}

/// Joins a programme to the display name of its channel and to the group
/// of the channel's playlist entry.
pub fn join_channel_name(programme: &Programme, channels: &ChannelMap, entries: &EntryMap) -> (r: (
    String,
    Option<String>,
))
    ensures
        r.0@ == joined_name(programme@, channels.channels()),
        text_of(r.1) == joined_group(programme@, channels.channels(), entries.entries()),
{
    match channels.get(programme.channel.as_str()) {
        Some(channel) => {
            let group = match entries.get(channel.id.as_str()) {
                Some(entry) => Some(entry.group_title.clone()),
                None => None,
            };
            (channel.display_name.clone(), group)
        },
        None => ("Unknown channel".to_owned(), None),
    }
}

/// Writes the label of a playlist channel.
pub fn channel_label(entry: &PlaylistEntry) -> (r: String)
    ensures
        r@ == label(entry@),
{
    let mut out = entry.name.clone();
    out.append(" (");
    out.append(entry.group_title.as_str());
    out.append(")");
    out
}

/// Joins the programmes `hits` to the channels of `epg` and to `entries`,
/// and lists the marked entries; `name_marks[i]` marks entry `i`.
/// Programmes without a group are left out unless `include_hidden` is set.
pub fn cross_reference(
    hits: &Vec<Programme>,
    name_marks: &Vec<bool>,
    epg: &Epg,
    entries: &Vec<PlaylistEntry>,
    include_hidden: bool,
) -> (r: SearchResult)
    ensures
        result_views(r.programmes@) == offered(
            programme_views(hits@),
            epg.channel_seq(),
            entry_views(entries@),
            include_hidden,
        ),
        result_names(r.channels@) == marked_labels(entry_views(entries@), name_marks@),
{
    let channel_map = epg.channel_map();
    let entry_map = EntryMap::new(entries);
    let ghost hv = programme_views(hits@);
    let ghost cv = epg.channel_seq();
    let ghost ev = entry_views(entries@);
    let ghost join = |p: ProgrammeView| joined(p, cv, ev);
    let ghost shown = |x: ProgrammeResultView| include_hidden || x.channel_group is Some;
    let mut programmes: Vec<ProgrammeResult> = Vec::new();
    let mut i: usize = 0;
    proof {
        reveal(Seq::filter);
    }
    while i < hits.len()
        invariant
            i <= hits.len(),
            hv == programme_views(hits@),
            cv == channel_map.channels(),
            ev == entry_map.entries(),
            join == |p: ProgrammeView| joined(p, cv, ev),
            shown == |x: ProgrammeResultView| include_hidden || x.channel_group is Some,
            result_views(programmes@) == hv.take(i as int).map_values(join).filter(shown),
        decreases hits.len() - i,
    {
        let p = &hits[i];
        let (channel_name, channel_group) = join_channel_name(p, &channel_map, &entry_map);
        if include_hidden || channel_group.is_some() {
            programmes.push(
                ProgrammeResult {
                    channel_name,
                    channel_group,
                    programme_title: p.title.clone(),
                    programme_desc: p.desc.clone(),
                    start: p.start,
                    stop: p.stop,
                },
            );
        }
        proof {
            reveal(Seq::filter);
            let mapped = hv.take(i + 1).map_values(join);
            assert(mapped.drop_last() =~= hv.take(i as int).map_values(join));
        }
        i = i + 1;
    }
    assert(hv.take(hits.len() as int) =~= hv);
    let mut channels: Vec<ChannelResult> = Vec::new();
    let mut k: usize = 0;
    while k < entries.len()
        invariant
            k <= entries.len(),
            ev == entry_views(entries@),
            result_names(channels@) == marked_labels(ev.take(k as int), name_marks@),
        decreases entries.len() - k,
    {
        let marked = k < name_marks.len() && name_marks[k];
        if marked {
            channels.push(ChannelResult { channel_name: channel_label(&entries[k]) });
        }
        proof {
            assert(ev.take(k + 1).drop_last() =~= ev.take(k as int));
        }
        k = k + 1;
    }
    assert(ev.take(entries.len() as int) =~= ev);
    SearchResult { programmes, channels }
}

/// The entries a query looks at: all of them where it asks for hidden
/// channels, the filtered view otherwise.
pub open spec fn searched_entries(query: SearchQuery, playlist: Playlist) -> Seq<EntryView> {
    if query.include_hidden == Some(true) {
        playlist.full()
    } else {
        playlist.filtered()
    }
}

/// Answers a query at the time `now`: the programmes that mention the
/// query and have not ended, ordered by start and joined to their
/// channels, and the playlist channels whose name holds the query.
/// Programmes of channels that the playlist does not offer are left out
/// unless the query includes hidden channels.
pub fn search(query: &SearchQuery, epg: &Epg, playlist: &Playlist, now: &Timestamp) -> (r:
    SearchResult)
    ensures
        exists|hits: Seq<ProgrammeView>|
            is_stable_sort_of(hits, found(epg.programme_seq(), query.search_query@, *now))
                && result_views(r.programmes@) == offered(
                hits,
                epg.channel_seq(),
                searched_entries(*query, *playlist),
                query.include_hidden == Some(true),
            ),
        result_names(r.channels@) == matching_labels(
            searched_entries(*query, *playlist),
            query.search_query@,
        ),
{
    let include_hidden = match query.include_hidden {
        Some(flag) => flag,
        None => false,
    };
    let entries = if include_hidden {
        &playlist.entries
    } else {
        &playlist.filtered_entries
    };
    let hits = epg.search(query.search_query.as_str(), now);
    let needle = chars_of(to_lowercase(query.search_query.as_str()).as_str());
    let ghost ev = entry_views(entries@);
    let mut marks: Vec<bool> = Vec::new();
    let mut k: usize = 0;
    while k < entries.len()
        invariant
            k <= entries.len(),
            marks.len() == k,
            ev == entry_views(entries@),
            needle@ == lowercased(query.search_query@),
            forall|j: int| 0 <= j < k ==> marks[j] == name_mentions(#[trigger] ev[j], query.search_query@),
        decreases entries.len() - k,
    {
        let name = chars_of(to_lowercase(entries[k].name.as_str()).as_str());
        marks.push(contains_chars(&name, &needle));
        k = k + 1;
    }
    let r = cross_reference(&hits, &marks, epg, entries, include_hidden);
    proof {
        lemma_marked_labels(ev, marks@, query.search_query@);
    }
    r
}

} // verus!
