//! What the service decides between a request and its answer, apart from
//! the fetching and the sending: whether a download is allowed, what an
//! upstream answer comes to, and the guide that goes with a playlist.

use vstd::prelude::*;
use crate::cache::{is_success, FetchOutcome};
use crate::document::{parses_to, well_formed};
use crate::epg::{
    channel_views, guide_xml, kept_channels, kept_programmes, reads_as, times_readable, Channel,
    Epg, RawProgramme,
};
use crate::playlist::{
    entry_ids, str_views, without_containing, without_extensions, without_groups, EntryView,
    Playlist,
};
use crate::text::{chars_of, same_chars};

verus! {

/// What a download request carries.
#[derive(Debug)]
pub struct DownloadQuery {
    /// The password the requester gave.
    pub pw: String,
}

impl DownloadQuery {
    /// Whether the password given is `password`.
    pub fn is_authorized(&self, password: &str) -> (r: bool)
        ensures
            r == (self.pw@ == password@),
    {
        same_chars(&chars_of(self.pw.as_str()), &chars_of(password))
    }
}

/// The filtered view that the exclusions leave of `full`: without the
/// groups named, then without the groups that hold a snippet, then without
/// the links to files.
pub open spec fn after_exclusions(
    full: Seq<EntryView>,
    groups: Seq<Seq<char>>,
    snippets: Seq<Seq<char>>,
) -> Seq<EntryView> {
    without_extensions(without_containing(without_groups(full, groups), snippets))
}

/// What an answer of the playlist source comes to: the playlist, with the
/// exclusions applied, where the status reports success and the body is a
/// well-formed document; a failed fetch otherwise.
pub fn playlist_outcome(status: u16, body: &str, groups: Vec<&str>, snippets: Vec<&str>) -> (r:
    FetchOutcome<Playlist>)
    ensures
        r is Fetched <==> is_success(status) && well_formed(body@),
        r matches FetchOutcome::Fetched(playlist) ==> parses_to(body@, playlist.full())
            && playlist.filtered() == after_exclusions(
            playlist.full(),
            str_views(groups@),
            str_views(snippets@),
        ) && playlist.wf(),
{
    if status < 200 || status > 299 {
        return FetchOutcome::Failed;
    }
    match Playlist::from_str(body) {
        Ok(mut playlist) => {
            playlist.apply_exclusions(groups, snippets);
            FetchOutcome::Fetched(playlist)
        },
        Err(_) => FetchOutcome::Failed,
    }
}

/// Whether every time of the raw programmes is a timestamp of the guide.
pub open spec fn all_readable(programmes: Seq<RawProgramme>) -> bool {
    forall|i: int| 0 <= i < programmes.len() ==> times_readable(#[trigger] programmes[i])
}

/// Whether `epg` is the guide of the channels and raw programmes: the
/// same channels, and each programme with its times read.
pub open spec fn guide_of(epg: Epg, channels: Seq<Channel>, programmes: Seq<RawProgramme>) -> bool {
    &&& epg.channel_seq() == channel_views(channels)
    &&& epg.programmes.len() == programmes.len()
    &&& forall|i: int|
        0 <= i < programmes.len() ==> reads_as(programmes[i], #[trigger] epg.programme_seq()[i])
}

/// What an answer of the guide source comes to, given the channels and
/// raw programmes read from its body, if it could be read: the guide
/// where the status reports success, the body was read and every time is
/// a timestamp of the guide; a failed fetch otherwise.
pub fn guide_outcome(status: u16, document: Option<(Vec<Channel>, Vec<RawProgramme>)>) -> (r:
    FetchOutcome<Epg>)
    ensures
        r is Fetched <==> is_success(status) && match document {
            Some((_, programmes)) => all_readable(programmes@),
            None => false,
        },
        r matches FetchOutcome::Fetched(epg) ==> match document {
            Some((channels, programmes)) => guide_of(epg, channels@, programmes@),
            None => false,
        },
{
    if status < 200 || status > 299 {
        return FetchOutcome::Failed;
    }
    match document {
        Some((channels, programmes)) => match Epg::from_parts(channels, programmes) {
            Ok(epg) => FetchOutcome::Fetched(epg),
            Err(_) => FetchOutcome::Failed,
        },
        None => FetchOutcome::Failed,
    }
}

/// The guide as XML, narrowed to the channels that the filtered view of
/// the playlist offers.
pub fn guide_for_playlist(epg: Epg, playlist: &Playlist) -> (r: String)
    ensures
        r@ == guide_xml(
            kept_channels(epg.channel_seq(), entry_ids(playlist.filtered())),
            kept_programmes(epg.programme_seq(), entry_ids(playlist.filtered())),
        ),
{
    let mut epg = epg;
    let ids = playlist.filtered_channel_ids();
    epg.filter_channels(ids.as_slice());
    epg.to_xml()
}

} // verus!
