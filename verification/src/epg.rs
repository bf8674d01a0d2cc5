//! The TV guide: channels and programmes, their XML text, pruning to a set
//! of channels, and the search for current and coming programmes.

use vstd::prelude::*;
use vstd::string::StringExecFns;
use crate::lookup::{find_last, id_views, last_with, lemma_last_with};
use crate::text::{chars_of, chars_of_strings, is_listed, string_views};
use crate::timestamp::{chrono_reading, holds, readable, MalformedTimestamp, Timestamp};

verus! {

/// The picture of a channel.
#[derive(Debug)]
pub struct Icon {
    pub src: String,
}

/// A channel of the guide.
#[derive(Debug)]
pub struct Channel {
    /// Join key; equals the `tvg_id` of the playlist entries of the channel.
    pub id: String,
    pub display_name: String,
    pub icon: Option<Icon>,
}

/// One scheduled broadcast.
#[derive(Debug)]
pub struct Programme {
    pub start: Timestamp,
    pub stop: Timestamp,
    /// Id of the channel that airs the programme.
    pub channel: String,
    pub title: String,
    pub desc: String,
}

/// A programme as the feed gives it, its two times still text.
#[derive(Debug)]
pub struct RawProgramme {
    pub start: String,
    pub stop: String,
    pub channel: String,
    pub title: String,
    pub desc: String,
}

/// The guide: channels and programmes in document order.
#[derive(Debug)]
pub struct Epg {
    pub channels: Vec<Channel>,
    pub programmes: Vec<Programme>,
}

/// The mathematical content of a `Channel`.
pub struct ChannelView {
    pub id: Seq<char>,
    pub display_name: Seq<char>,
    pub icon: Option<Seq<char>>,
}

/// The mathematical content of a `Programme`.
pub struct ProgrammeView {
    pub start: Timestamp,
    pub stop: Timestamp,
    pub channel: Seq<char>,
    pub title: Seq<char>,
    pub desc: Seq<char>,
}

impl View for Channel {
    type V = ChannelView;

    open spec fn view(&self) -> ChannelView {
        ChannelView {
            id: self.id@,
            display_name: self.display_name@,
            icon: match self.icon {
                Some(icon) => Some(icon.src@),
                None => None,
            },
        }
    }
}

impl View for Programme {
    type V = ProgrammeView;

    open spec fn view(&self) -> ProgrammeView {
        ProgrammeView {
            start: self.start,
            stop: self.stop,
            channel: self.channel@,
            title: self.title@,
            desc: self.desc@,
        }
    }
}

impl Clone for Channel {
    fn clone(&self) -> (r: Self)
        ensures
            r@ == self@,
    {
        let icon = match &self.icon {
            Some(icon) => Some(Icon { src: icon.src.clone() }),
            None => None,
        };
        Channel { id: self.id.clone(), display_name: self.display_name.clone(), icon }
    }
}

impl Clone for Programme {
    fn clone(&self) -> (r: Self)
        ensures
            r@ == self@,
    {
        Programme {
            start: self.start,
            stop: self.stop,
            channel: self.channel.clone(),
            title: self.title.clone(),
            desc: self.desc.clone(),
        }
    }
}

impl Clone for Epg {
    fn clone(&self) -> (r: Self)
        ensures
            channel_views(r.channels@) == channel_views(self.channels@),
            programme_views(r.programmes@) == programme_views(self.programmes@),
    {
        let mut channels: Vec<Channel> = Vec::new();
        let mut i: usize = 0;
        while i < self.channels.len()
            invariant
                i <= self.channels.len(),
                channels.len() == i,
                forall|j: int| 0 <= j < i ==> #[trigger] channels[j]@ == self.channels[j]@,
            decreases self.channels.len() - i,
        {
            channels.push(self.channels[i].clone());
            i = i + 1;
        }
        let mut programmes: Vec<Programme> = Vec::new();
        let mut k: usize = 0;
        while k < self.programmes.len()
            invariant
                k <= self.programmes.len(),
                programmes.len() == k,
                forall|j: int| 0 <= j < k ==> #[trigger] programmes[j]@ == self.programmes[j]@,
            decreases self.programmes.len() - k,
        {
            programmes.push(self.programmes[k].clone());
            k = k + 1;
        }
        Epg { channels, programmes }
    }
}

/// The views of a sequence of channels, in order.
pub open spec fn channel_views(s: Seq<Channel>) -> Seq<ChannelView> {
    s.map_values(|c: Channel| c@)
}

/// The views of a sequence of programmes, in order.
pub open spec fn programme_views(s: Seq<Programme>) -> Seq<ProgrammeView> {
    s.map_values(|p: Programme| p@)
}

/// What one character becomes in XML text: the five characters
/// `& < > " '` become entities, every other character stays.
pub open spec fn escaped_char(c: char) -> Seq<char> {
    if c == '&' {
        seq!['&', 'a', 'm', 'p', ';']
    } else if c == '<' {
        seq!['&', 'l', 't', ';']
    } else if c == '>' {
        seq!['&', 'g', 't', ';']
    } else if c == '"' {
        seq!['&', 'q', 'u', 'o', 't', ';']
    } else if c == '\'' {
        seq!['&', 'a', 'p', 'o', 's', ';']
    } else {
        seq![c]
    }
}

/// The text `s` with each character escaped for XML.
pub open spec fn escaped(s: Seq<char>) -> Seq<char>
    decreases s.len(),
{
    if s.len() == 0 {
        Seq::empty()
    } else {
        escaped(s.drop_last()) + escaped_char(s.last())
    }
}

/// Escapes the five characters `& < > " '` of `s` as XML entities.
pub fn escape_xml(s: &str) -> (r: String)
    ensures
        r@ == escaped(s@),
{
    let v = chars_of(s);
    let mut out = String::new();
    let mut i: usize = 0;
    while i < v.len()
        invariant
            i <= v.len(),
            out@ == escaped(v@.take(i as int)),
        decreases v.len() - i,
    {
        let c = v[i];
        if c == '&' {
            out.push('&');
            out.push('a');
            out.push('m');
            out.push('p');
            out.push(';');
        } else if c == '<' {
            out.push('&');
            out.push('l');
            out.push('t');
            out.push(';');
        } else if c == '>' {
            out.push('&');
            out.push('g');
            out.push('t');
            out.push(';');
        } else if c == '"' {
            out.push('&');
            out.push('q');
            out.push('u');
            out.push('o');
            out.push('t');
            out.push(';');
        } else if c == '\'' {
            out.push('&');
            out.push('a');
            out.push('p');
            out.push('o');
            out.push('s');
            out.push(';');
        } else {
            out.push(c);
        }
        proof {
            assert(v@.take(i + 1).drop_last() =~= v@.take(i as int));
        }
        i = i + 1;
    }
    assert(v@.take(v.len() as int) =~= v@);
    out
}

/// The XML element of one channel.
pub open spec fn channel_xml(c: ChannelView) -> Seq<char> {
    "\n<channel id=\""@ + escaped(c.id) + "\">"@ + "\n<display-name>"@ + escaped(c.display_name)
        + "</display-name>"@ + match c.icon {
        Some(src) => "\n<icon src=\""@ + escaped(src) + "\"/>"@,
        None => Seq::empty(),
    } + "\n</channel>"@
}

/// The XML element of one programme.
pub open spec fn programme_xml(p: ProgrammeView) -> Seq<char> {
    "\n<programme start=\""@ + p.start.guide_text() + "\" stop=\""@ + p.stop.guide_text()
        + "\" channel=\""@ + escaped(p.channel) + "\">"@ + "\n<title>"@ + escaped(p.title)
        + "</title>"@ + "\n<desc>"@ + escaped(p.desc) + "</desc>"@ + "\n</programme>"@
}

/// The XML elements of a list of channels, one after the other.
pub open spec fn channels_xml(s: Seq<ChannelView>) -> Seq<char>
    decreases s.len(),
{
    if s.len() == 0 {
        Seq::empty()
    } else {
        channels_xml(s.drop_last()) + channel_xml(s.last())
    }
}

/// The XML elements of a list of programmes, one after the other.
pub open spec fn programmes_xml(s: Seq<ProgrammeView>) -> Seq<char>
    decreases s.len(),
{
    if s.len() == 0 {
        Seq::empty()
    } else {
        programmes_xml(s.drop_last()) + programme_xml(s.last())
    }
}

/// The guide document: the fixed preamble, every channel, every programme,
/// and the closing tag.
pub open spec fn guide_xml(channels: Seq<ChannelView>, programmes: Seq<ProgrammeView>) -> Seq<
    char,
> {
    "<?xml version=\"1.0\" encoding=\"utf-8\"?>\n<!DOCTYPE tv SYSTEM \"xmltv.dtd\">\n<tv generator-info-name=\"NXT\" generator-info-url=\"nxtplay.xyz\">"@
        + channels_xml(channels) + programmes_xml(programmes) + "\n</tv>"@
}

/// The channels of `s` whose id is one of `ids`.
pub open spec fn kept_channels(s: Seq<ChannelView>, ids: Seq<Seq<char>>) -> Seq<ChannelView> {
    s.filter(|c: ChannelView| ids.contains(c.id))
}

/// The programmes of `s` whose channel id is one of `ids`.
pub open spec fn kept_programmes(s: Seq<ProgrammeView>, ids: Seq<Seq<char>>) -> Seq<
    ProgrammeView,
> {
    s.filter(|p: ProgrammeView| ids.contains(p.channel))
}

/// Copies the channels that `keep` marks, in order.
fn marked_channels(
    channels: &Vec<Channel>,
    keep: &Vec<bool>,
    Ghost(pred): Ghost<spec_fn(ChannelView) -> bool>,
) -> (out: Vec<Channel>)
    requires
        keep.len() == channels.len(),
        forall|i: int| 0 <= i < channels.len() ==> keep[i] == pred(#[trigger] channels[i]@),
    ensures
        channel_views(out@) == channel_views(channels@).filter(pred),
{
    let mut out: Vec<Channel> = Vec::new();
    let mut i: usize = 0;
    proof {
        reveal(Seq::filter);
    }
    while i < channels.len()
        invariant
            i <= channels.len(),
            keep.len() == channels.len(),
            forall|j: int| 0 <= j < channels.len() ==> keep[j] == pred(#[trigger] channels[j]@),
            channel_views(out@) == channel_views(channels@).take(i as int).filter(pred),
        decreases channels.len() - i,
    {
        let ghost all = channel_views(channels@);
        if keep[i] {
            out.push(channels[i].clone());
        }
        proof {
            reveal(Seq::filter);
            assert(all.take(i + 1).drop_last() =~= all.take(i as int));
        }
        i = i + 1;
    }
    proof {
        assert(channel_views(channels@).take(channels.len() as int) =~= channel_views(channels@));
    }
    out
}

/// Copies the programmes that `keep` marks, in order.
fn marked_programmes(
    programmes: &Vec<Programme>,
    keep: &Vec<bool>,
    Ghost(pred): Ghost<spec_fn(ProgrammeView) -> bool>,
) -> (out: Vec<Programme>)
    requires
        keep.len() == programmes.len(),
        forall|i: int| 0 <= i < programmes.len() ==> keep[i] == pred(#[trigger] programmes[i]@),
    ensures
        programme_views(out@) == programme_views(programmes@).filter(pred),
{
    let mut out: Vec<Programme> = Vec::new();
    let mut i: usize = 0;
    proof {
        reveal(Seq::filter);
    }
    while i < programmes.len()
        invariant
            i <= programmes.len(),
            keep.len() == programmes.len(),
            forall|j: int|
                0 <= j < programmes.len() ==> keep[j] == pred(#[trigger] programmes[j]@),
            programme_views(out@) == programme_views(programmes@).take(i as int).filter(pred),
        decreases programmes.len() - i,
    {
        let ghost all = programme_views(programmes@);
        if keep[i] {
            out.push(programmes[i].clone());
        }
        proof {
            reveal(Seq::filter);
            assert(all.take(i + 1).drop_last() =~= all.take(i as int));
        }
        i = i + 1;
    }
    proof {
        assert(programme_views(programmes@).take(programmes.len() as int) =~= programme_views(
            programmes@,
        ));
    }
    out
}

/// The ids of a list of channels, in order.
pub open spec fn channel_ids(s: Seq<ChannelView>) -> Seq<Seq<char>> {
    s.map_values(|c: ChannelView| c.id)
}

/// The channel that the id `id` stands for: the last of `s` with that id.
pub open spec fn channel_for(s: Seq<ChannelView>, id: Seq<char>) -> Option<ChannelView> {
    match last_with(channel_ids(s), id) {
        Some(i) => Some(s[i]),
        None => None,
    }
}

/// The channels of a guide, to be looked up by id. Where two channels
/// share an id, the later one is found.
pub struct ChannelMap {
    ids: Vec<Vec<char>>,
    channels: Vec<Channel>,
}

impl ChannelMap {
    #[verifier::type_invariant]
    closed spec fn inv(self) -> bool {
        &&& self.ids.len() == self.channels.len()
        &&& forall|i: int| 0 <= i < self.ids.len() ==> #[trigger] self.ids[i]@ == self.channels[i].id@
    }

    /// The channels held, in document order.
    pub closed spec fn channels(self) -> Seq<ChannelView> {
        channel_views(self.channels@)
    }

    /// Looks up the channel with id `id`.
    pub fn get(&self, id: &str) -> (r: Option<&Channel>)
        ensures
            match r {
                Some(c) => channel_for(self.channels(), id@) == Some(c@),
                None => channel_for(self.channels(), id@) is None,
            },
    {
        proof {
            use_type_invariant(self);
            assert(id_views(self.ids@) =~= channel_ids(self.channels()));
            lemma_last_with(channel_ids(self.channels()), id@);
        }
        let wanted = chars_of(id);
        match find_last(&self.ids, &wanted) {
            Some(i) => Some(&self.channels[i]),
            None => None,
        }
    }
}

/// Whether both times of the raw programme are timestamps of the guide.
pub open spec fn times_readable(p: RawProgramme) -> bool {
    readable(p.start@) && readable(p.stop@)
}

/// Whether `p` is the raw programme `raw` with its times read.
pub open spec fn reads_as(raw: RawProgramme, p: ProgrammeView) -> bool {
    &&& holds(p.start, chrono_reading(raw.start@))
    &&& holds(p.stop, chrono_reading(raw.stop@))
    &&& p.channel == raw.channel@
    &&& p.title == raw.title@
    &&& p.desc == raw.desc@
}

/// Whether `text` is the first time of `raw`, in document order and start
/// before stop, that is no timestamp of the guide.
pub open spec fn first_unreadable(raw: Seq<RawProgramme>, text: Seq<char>) -> bool {
    exists|i: int|
        0 <= i < raw.len() && (forall|j: int| 0 <= j < i ==> times_readable(#[trigger] raw[j])) && {
            ||| !readable((#[trigger] raw[i]).start@) && text == raw[i].start@
            ||| readable(raw[i].start@) && !readable(raw[i].stop@) && text == raw[i].stop@
        }
}

/// Appends the XML element of `c` to `out`.
fn push_channel_xml(out: &mut String, c: &Channel)
    ensures
        final(out)@ == old(out)@ + channel_xml(c@),
{
    out.append("\n<channel id=\"");
    out.append(escape_xml(c.id.as_str()).as_str());
    out.append("\">");
    out.append("\n<display-name>");
    out.append(escape_xml(c.display_name.as_str()).as_str());
    out.append("</display-name>");
    match &c.icon {
        Some(icon) => {
            out.append("\n<icon src=\"");
            out.append(escape_xml(icon.src.as_str()).as_str());
            out.append("\"/>");
        },
        None => {},
    }
    out.append("\n</channel>");
}

/// Appends the XML element of `p` to `out`.
fn push_programme_xml(out: &mut String, p: &Programme)
    ensures
        final(out)@ == old(out)@ + programme_xml(p@),
{
    out.append("\n<programme start=\"");
    out.append(p.start.to_guide_text().as_str());
    out.append("\" stop=\"");
    out.append(p.stop.to_guide_text().as_str());
    out.append("\" channel=\"");
    out.append(escape_xml(p.channel.as_str()).as_str());
    out.append("\">");
    out.append("\n<title>");
    out.append(escape_xml(p.title.as_str()).as_str());
    out.append("</title>");
    out.append("\n<desc>");
    out.append(escape_xml(p.desc.as_str()).as_str());
    out.append("</desc>");
    out.append("\n</programme>");
}

impl Epg {
    /// The views of the channels.
    pub open spec fn channel_seq(&self) -> Seq<ChannelView> {
        channel_views(self.channels@)
    }

    /// The views of the programmes.
    pub open spec fn programme_seq(&self) -> Seq<ProgrammeView> {
        programme_views(self.programmes@)
    }

    /// Narrows the guide to the channels whose id is in `channels_to_keep`
    /// and to the programmes of those channels; order is kept.
    pub fn filter_channels(&mut self, channels_to_keep: &[String])
        ensures
            final(self).channel_seq() == kept_channels(
                old(self).channel_seq(),
                string_views(channels_to_keep@),
            ),
            final(self).programme_seq() == kept_programmes(
                old(self).programme_seq(),
                string_views(channels_to_keep@),
            ),
    {
        let ids = chars_of_strings(channels_to_keep);
        let ghost ids_view = string_views(channels_to_keep@);
        let ghost keep_channel = |c: ChannelView| ids_view.contains(c.id);
        let ghost keep_programme = |p: ProgrammeView| ids_view.contains(p.channel);
        let mut marks: Vec<bool> = Vec::new();
        let mut i: usize = 0;
        while i < self.channels.len()
            invariant
                i <= self.channels.len(),
                marks.len() == i,
                *self == *old(self),
                ids.len() == channels_to_keep.len(),
                ids_view == string_views(channels_to_keep@),
                forall|k: int|
                    0 <= k < channels_to_keep.len() ==> #[trigger] ids[k]@ == channels_to_keep[k]@,
                forall|j: int|
                    0 <= j < i ==> marks[j] == ids_view.contains((#[trigger] self.channels[j]@).id),
            decreases self.channels.len() - i,
        {
            let id = chars_of(self.channels[i].id.as_str());
            let listed = is_listed(&id, &ids);
            proof {
                let c = self.channels[i as int]@;
                if listed {
                    let k = choose|k: int| 0 <= k < ids.len() && #[trigger] ids[k]@ == id@;
                    assert(ids_view[k] == c.id);
                } else if ids_view.contains(c.id) {
                    let k = choose|k: int| 0 <= k < ids_view.len() && ids_view[k] == c.id;
                    assert(ids[k]@ == id@);
                }
            }
            marks.push(listed);
            i = i + 1;
        }
        let channels = marked_channels(&self.channels, &marks, Ghost(keep_channel));
        let mut marks: Vec<bool> = Vec::new();
        let mut i: usize = 0;
        while i < self.programmes.len()
            invariant
                i <= self.programmes.len(),
                marks.len() == i,
                *self == *old(self),
                ids.len() == channels_to_keep.len(),
                ids_view == string_views(channels_to_keep@),
                forall|k: int|
                    0 <= k < channels_to_keep.len() ==> #[trigger] ids[k]@ == channels_to_keep[k]@,
                forall|j: int|
                    0 <= j < i ==> marks[j] == ids_view.contains(
                        (#[trigger] self.programmes[j]@).channel,
                    ),
            decreases self.programmes.len() - i,
        {
            let id = chars_of(self.programmes[i].channel.as_str());
            let listed = is_listed(&id, &ids);
            proof {
                let p = self.programmes[i as int]@;
                if listed {
                    let k = choose|k: int| 0 <= k < ids.len() && #[trigger] ids[k]@ == id@;
                    assert(ids_view[k] == p.channel);
                } else if ids_view.contains(p.channel) {
                    let k = choose|k: int| 0 <= k < ids_view.len() && ids_view[k] == p.channel;
                    assert(ids[k]@ == id@);
                }
            }
            marks.push(listed);
            i = i + 1;
        }
        let programmes = marked_programmes(&self.programmes, &marks, Ghost(keep_programme));
        self.channels = channels;
        self.programmes = programmes;
    }

    /// Builds the guide from its channels and raw programmes, reading
    /// every time. One time that is no timestamp of the guide fails the
    /// whole document, with the first such time as the error.
    pub fn from_parts(channels: Vec<Channel>, programmes: Vec<RawProgramme>) -> (r: Result<
        Epg,
        MalformedTimestamp,
    >)
        ensures
            r is Ok <==> forall|i: int|
                0 <= i < programmes.len() ==> times_readable(#[trigger] programmes[i]),
            r matches Ok(epg) ==> epg.channel_seq() == channel_views(channels@)
                && epg.programmes.len() == programmes.len() && forall|i: int|
                0 <= i < programmes.len() ==> reads_as(
                    programmes[i],
                    #[trigger] epg.programme_seq()[i],
                ),
            r matches Err(e) ==> first_unreadable(programmes@, e.text@),
    {
        let mut read: Vec<Programme> = Vec::new();
        let mut i: usize = 0;
        while i < programmes.len()
            invariant
                i <= programmes.len(),
                read.len() == i,
                forall|j: int| 0 <= j < i ==> times_readable(#[trigger] programmes[j]),
                forall|j: int| 0 <= j < i ==> reads_as(programmes[j], #[trigger] read[j]@),
            decreases programmes.len() - i,
        {
            let raw = &programmes[i];
            let start = match Timestamp::parse(raw.start.as_str()) {
                Ok(t) => t,
                Err(e) => {
                    return Err(e);
                },
            };
            let stop = match Timestamp::parse(raw.stop.as_str()) {
                Ok(t) => t,
                Err(e) => {
                    return Err(e);
                },
            };
            read.push(
                Programme {
                    start,
                    stop,
                    channel: raw.channel.clone(),
                    title: raw.title.clone(),
                    desc: raw.desc.clone(),
                },
            );
            i = i + 1;
        }
        let epg = Epg { channels, programmes: read };
        Ok(epg)
    }

    /// The channels of the guide for lookup by id.
    pub fn channel_map(&self) -> (r: ChannelMap)
        ensures
            r.channels() == self.channel_seq(),
    {
        let mut ids: Vec<Vec<char>> = Vec::new();
        let mut channels: Vec<Channel> = Vec::new();
        let mut i: usize = 0;
        while i < self.channels.len()
            invariant
                i <= self.channels.len(),
                ids.len() == i,
                channels.len() == i,
                forall|j: int| 0 <= j < i ==> #[trigger] ids[j]@ == channels[j].id@,
                forall|j: int| 0 <= j < i ==> #[trigger] channels[j]@ == self.channels[j]@,
            decreases self.channels.len() - i,
        {
            let c = self.channels[i].clone();
            ids.push(chars_of(c.id.as_str()));
            channels.push(c);
            i = i + 1;
        }
        ChannelMap { ids, channels }
    }

    /// Writes the guide as XML: the preamble, one element per channel, one
    /// per programme with its times in the pattern they were read in, and
    /// the closing tag.
    pub fn to_xml(&self) -> (r: String)
        ensures
            r@ == guide_xml(self.channel_seq(), self.programme_seq()),
    {
        let mut out = String::new();
        out.append(
            "<?xml version=\"1.0\" encoding=\"utf-8\"?>\n<!DOCTYPE tv SYSTEM \"xmltv.dtd\">\n<tv generator-info-name=\"NXT\" generator-info-url=\"nxtplay.xyz\">",
        );
        let ghost head = out@;
        let mut i: usize = 0;
        while i < self.channels.len()
            invariant
                i <= self.channels.len(),
                out@ == head + channels_xml(self.channel_seq().take(i as int)),
            decreases self.channels.len() - i,
        {
            push_channel_xml(&mut out, &self.channels[i]);
            proof {
                let s = self.channel_seq();
                assert(s.take(i + 1).drop_last() =~= s.take(i as int));
            }
            i = i + 1;
        }
        assert(self.channel_seq().take(self.channels.len() as int) =~= self.channel_seq());
        let ghost mid = out@;
        let mut k: usize = 0;
        while k < self.programmes.len()
            invariant
                k <= self.programmes.len(),
                out@ == mid + programmes_xml(self.programme_seq().take(k as int)),
            decreases self.programmes.len() - k,
        {
            push_programme_xml(&mut out, &self.programmes[k]);
            proof {
                let s = self.programme_seq();
                assert(s.take(k + 1).drop_last() =~= s.take(k as int));
            }
            k = k + 1;
        }
        assert(self.programme_seq().take(self.programmes.len() as int) =~= self.programme_seq());
        out.append("\n</tv>");
        out
    }
}

} // verus!
