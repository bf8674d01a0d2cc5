//! The two-line record of a playlist entry: its grammar, the parser that
//! reads it and the text an entry is written as.
//!
//! A record is a header line and a URL line. The header is the marker
//! `#EXTINF:`, the duration, then attributes of the form ` key="value"` in
//! any order, a comma and the stream's name. The URL line runs to the next
//! newline or to the end of the text.

use vstd::prelude::*;
use vstd::string::{StrSliceExecFns, StringExecFns};
use crate::number::{int_text, parse_int, push_int, read_int};
use crate::playlist::{EntryView, PlaylistEntry};
use crate::text::{
    chars_of, find_char, first_index_of, matches_at, occurs_at, slice_of, string_of, text_of,
};

verus! {

/// The parts of a record that the parser looks for by name.
#[derive(Debug, Clone, Copy, PartialEq, Eq, Structural)]
pub enum EntryKey {
    Duration,
    XuiId,
    TvgId,
    TvgName,
    TvgLogo,
    GroupTitle,
    Name,
    Url,
}

/// The text that marks a part: the record marker before the duration, the
/// key of an attribute, the comma before the name and the newline before
/// the URL.
pub open spec fn key_text(key: EntryKey) -> Seq<char> {
    match key {
        EntryKey::Duration => "#EXTINF:"@,
        EntryKey::XuiId => "xui-id"@,
        EntryKey::TvgId => "tvg-id"@,
        EntryKey::TvgName => "tvg-name"@,
        EntryKey::TvgLogo => "tvg-logo"@,
        EntryKey::GroupTitle => "group-title"@,
        EntryKey::Name => ","@,
        EntryKey::Url => "\n"@,
    }
}

impl EntryKey {
    /// The text that marks the part.
    pub fn as_str(&self) -> (r: &'static str)
        ensures
            r@ == key_text(*self),
    {
        match self {
            EntryKey::Duration => "#EXTINF:",
            EntryKey::XuiId => "xui-id",
            EntryKey::TvgId => "tvg-id",
            EntryKey::TvgName => "tvg-name",
            EntryKey::TvgLogo => "tvg-logo",
            EntryKey::GroupTitle => "group-title",
            EntryKey::Name => ",",
            EntryKey::Url => "\n",
        }
    }
}

/// One attribute of a header.
pub struct Attribute {
    pub key: Seq<char>,
    pub value: Seq<char>,
}

/// The attributes of the header `h` from position `pos` on, and the
/// position of the comma that ends them. At `pos` stands either that
/// comma or a space, which starts an attribute: its key runs to the next
/// `=`, a `"` follows, and its value runs to the next `"`.
pub open spec fn parse_attrs(h: Seq<char>, pos: int) -> Option<(Seq<Attribute>, int)>
    decreases h.len() - pos,
{
    if pos < 0 || pos >= h.len() {
        None
    } else if h[pos] == ',' {
        Some((Seq::empty(), pos))
    } else if h[pos] == ' ' {
        let eq = first_index_of(h, '=', pos + 1);
        let close = first_index_of(h, '"', eq + 2);
        if pos < eq && eq + 1 < close < h.len() && h[eq + 1] == '"' {
            match parse_attrs(h, close + 1) {
                Some((rest, comma)) => Some(
                    (
                        seq![
                            Attribute {
                                key: h.subrange(pos + 1, eq),
                                value: h.subrange(eq + 2, close),
                            },
                        ] + rest,
                        comma,
                    ),
                ),
                None => None,
            }
        } else {
            None
        }
    } else {
        None
    }
}

/// The value of the first attribute of `attrs` with key `key`.
pub open spec fn attr_value(attrs: Seq<Attribute>, key: Seq<char>) -> Option<Seq<char>>
    decreases attrs.len(),
{
    if attrs.len() == 0 {
        None
    } else {
        match attr_value(attrs.drop_last(), key) {
            Some(v) => Some(v),
            None => if attrs.last().key == key {
                Some(attrs.last().value)
            } else {
                None
            },
        }
    }
}

/// What a header holds.
pub struct HeaderView {
    pub duration: int,
    pub attrs: Seq<Attribute>,
    pub name: Seq<char>,
}

/// The header `h` taken apart: it starts with the marker; the duration is
/// the integer written between the marker and the first space; the
/// attributes follow; the name is what stands after their comma.
pub open spec fn parse_header(h: Seq<char>) -> Option<HeaderView> {
    let marker = key_text(EntryKey::Duration);
    let space = first_index_of(h, ' ', marker.len() as int);
    if !occurs_at(h, marker, 0) {
        None
    } else {
        match (parse_int(h.subrange(marker.len() as int, space)), parse_attrs(h, space)) {
            (Some(duration), Some((attrs, comma))) => Some(
                HeaderView { duration, attrs, name: h.subrange(comma + 1, h.len() as int) },
            ),
            _ => None,
        }
    }
}

/// The entry made of a header and a URL, if the header has all five
/// attributes `xui-id`, `tvg-id`, `tvg-name`, `tvg-logo` and
/// `group-title`. The value of `xui-id` is not kept.
pub open spec fn entry_of(header: HeaderView, url: Seq<char>) -> Option<EntryView> {
    match (
        attr_value(header.attrs, key_text(EntryKey::XuiId)),
        attr_value(header.attrs, key_text(EntryKey::TvgId)),
        attr_value(header.attrs, key_text(EntryKey::TvgName)),
        attr_value(header.attrs, key_text(EntryKey::TvgLogo)),
        attr_value(header.attrs, key_text(EntryKey::GroupTitle)),
    ) {
        (Some(_), Some(tvg_id), Some(tvg_name), Some(tvg_logo), Some(group_title)) => Some(
            EntryView {
                duration: header.duration,
                tvg_id,
                tvg_name,
                tvg_logo,
                group_title,
                name: header.name,
                url,
            },
        ),
        _ => None,
    }
}

/// The record at the start of `s`: the entry, and the position where the
/// rest of `s` begins, which is the end of the URL line. The header is the
/// first line, and a newline must end it.
pub open spec fn parse_record(s: Seq<char>) -> Option<(EntryView, int)> {
    let newline = first_index_of(s, '\n', 0);
    let end = first_index_of(s, '\n', newline + 1);
    if newline >= s.len() {
        None
    } else {
        match parse_header(s.subrange(0, newline)) {
            Some(header) => match entry_of(header, s.subrange(newline + 1, end)) {
                Some(entry) => Some((entry, end)),
                None => None,
            },
            None => None,
        }
    }
}

/// The text of the part `key` of the record at the start of `s`, as it
/// is written there: the duration between the marker and the first space,
/// the value of an attribute, the name, or the URL. The header must be
/// one, whatever part is asked for; an attribute must be there.
pub open spec fn part_of(s: Seq<char>, key: EntryKey) -> Option<Seq<char>> {
    let newline = first_index_of(s, '\n', 0);
    let h = s.subrange(0, newline);
    let marker = key_text(EntryKey::Duration);
    if newline >= s.len() {
        None
    } else {
        match parse_header(h) {
            Some(header) => match key {
                EntryKey::Duration => Some(
                    h.subrange(marker.len() as int, first_index_of(h, ' ', marker.len() as int)),
                ),
                EntryKey::Name => Some(header.name),
                EntryKey::Url => Some(
                    s.subrange(newline + 1, first_index_of(s, '\n', newline + 1)),
                ),
                _ => attr_value(header.attrs, key_text(key)),
            },
            None => None,
        }
    }
}

/// The text of one attribute: a space, the key, `="`, the value and `"`.
pub open spec fn attr_text(a: Attribute) -> Seq<char> {
    seq![' '] + a.key + seq!['=', '"'] + a.value + seq!['"']
}

/// The texts of the attributes `attrs`, one after the other.
pub open spec fn attrs_text(attrs: Seq<Attribute>) -> Seq<char>
    decreases attrs.len(),
{
    if attrs.len() == 0 {
        Seq::empty()
    } else {
        attr_text(attrs.first()) + attrs_text(attrs.drop_first())
    }
}

/// The text of a header with the duration written as `duration`.
pub open spec fn header_text(duration: Seq<char>, attrs: Seq<Attribute>, name: Seq<char>) -> Seq<
    char,
> {
    key_text(EntryKey::Duration) + duration + attrs_text(attrs) + seq![','] + name
}

/// The text of a record: the header line, a newline and the URL.
pub open spec fn record_text(
    duration: Seq<char>,
    attrs: Seq<Attribute>,
    name: Seq<char>,
    url: Seq<char>,
) -> Seq<char> {
    header_text(duration, attrs, name) + seq!['\n'] + url
}

/// What is written in place of the value of `xui-id`, which is not kept.
pub open spec fn placeholder() -> Seq<char> {
    "{XUI_ID}"@
}

/// The attributes an entry is written with, in the order they are written in.
pub open spec fn entry_attrs(e: EntryView) -> Seq<Attribute> {
    seq![
        Attribute { key: key_text(EntryKey::XuiId), value: placeholder() },
        Attribute { key: key_text(EntryKey::TvgId), value: e.tvg_id },
        Attribute { key: key_text(EntryKey::TvgName), value: e.tvg_name },
        Attribute { key: key_text(EntryKey::TvgLogo), value: e.tvg_logo },
        Attribute { key: key_text(EntryKey::GroupTitle), value: e.group_title },
    ]
}

/// The record an entry is written as.
pub open spec fn entry_text(e: EntryView) -> Seq<char> {
    record_text(int_text(e.duration), entry_attrs(e), e.name, e.url)
}

/// Appends the text of the attribute `key` with the value `value`.
fn push_attr(out: &mut String, key: EntryKey, value: &str)
    ensures
        final(out)@ == old(out)@ + attr_text(Attribute { key: key_text(key), value: value@ }),
{
    out.push(' ');
    out.append(key.as_str());
    out.push('=');
    out.push('"');
    out.append(value);
    out.push('"');
}

/// The error of a record that is no playlist entry: the marker or the
/// duration is missing, one of the five attributes is, or the header line
/// does not end in a newline.
#[derive(Debug, PartialEq, Eq)]
pub struct MalformedEntry {
    /// The text of the record.
    pub raw_text: String,
}

/// The values of the five attributes, as far as they were found.
struct Found {
    xui_id: Option<String>,
    tvg_id: Option<String>,
    tvg_name: Option<String>,
    tvg_logo: Option<String>,
    group_title: Option<String>,
}

/// The texts of the five attribute keys.
struct Keys {
    xui_id: Vec<char>,
    tvg_id: Vec<char>,
    tvg_name: Vec<char>,
    tvg_logo: Vec<char>,
    group_title: Vec<char>,
}

impl Keys {
    spec fn wf(self) -> bool {
        &&& self.xui_id@ == key_text(EntryKey::XuiId)
        &&& self.tvg_id@ == key_text(EntryKey::TvgId)
        &&& self.tvg_name@ == key_text(EntryKey::TvgName)
        &&& self.tvg_logo@ == key_text(EntryKey::TvgLogo)
        &&& self.group_title@ == key_text(EntryKey::GroupTitle)
    }

    fn new() -> (r: Keys)
        ensures
            r.wf(),
    {
        Keys {
            xui_id: chars_of(EntryKey::XuiId.as_str()),
            tvg_id: chars_of(EntryKey::TvgId.as_str()),
            tvg_name: chars_of(EntryKey::TvgName.as_str()),
            tvg_logo: chars_of(EntryKey::TvgLogo.as_str()),
            group_title: chars_of(EntryKey::GroupTitle.as_str()),
        }
    }
}

impl Found {
    /// Whether the values are those of the attributes `attrs`.
    spec fn of(self, attrs: Seq<Attribute>) -> bool {
        &&& text_of(self.xui_id) == attr_value(attrs, key_text(EntryKey::XuiId))
        &&& text_of(self.tvg_id) == attr_value(attrs, key_text(EntryKey::TvgId))
        &&& text_of(self.tvg_name) == attr_value(attrs, key_text(EntryKey::TvgName))
        &&& text_of(self.tvg_logo) == attr_value(attrs, key_text(EntryKey::TvgLogo))
        &&& text_of(self.group_title) == attr_value(attrs, key_text(EntryKey::GroupTitle))
    }
}

/// Takes note of the attribute with key `h[key_from..key_to]` and value
/// `h[val_from..val_to]` in `slot`, the place for the value of `key`, if
/// the key is `key` and the place is empty.
fn note_attr(
    slot: &mut Option<String>,
    key: &Vec<char>,
    h: &Vec<char>,
    key_from: usize,
    key_to: usize,
    val_from: usize,
    val_to: usize,
    Ghost(done): Ghost<Seq<Attribute>>,
)
    requires
        key_from <= key_to <= val_from <= val_to <= h.len(),
        text_of(*old(slot)) == attr_value(done, key@),
    ensures
        text_of(*final(slot)) == attr_value(
            done.push(
                Attribute {
                    key: h@.subrange(key_from as int, key_to as int),
                    value: h@.subrange(val_from as int, val_to as int),
                },
            ),
            key@,
        ),
{
    proof {
        let a = Attribute {
            key: h@.subrange(key_from as int, key_to as int),
            value: h@.subrange(val_from as int, val_to as int),
        };
        assert(done.push(a).drop_last() =~= done);
    }
    if slot.is_none() && key.len() == key_to - key_from && matches_at(h, key, key_from) {
        *slot = Some(string_of(h, val_from, val_to));
    }
}

/// Reads the attributes of the header `h` from position `space` on.
fn read_attrs(h: &Vec<char>, space: usize) -> (r: Option<(Found, usize)>)
    ensures
        match r {
            Some((found, comma)) => parse_attrs(h@, space as int) is Some && comma == parse_attrs(
                h@,
                space as int,
            ).unwrap().1 && comma < h.len() && found.of(parse_attrs(h@, space as int).unwrap().0),
            None => parse_attrs(h@, space as int) is None,
        },
{
    let keys = Keys::new();
    let mut found = Found {
        xui_id: None,
        tvg_id: None,
        tvg_name: None,
        tvg_logo: None,
        group_title: None,
    };
    let ghost mut done: Seq<Attribute> = Seq::empty();
    let mut pos: usize = space;
    loop
        invariant
            keys.wf(),
            found.of(done),
            parse_attrs(h@, space as int) == match parse_attrs(h@, pos as int) {
                Some((rest, comma)) => Some((done + rest, comma)),
                None => None,
            },
        decreases h.len() - pos,
    {
        if pos >= h.len() {
            return None;
        }
        let c = h[pos];
        if c == ',' {
            return Some((found, pos));
        }
        if c != ' ' {
            return None;
        }
        let eq = find_char(h, '=', pos + 1);
        if eq >= h.len() - 1 {
            return None;
        }
        if h[eq + 1] != '"' {
            return None;
        }
        let close = find_char(h, '"', eq + 2);
        if close >= h.len() {
            return None;
        }
        let ghost a = Attribute {
            key: h@.subrange(pos + 1, eq as int),
            value: h@.subrange(eq + 2, close as int),
        };
        note_attr(&mut found.xui_id, &keys.xui_id, h, pos + 1, eq, eq + 2, close, Ghost(done));
        note_attr(&mut found.tvg_id, &keys.tvg_id, h, pos + 1, eq, eq + 2, close, Ghost(done));
        note_attr(&mut found.tvg_name, &keys.tvg_name, h, pos + 1, eq, eq + 2, close, Ghost(done));
        note_attr(&mut found.tvg_logo, &keys.tvg_logo, h, pos + 1, eq, eq + 2, close, Ghost(done));
        note_attr(
            &mut found.group_title,
            &keys.group_title,
            h,
            pos + 1,
            eq,
            eq + 2,
            close,
            Ghost(done),
        );
        proof {
            done = done.push(a);
        }
        pos = close + 1;
    }
}

/// Reads the header line `h`.
fn read_header(h: &Vec<char>) -> (r: Option<(i32, Found, String)>)
    ensures
        match r {
            Some((duration, found, name)) => parse_header(h@) is Some && duration == parse_header(
                h@,
            ).unwrap().duration && found.of(parse_header(h@).unwrap().attrs) && name@
                == parse_header(h@).unwrap().name,
            None => parse_header(h@) is None,
        },
{
    let marker = chars_of(EntryKey::Duration.as_str());
    if !matches_at(h, &marker, 0) {
        return None;
    }
    let space = find_char(h, ' ', marker.len());
    let duration = match read_int(&slice_of(h, marker.len(), space)) {
        Some(d) => d,
        None => {
            return None;
        },
    };
    let (found, comma) = match read_attrs(h, space) {
        Some(r) => r,
        None => {
            return None;
        },
    };
    let name = string_of(h, comma + 1, h.len());
    Some((duration, found, name))
}

/// Reads the record at the start of `v`: the entry and the position where
/// the rest of `v` begins.
pub fn read_record(v: &Vec<char>) -> (r: Option<(PlaylistEntry, usize)>)
    ensures
        match r {
            Some((entry, end)) => parse_record(v@) == Some((entry@, end as int)) && end <= v.len(),
            None => parse_record(v@) is None,
        },
{
    let newline = find_char(v, '\n', 0);
    if newline >= v.len() {
        return None;
    }
    let (duration, found, name) = match read_header(&slice_of(v, 0, newline)) {
        Some(r) => r,
        None => {
            return None;
        },
    };
    let end = find_char(v, '\n', newline + 1);
    let url = string_of(v, newline + 1, end);
    match (found.xui_id, found.tvg_id, found.tvg_name, found.tvg_logo, found.group_title) {
        (Some(_), Some(tvg_id), Some(tvg_name), Some(tvg_logo), Some(group_title)) => Some(
            (PlaylistEntry { duration, tvg_id, tvg_name, tvg_logo, group_title, name, url }, end),
        ),
        _ => None,
    }
}

/// Gets the text of the part `key` of the record at the start of `i`.
pub fn get(i: &str, key: &EntryKey) -> (r: Result<String, MalformedEntry>)
    ensures
        match r {
            Ok(text) => part_of(i@, *key) == Some(text@),
            Err(e) => part_of(i@, *key) is None && e.raw_text@ == i@,
        },
{
    let v = chars_of(i);
    let newline = find_char(&v, '\n', 0);
    if newline >= v.len() {
        return Err(MalformedEntry { raw_text: i.to_owned() });
    }
    let h = slice_of(&v, 0, newline);
    let (found, name) = match read_header(&h) {
        Some((_, found, name)) => (found, name),
        None => {
            return Err(MalformedEntry { raw_text: i.to_owned() });
        },
    };
    let part = match key {
        EntryKey::Duration => {
            let marker = chars_of(EntryKey::Duration.as_str());
            let space = find_char(&h, ' ', marker.len());
            Some(string_of(&h, marker.len(), space))
        },
        EntryKey::XuiId => found.xui_id,
        EntryKey::TvgId => found.tvg_id,
        EntryKey::TvgName => found.tvg_name,
        EntryKey::TvgLogo => found.tvg_logo,
        EntryKey::GroupTitle => found.group_title,
        EntryKey::Name => Some(name),
        EntryKey::Url => {
            let end = find_char(&v, '\n', newline + 1);
            Some(string_of(&v, newline + 1, end))
        },
    };
    match part {
        Some(text) => Ok(text),
        None => Err(MalformedEntry { raw_text: i.to_owned() }),
    }
}

impl PlaylistEntry {
    /// Writes the entry as a record. In place of the value of `xui-id`
    /// stands the placeholder `{XUI_ID}`.
    pub fn to_string(&self) -> (r: String)
        ensures
            r@ == entry_text(self@),
    {
        let mut out = String::new();
        out.append(EntryKey::Duration.as_str());
        push_int(&mut out, self.duration);
        push_attr(&mut out, EntryKey::XuiId, "{XUI_ID}");
        push_attr(&mut out, EntryKey::TvgId, self.tvg_id.as_str());
        push_attr(&mut out, EntryKey::TvgName, self.tvg_name.as_str());
        push_attr(&mut out, EntryKey::TvgLogo, self.tvg_logo.as_str());
        push_attr(&mut out, EntryKey::GroupTitle, self.group_title.as_str());
        proof {
            let attrs = entry_attrs(self@);
            let a1 = attrs.drop_first();
            let a2 = a1.drop_first();
            let a3 = a2.drop_first();
            let a4 = a3.drop_first();
            assert(attrs_text(a4.drop_first()) =~= Seq::<char>::empty());
            assert(attrs_text(a3) =~= attr_text(attrs[3]) + attrs_text(a4));
            assert(attrs_text(a1) =~= attr_text(attrs[1]) + attrs_text(a2));
        }
        out.push(',');
        out.append(self.name.as_str());
        out.push('\n');
        out.append(self.url.as_str());
        out
    }

    /// Parses the record at the start of `i` and gives the entry with the
    /// text that follows the record. The attributes of the header may come
    /// in any order; an attribute that is not one of the five is passed
    /// over, and of two with one key the first counts.
    pub fn parse(i: &str) -> (r: Result<(&str, PlaylistEntry), MalformedEntry>)
        ensures
            match r {
                Ok((rest, entry)) => parse_record(i@) is Some && entry@ == parse_record(
                    i@,
                ).unwrap().0 && rest@ == i@.subrange(parse_record(i@).unwrap().1, i@.len() as int),
                Err(e) => parse_record(i@) is None && e.raw_text@ == i@,
            },
    {
        let v = chars_of(i);
        match read_record(&v) {
            Some((entry, end)) => Ok((i.substring_char(end, v.len()), entry)),
            None => Err(MalformedEntry { raw_text: i.to_owned() }),
        }
    }
}

} // verus!
