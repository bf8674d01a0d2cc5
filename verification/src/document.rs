//! The playlist document: a header line, then one two-line record per
//! entry.

use vstd::prelude::*;
use vstd::string::StringExecFns;
use crate::lines::{line_views, lines_of, split_lines, trim, trimmed};
use crate::playlist::{
    entry_ids, without_containing, without_extensions, without_groups, EntryView,
    Playlist, PlaylistEntry, str_views,
};
use crate::record::{entry_text, parse_record, read_record, MalformedEntry};
use crate::text::{chars_of, join_with, joined, slice_of, string_of, string_views};

verus! {

/// The records that a list of entries is written as, in order.
pub open spec fn entry_texts(s: Seq<EntryView>) -> Seq<Seq<char>> {
    s.map_values(|e: EntryView| entry_text(e))
}

/// The document of a list of entries: the line `#EXTM3U`, then the
/// records with a newline between each two.
pub open spec fn document_text(entries: Seq<EntryView>) -> Seq<char> {
    "#EXTM3U\n"@ + joined(entry_texts(entries), "\n"@)
}

/// How many records the lines hold: the first line is the document header
/// and belongs to none; of the others each two make one record, and a
/// last line alone makes one too.
pub open spec fn chunk_count(lines: Seq<Seq<char>>) -> int {
    lines.len() as int / 2
}

/// The text of record `k`: its two lines with a newline between them, or
/// its one line where the second is missing.
pub open spec fn chunk_text(lines: Seq<Seq<char>>, k: int) -> Seq<char> {
    if 2 * k + 2 < lines.len() {
        lines[2 * k + 1] + seq!['\n'] + lines[2 * k + 2]
    } else {
        lines[2 * k + 1]
    }
}

/// The entry of record `k`, parsed from its text without the white space
/// around it.
pub open spec fn chunk_entry(lines: Seq<Seq<char>>, k: int) -> Option<EntryView> {
    match parse_record(trimmed(chunk_text(lines, k))) {
        Some((entry, _)) => Some(entry),
        None => None,
    }
}

/// Whether every record of the document `text` is an entry.
pub open spec fn well_formed(text: Seq<char>) -> bool {
    forall|k: int|
        0 <= k < chunk_count(lines_of(text)) ==> (#[trigger] chunk_entry(lines_of(text), k)) is Some
}

/// Whether `entries` are the entries of the records of `text`, in order.
pub open spec fn parses_to(text: Seq<char>, entries: Seq<EntryView>) -> bool {
    &&& entries.len() == chunk_count(lines_of(text))
    &&& forall|k: int|
        0 <= k < entries.len() ==> chunk_entry(lines_of(text), k) == Some(#[trigger] entries[k])
}

/// Whether `raw` is the text of the first record of `text` that is no entry.
pub open spec fn first_malformed(text: Seq<char>, raw: Seq<char>) -> bool {
    exists|k: int|
        0 <= k < chunk_count(lines_of(text)) && (forall|j: int|
            0 <= j < k ==> (#[trigger] chunk_entry(lines_of(text), j)) is Some) && chunk_entry(
            lines_of(text),
            k,
        ) is None && raw == #[trigger] chunk_text(lines_of(text), k)
}

/// Puts together the text of record `k` from its lines.
fn chunk_record(lines: &Vec<Vec<char>>, k: usize) -> (record: Vec<char>)
    requires
        k < lines.len() / 2,
    ensures
        record@ == chunk_text(line_views(lines@), k as int),
{
    let first = &lines[2 * k + 1];
    let mut record: Vec<char> = slice_of(first, 0, first.len());
    if 2 * k + 2 < lines.len() {
        record.push('\n');
        let second = &lines[2 * k + 2];
        let ghost head = record@;
        let mut i: usize = 0;
        while i < second.len()
            invariant
                i <= second.len(),
                record@ == head + second@.take(i as int),
            decreases second.len() - i,
        {
            record.push(second[i]);
            i = i + 1;
        }
    }
    record
}

/// Reads record `k` of the lines: its entry, or the error with its text.
fn read_chunk(lines: &Vec<Vec<char>>, k: usize) -> (r: Result<PlaylistEntry, MalformedEntry>)
    requires
        k < lines.len() / 2,
    ensures
        match r {
            Ok(entry) => chunk_entry(line_views(lines@), k as int) == Some(entry@),
            Err(e) => chunk_entry(line_views(lines@), k as int) is None && e.raw_text@
                == chunk_text(line_views(lines@), k as int),
        },
{
    let record = chunk_record(lines, k);
    match read_record(&trim(&record)) {
        Some((entry, _)) => Ok(entry),
        None => {
            let raw_text = string_of(&record, 0, record.len());
            Err(MalformedEntry { raw_text })
        },
    }
}

impl Playlist {
    /// Writes the document of the filtered view.
    pub fn to_m3u(&self) -> (r: String)
        ensures
            r@ == document_text(self.filtered()),
    {
        let mut records: Vec<String> = Vec::new();
        let mut i: usize = 0;
        while i < self.filtered_entries.len()
            invariant
                i <= self.filtered_entries.len(),
                records.len() == i,
                forall|j: int|
                    0 <= j < i ==> (#[trigger] records[j])@ == entry_text(
                        self.filtered_entries[j]@,
                    ),
            decreases self.filtered_entries.len() - i,
        {
            records.push(self.filtered_entries[i].to_string());
            i = i + 1;
        }
        assert(string_views(records@) =~= entry_texts(self.filtered()));
        let mut out = "#EXTM3U\n".to_owned();
        out.append(join_with(&records, "\n").as_str());
        out
    }

    /// Parses a playlist document. The first line is passed over; of the
    /// lines after it each two are a record. One record that is no entry
    /// fails the whole document, with that record as the error. Nothing is
    /// excluded from the playlist that is returned.
    pub fn from_str(s: &str) -> (r: Result<Playlist, MalformedEntry>)
        ensures
            r is Ok <==> well_formed(s@),
            r matches Ok(playlist) ==> parses_to(s@, playlist.full()) && playlist.filtered()
                == playlist.full() && playlist.wf(),
            r matches Err(e) ==> first_malformed(s@, e.raw_text@),
    {
        let v = chars_of(s);
        let lines = split_lines(&v);
        let ghost ls = lines_of(s@);
        let count = lines.len() / 2;
        let mut entries: Vec<PlaylistEntry> = Vec::new();
        let mut k: usize = 0;
        while k < count
            invariant
                k <= count,
                count == lines.len() / 2,
                ls == lines_of(s@),
                ls == line_views(lines@),
                entries.len() == k,
                forall|j: int| 0 <= j < k ==> chunk_entry(ls, j) == Some(#[trigger] entries[j]@),
                forall|j: int| 0 <= j < k ==> (#[trigger] chunk_entry(ls, j)) is Some,
            decreases count - k,
        {
            match read_chunk(&lines, k) {
                Ok(entry) => {
                    entries.push(entry);
                },
                Err(e) => {
                    return Err(e);
                },
            }
            k = k + 1;
        }
        let playlist = Playlist::new(entries);
        Ok(playlist)
    }

    /// Applies the exclusions in their fixed order: the groups named in
    /// `groups`, then the groups that hold one of `snippets`, then the
    /// links to files.
    pub fn apply_exclusions(&mut self, groups: Vec<&str>, snippets: Vec<&str>)
        ensures
            final(self).full() == old(self).full(),
            final(self).filtered() == without_extensions(
                without_containing(
                    without_groups(old(self).filtered(), str_views(groups@)),
                    str_views(snippets@),
                ),
            ),
            old(self).wf() ==> final(self).wf(),
    {
        self.exclude_groups(groups);
        self.exclude_containing(snippets);
        self.exclude_all_extensions();
    }

    /// The channel ids of the filtered view, in order.
    pub fn filtered_channel_ids(&self) -> (r: Vec<String>)
        ensures
            string_views(r@) == entry_ids(self.filtered()),
    {
        let mut ids: Vec<String> = Vec::new();
        let mut i: usize = 0;
        while i < self.filtered_entries.len()
            invariant
                i <= self.filtered_entries.len(),
                ids.len() == i,
                forall|j: int| 0 <= j < i ==> (#[trigger] ids[j])@ == self.filtered_entries[j].tvg_id@,
            decreases self.filtered_entries.len() - i,
        {
            ids.push(self.filtered_entries[i].tvg_id.clone());
            i = i + 1;
        }
        ids
    }
}

impl std::str::FromStr for Playlist {
    type Err = MalformedEntry;

    /// Parses a playlist document, as `Playlist::from_str` does.
    fn from_str(s: &str) -> (r: Result<Self, Self::Err>)
        ensures
            r is Ok <==> well_formed(s@),
            r matches Ok(playlist) ==> parses_to(s@, playlist.full()) && playlist.filtered()
                == playlist.full() && playlist.wf(),
            r matches Err(e) ==> first_malformed(s@, e.raw_text@),
    {
        Playlist::from_str(s)
    }
}

} // verus!
