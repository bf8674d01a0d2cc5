//! A playlist that is written and read again is the playlist it was.

use vstd::prelude::*;
use crate::document::{chunk_entry, document_text, entry_texts, parses_to, well_formed};
use crate::lines::{is_whitespace, lines_of, trimmed};
use crate::lines_proofs::{lemma_lines_after_line, lemma_lines_of_one_line, lemma_lines_of_parts};
use crate::number::{int_text, lemma_int_text_reads_back};
use crate::playlist::EntryView;
use crate::record::{
    entry_attrs, entry_of, entry_text, header_text, key_text, parse_record, placeholder, EntryKey,
    HeaderView,
};
use crate::record_proofs::{
    distinct_keys, lacks, lemma_attr_value_is_member, lemma_header_on_one_line,
    lemma_record_reads_back, on_one_line, plain,
};
use crate::text::joined;

verus! {

/// Whether a value can stand between the quotes of an attribute: it holds
/// neither `"` nor a newline.
pub open spec fn quotable(value: Seq<char>) -> bool {
    lacks(value, '"') && lacks(value, '\n')
}

/// Whether the entry can be written as a record that reads back as the
/// entry: the attribute values are quotable; the name holds no newline
/// and does not end in a carriage return; the URL holds no newline, is
/// not empty and does not end in white space.
pub open spec fn renderable(e: EntryView) -> bool {
    &&& i32::MIN <= e.duration <= i32::MAX
    &&& quotable(e.tvg_id)
    &&& quotable(e.tvg_name)
    &&& quotable(e.tvg_logo)
    &&& quotable(e.group_title)
    &&& lacks(e.name, '\n')
    &&& e.name.len() > 0 ==> e.name.last() != '\r'
    &&& lacks(e.url, '\n')
    &&& e.url.len() > 0
    &&& !is_whitespace(e.url.last())
}

/// The header line an entry is written with.
pub open spec fn header_of(e: EntryView) -> Seq<char> {
    header_text(int_text(e.duration), entry_attrs(e), e.name)
}

/// The attributes an entry is written with can be read again, have
/// distinct keys, and give the entry's values back.
pub proof fn lemma_entry_attrs(e: EntryView)
    requires
        renderable(e),
    ensures
        plain(entry_attrs(e)),
        on_one_line(entry_attrs(e)),
        distinct_keys(entry_attrs(e)),
        entry_of(HeaderView { duration: e.duration, attrs: entry_attrs(e), name: e.name }, e.url)
            == Some(e),
{
    let attrs = entry_attrs(e);
    reveal_strlit("xui-id");
    reveal_strlit("tvg-id");
    reveal_strlit("tvg-name");
    reveal_strlit("tvg-logo");
    reveal_strlit("group-title");
    reveal_strlit("{XUI_ID}");
    let k0 = key_text(EntryKey::XuiId);
    let k1 = key_text(EntryKey::TvgId);
    let k2 = key_text(EntryKey::TvgName);
    let k3 = key_text(EntryKey::TvgLogo);
    let k4 = key_text(EntryKey::GroupTitle);
    assert(k0[0] == 'x' && k1[0] == 't' && k2[0] == 't' && k3[0] == 't' && k4[0] == 'g');
    assert(k2[4] == 'n' && k3[4] == 'l');
    assert(plain(attrs) && on_one_line(attrs)) by {
        assert forall|i: int| 0 <= i < attrs.len() implies lacks((#[trigger] attrs[i]).key, '=')
            && lacks(attrs[i].value, '"') && lacks(attrs[i].key, '\n') && lacks(
            attrs[i].value,
            '\n',
        ) by {
            assert(i == 0 || i == 1 || i == 2 || i == 3 || i == 4);
        }
    }
    lemma_attr_value_is_member(attrs, k0, placeholder());
    lemma_attr_value_is_member(attrs, k1, e.tvg_id);
    lemma_attr_value_is_member(attrs, k2, e.tvg_name);
    lemma_attr_value_is_member(attrs, k3, e.tvg_logo);
    lemma_attr_value_is_member(attrs, k4, e.group_title);
}

/// The duration of an entry is written without space or newline.
pub proof fn lemma_duration_text(n: int)
    requires
        i32::MIN <= n <= i32::MAX,
    ensures
        lacks(int_text(n), ' '),
        lacks(int_text(n), '\n'),
{
    lemma_int_text_reads_back(n);
}

/// The record an entry is written as reads back as the entry, with
/// nothing left over.
pub proof fn lemma_entry_reads_back(e: EntryView)
    requires
        renderable(e),
    ensures
        parse_record(entry_text(e)) == Some((e, entry_text(e).len() as int)),
{
    lemma_entry_attrs(e);
    lemma_duration_text(e.duration);
    lemma_int_text_reads_back(e.duration);
    lemma_record_reads_back(int_text(e.duration), entry_attrs(e), e.name, e.url);
}

/// The record an entry is written as has no white space around it.
pub proof fn lemma_entry_text_is_trimmed(e: EntryView)
    requires
        renderable(e),
    ensures
        trimmed(entry_text(e)) == entry_text(e),
{
    reveal_strlit("#EXTINF:");
}

/// The texts `parts`, each followed by `sep`.
pub open spec fn terminated(parts: Seq<Seq<char>>, sep: Seq<char>) -> Seq<char>
    decreases parts.len(),
{
    if parts.len() == 0 {
        Seq::empty()
    } else {
        terminated(parts.drop_last(), sep) + parts.last() + sep
    }
}

/// Texts joined by a separator are all but the last, each followed by
/// the separator, and then the last.
pub proof fn lemma_joined_as_terminated(parts: Seq<Seq<char>>, sep: Seq<char>)
    requires
        parts.len() > 0,
    ensures
        joined(parts, sep) == terminated(parts.drop_last(), sep) + parts.last(),
    decreases parts.len(),
{
    let front = parts.drop_last();
    if parts.len() != 1 {
        lemma_joined_as_terminated(front, sep);
    }
}

/// The lines that a list of entries is written as: for each entry its
/// header line and its URL.
pub open spec fn entry_lines(es: Seq<EntryView>) -> Seq<Seq<char>>
    decreases es.len(),
{
    if es.len() == 0 {
        Seq::empty()
    } else {
        entry_lines(es.drop_last()) + seq![header_of(es.last()), es.last().url]
    }
}

/// Entry `k` is written on lines `2k` and `2k + 1`.
pub proof fn lemma_entry_lines_index(es: Seq<EntryView>, k: int)
    requires
        0 <= k < es.len(),
    ensures
        entry_lines(es).len() == 2 * es.len(),
        entry_lines(es)[2 * k] == header_of(es[k]),
        entry_lines(es)[2 * k + 1] == es[k].url,
    decreases es.len(),
{
    let front = es.drop_last();
    lemma_entry_lines_len(es);
    lemma_entry_lines_len(front);
    if k < es.len() - 1 {
        lemma_entry_lines_index(front, k);
    }
}

/// Each entry is written on two lines.
pub proof fn lemma_entry_lines_len(es: Seq<EntryView>)
    ensures
        entry_lines(es).len() == 2 * es.len(),
    decreases es.len(),
{
    if es.len() > 0 {
        lemma_entry_lines_len(es.drop_last());
    }
}

/// The header line of an entry holds no newline and does not end in a
/// carriage return.
pub proof fn lemma_header_line(e: EntryView)
    requires
        renderable(e),
    ensures
        lacks(header_of(e), '\n'),
        header_of(e).len() > 0,
        header_of(e).last() != '\r',
{
    lemma_entry_attrs(e);
    lemma_duration_text(e.duration);
    lemma_header_on_one_line(int_text(e.duration), entry_attrs(e), e.name);
}

/// Whether every entry of the list is renderable.
pub open spec fn all_renderable(es: Seq<EntryView>) -> bool {
    forall|i: int| 0 <= i < es.len() ==> renderable(#[trigger] es[i])
}

/// The lines of the document header followed by records that each end in
/// a newline.
pub proof fn lemma_terminated_lines(es: Seq<EntryView>)
    requires
        all_renderable(es),
    ensures
        lines_of("#EXTM3U\n"@ + terminated(entry_texts(es), "\n"@)) == seq!["#EXTM3U"@]
            + entry_lines(es),
        ("#EXTM3U\n"@ + terminated(entry_texts(es), "\n"@)).len() > 0,
        ("#EXTM3U\n"@ + terminated(entry_texts(es), "\n"@)).last() == '\n',
    decreases es.len(),
{
    reveal_strlit("#EXTM3U\n");
    reveal_strlit("#EXTM3U");
    reveal_strlit("\n");
    let head = "#EXTM3U\n"@;
    let first = "#EXTM3U"@;
    let nl = seq!['\n'];
    assert("\n"@ =~= nl);
    if es.len() == 0 {
        assert(head + terminated(entry_texts(es), nl) =~= first + nl + Seq::<char>::empty());
        lemma_lines_after_line(first, Seq::empty());
    } else {
        let front = es.drop_last();
        let e = es.last();
        lemma_terminated_lines(front);
        let x = head + terminated(entry_texts(front), nl);
        let b = entry_text(e) + nl;
        assert(entry_texts(es).drop_last() =~= entry_texts(front));
        assert(head + terminated(entry_texts(es), nl) =~= x + b);
        lemma_lines_of_parts(x, b, 0);
        lemma_header_line(e);
        assert(b =~= header_of(e) + nl + (e.url + nl));
        lemma_lines_after_line(header_of(e), e.url + nl);
        assert(e.url.last() != '\r');
        lemma_lines_after_line(e.url, Seq::empty());
    }
}

/// The lines of the document of a list of entries: the document header,
/// then the two lines of each entry.
pub proof fn lemma_document_lines(es: Seq<EntryView>)
    requires
        all_renderable(es),
    ensures
        lines_of(document_text(es)) == seq!["#EXTM3U"@] + entry_lines(es),
{
    reveal_strlit("\n");
    let head = "#EXTM3U\n"@;
    let nl = seq!['\n'];
    assert("\n"@ =~= nl);
    if es.len() == 0 {
        lemma_terminated_lines(es);
    } else {
        let front = es.drop_last();
        let e = es.last();
        lemma_terminated_lines(front);
        lemma_joined_as_terminated(entry_texts(es), nl);
        assert(entry_texts(es).drop_last() =~= entry_texts(front));
        let x = head + terminated(entry_texts(front), nl);
        assert(document_text(es) =~= x + entry_text(e));
        lemma_lines_of_parts(x, entry_text(e), 0);
        lemma_header_line(e);
        lemma_lines_after_line(header_of(e), e.url);
        lemma_lines_of_one_line(e.url);
    }
}

/// A document parses to one list of entries at most.
pub proof fn lemma_parse_is_unique(text: Seq<char>, a: Seq<EntryView>, b: Seq<EntryView>)
    requires
        parses_to(text, a),
        parses_to(text, b),
    ensures
        a == b,
{
}

/// A playlist that is written and read again is the playlist it was: the
/// document of renderable entries is well-formed and parses to the same
/// entries in the same order. Only the value of `xui-id`, which is not
/// part of an entry, is not what it may have been.
pub proof fn lemma_written_playlist_reads_back(es: Seq<EntryView>)
    requires
        all_renderable(es),
    ensures
        well_formed(document_text(es)),
        parses_to(document_text(es), es),
        forall|other: Seq<EntryView>| parses_to(document_text(es), other) ==> other == es,
{
    let text = document_text(es);
    let lines = lines_of(text);
    lemma_document_lines(es);
    lemma_entry_lines_len(es);
    assert forall|k: int| 0 <= k < es.len() implies #[trigger] chunk_entry(lines, k) == Some(
        es[k],
    ) by {
        lemma_entry_lines_index(es, k);
        lemma_entry_text_is_trimmed(es[k]);
        lemma_entry_reads_back(es[k]);
    }
    assert forall|other: Seq<EntryView>| parses_to(text, other) implies other == es by {
        lemma_parse_is_unique(text, other, es);
    }
}

} // verus!
