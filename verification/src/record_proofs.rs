//! What holds of records that are written and read again.

use vstd::prelude::*;
use crate::number::parse_int;
use crate::record::{
    attr_text, attr_value, attrs_text, entry_of, header_text, key_text, parse_attrs, parse_header,
    parse_record, record_text, Attribute, EntryKey, HeaderView,
};
use crate::text::lemma_first_index_of_unique;

verus! {

/// Whether `c` does not occur in `s`.
pub open spec fn lacks(s: Seq<char>, c: char) -> bool {
    forall|i: int| 0 <= i < s.len() ==> s[i] != c
}

/// Whether the attributes can be written and read again: no key holds `=`
/// and no value holds `"`.
pub open spec fn plain(attrs: Seq<Attribute>) -> bool {
    forall|i: int|
        0 <= i < attrs.len() ==> lacks((#[trigger] attrs[i]).key, '=') && lacks(attrs[i].value, '"')
}

/// Whether no key or value of the attributes holds a newline.
pub open spec fn on_one_line(attrs: Seq<Attribute>) -> bool {
    forall|i: int|
        0 <= i < attrs.len() ==> lacks((#[trigger] attrs[i]).key, '\n') && lacks(
            attrs[i].value,
            '\n',
        )
}

/// Whether no two of the attributes have one key.
pub open spec fn distinct_keys(attrs: Seq<Attribute>) -> bool {
    forall|i: int, j: int|
        0 <= i < j < attrs.len() ==> (#[trigger] attrs[i]).key != (#[trigger] attrs[j]).key
}

/// The text of attributes read from its start gives the attributes back,
/// and ends at the comma that follows them.
pub proof fn lemma_attrs_read_back(h: Seq<char>, pos: int, attrs: Seq<Attribute>, tail: Seq<char>)
    requires
        0 <= pos <= h.len(),
        h.subrange(pos, h.len() as int) == attrs_text(attrs) + seq![','] + tail,
        plain(attrs),
    ensures
        parse_attrs(h, pos) == Some((attrs, pos + attrs_text(attrs).len())),
    decreases attrs.len(),
{
    let suffix = h.subrange(pos, h.len() as int);
    assert forall|j: int| 0 <= j < suffix.len() implies h[pos + j] == #[trigger] suffix[j] by {}
    if attrs.len() == 0 {
        assert(suffix[0] == ',');
    } else {
        let a = attrs.first();
        let rest = attrs.drop_first();
        let k = a.key.len() as int;
        let v = a.value.len() as int;
        let text = attr_text(a);
        let after = attrs_text(rest) + seq![','] + tail;
        assert(suffix =~= text + after);
        assert(text.len() == k + v + 4);
        assert(attrs[0] == a);
        assert(lacks(a.key, '=') && lacks(a.value, '"'));
        assert forall|j: int| 0 <= j < text.len() implies h[pos + j] == #[trigger] text[j] by {
            assert(suffix[j] == text[j]);
        }
        assert(text[0] == ' ');
        let eq = pos + 1 + k;
        assert forall|i: int| pos + 1 <= i < eq implies h[i] != '=' by {
            assert(text[i - pos] == a.key[i - pos - 1]);
        }
        assert(h[eq] == '=') by {
            assert(text[1 + k] == '=');
            assert(h[pos + (1 + k)] == text[1 + k]);
        }
        lemma_first_index_of_unique(h, '=', pos + 1, eq);
        assert(h[eq + 1] == '"') by {
            assert(text[2 + k] == '"');
            assert(h[pos + (2 + k)] == text[2 + k]);
        }
        let close = eq + 2 + v;
        assert forall|i: int| eq + 2 <= i < close implies h[i] != '"' by {
            assert(text[i - pos] == a.value[i - eq - 2]);
        }
        assert(h[close] == '"') by {
            assert(h[pos + (3 + k + v)] == text[3 + k + v]);
        }
        lemma_first_index_of_unique(h, '"', eq + 2, close);
        assert(h.subrange(pos + 1, eq) =~= a.key) by {
            assert forall|j: int| 0 <= j < k implies h[pos + 1 + j] == a.key[j] by {
                assert(text[1 + j] == a.key[j]);
            }
        }
        assert(h.subrange(eq + 2, close) =~= a.value) by {
            assert forall|j: int| 0 <= j < v implies h[eq + 2 + j] == a.value[j] by {
                assert(h[pos + (3 + k + j)] == text[3 + k + j]);
            }
        }
        assert(h.subrange(close + 1, h.len() as int) =~= after) by {
            assert forall|j: int| 0 <= j < after.len() implies h[close + 1 + j] == after[j] by {
                assert(h[pos + (text.len() + j)] == suffix[text.len() + j]);
            }
        }
        lemma_attrs_read_back(h, close + 1, rest, tail);
    }
}

/// The text of attributes that lack a character lacks it too, unless the
/// character is one of those the text is written with.
pub proof fn lemma_attrs_text_lacks(attrs: Seq<Attribute>, c: char)
    requires
        c != ' ' && c != '=' && c != '"',
        forall|i: int|
            0 <= i < attrs.len() ==> lacks((#[trigger] attrs[i]).key, c) && lacks(attrs[i].value, c),
    ensures
        lacks(attrs_text(attrs), c),
    decreases attrs.len(),
{
    if attrs.len() > 0 {
        let a = attrs.first();
        let rest = attrs.drop_first();
        assert forall|i: int| 0 <= i < rest.len() implies lacks((#[trigger] rest[i]).key, c)
            && lacks(rest[i].value, c) by {
            assert(rest[i] == attrs[i + 1]);
        }
        lemma_attrs_text_lacks(rest, c);
        let text = attr_text(a);
        let k = a.key.len() as int;
        assert forall|j: int| 0 <= j < text.len() implies text[j] != c by {
            assert(j == 0 || 1 <= j < 1 + k || j == 1 + k || j == 2 + k || 3 + k <= j < text.len() - 1
                || j == text.len() - 1);
        }
    }
}

/// The text of a header that is read gives its parts back: the duration
/// as far as it is the text of an integer, the attributes and the name.
pub proof fn lemma_header_reads_back(duration: Seq<char>, attrs: Seq<Attribute>, name: Seq<char>)
    requires
        lacks(duration, ' '),
        attrs.len() > 0,
        plain(attrs),
    ensures
        parse_header(header_text(duration, attrs, name)) == match parse_int(duration) {
            Some(n) => Some(HeaderView { duration: n, attrs, name }),
            None => None,
        },
{
    let marker = key_text(EntryKey::Duration);
    let h = header_text(duration, attrs, name);
    let m = marker.len() as int;
    let d = duration.len() as int;
    let at = attrs_text(attrs);
    assert(h.subrange(0, m) =~= marker);
    assert(at.len() > 0 && at[0] == ' ');
    let space = m + d;
    assert(h[space] == ' ');
    lemma_first_index_of_unique(h, ' ', m, space);
    assert(h.subrange(m, space) =~= duration);
    assert(h.subrange(space, h.len() as int) =~= at + seq![','] + name);
    lemma_attrs_read_back(h, space, attrs, name);
    let comma = space + at.len();
    assert(h.subrange(comma + 1, h.len() as int) =~= name);
}

/// A header whose parts hold no newline holds none.
pub proof fn lemma_header_on_one_line(duration: Seq<char>, attrs: Seq<Attribute>, name: Seq<char>)
    requires
        lacks(duration, '\n'),
        on_one_line(attrs),
        lacks(name, '\n'),
    ensures
        lacks(header_text(duration, attrs, name), '\n'),
{
    let marker = key_text(EntryKey::Duration);
    let h = header_text(duration, attrs, name);
    let at = attrs_text(attrs);
    lemma_attrs_text_lacks(attrs, '\n');
    assert(lacks(marker, '\n')) by {
        reveal_strlit("#EXTINF:");
    }
    assert forall|i: int| 0 <= i < h.len() implies h[i] != '\n' by {
        let m = marker.len() as int;
        let d = duration.len() as int;
        assert(i < m || i < m + d || i < m + d + at.len() || i == m + d + at.len() || i > m + d
            + at.len());
    }
}

/// The text of a record that is read gives what its header holds, with
/// the URL, and leaves nothing over.
pub proof fn lemma_record_reads_back(
    duration: Seq<char>,
    attrs: Seq<Attribute>,
    name: Seq<char>,
    url: Seq<char>,
)
    requires
        lacks(duration, ' '),
        lacks(duration, '\n'),
        attrs.len() > 0,
        plain(attrs),
        on_one_line(attrs),
        lacks(name, '\n'),
        lacks(url, '\n'),
    ensures
        parse_record(record_text(duration, attrs, name, url)) == match parse_int(duration) {
            Some(n) => match entry_of(HeaderView { duration: n, attrs, name }, url) {
                Some(entry) => Some((entry, record_text(duration, attrs, name, url).len() as int)),
                None => None,
            },
            None => None,
        },
{
    let h = header_text(duration, attrs, name);
    let s = record_text(duration, attrs, name, url);
    lemma_header_on_one_line(duration, attrs, name);
    let newline = h.len() as int;
    lemma_first_index_of_unique(s, '\n', 0, newline);
    lemma_first_index_of_unique(s, '\n', newline + 1, s.len() as int);
    assert(s.subrange(0, newline) =~= h);
    assert(s.subrange(newline + 1, s.len() as int) =~= url);
    lemma_header_reads_back(duration, attrs, name);
}

/// Among attributes with distinct keys, the value found for a key is the
/// value of the one attribute with that key.
pub proof fn lemma_attr_value_is_member(attrs: Seq<Attribute>, key: Seq<char>, value: Seq<char>)
    requires
        distinct_keys(attrs),
    ensures
        attr_value(attrs, key) == Some(value) <==> attrs.contains(Attribute { key, value }),
        attr_value(attrs, key) is None <==> forall|i: int|
            0 <= i < attrs.len() ==> (#[trigger] attrs[i]).key != key,
    decreases attrs.len(),
{
    let wanted = Attribute { key, value };
    if attrs.len() > 0 {
        let front = attrs.drop_last();
        lemma_attr_value_is_member(front, key, value);
        let last = attrs.last();
        if attrs.contains(wanted) {
            let i = choose|i: int| 0 <= i < attrs.len() && attrs[i] == wanted;
            if i < attrs.len() - 1 {
                assert(front[i] == wanted);
            } else {
                if attr_value(front, key) is Some {
                    let j = choose|j: int| 0 <= j < front.len() && (#[trigger] front[j]).key == key;
                    assert(attrs[j].key == attrs[attrs.len() - 1].key);
                }
            }
        }
        if attr_value(attrs, key) is None {
            assert forall|i: int| 0 <= i < attrs.len() implies (#[trigger] attrs[i]).key != key by {
                if i < attrs.len() - 1 {
                    assert(front[i] == attrs[i]);
                }
            }
        }
    }
}

/// Two lists of attributes with distinct keys that hold the same
/// attributes give the same value for every key.
pub proof fn lemma_attr_value_any_order(a: Seq<Attribute>, b: Seq<Attribute>, key: Seq<char>)
    requires
        distinct_keys(a),
        distinct_keys(b),
        forall|x: Attribute| a.contains(x) <==> b.contains(x),
    ensures
        attr_value(a, key) == attr_value(b, key),
{
    match attr_value(a, key) {
        Some(value) => {
            lemma_attr_value_is_member(a, key, value);
            lemma_attr_value_is_member(b, key, value);
        },
        None => {
            match attr_value(b, key) {
                Some(value) => {
                    lemma_attr_value_is_member(a, key, value);
                    lemma_attr_value_is_member(b, key, value);
                },
                None => {},
            }
        },
    }
}

/// The order of the attributes of a record is immaterial: two records
/// that differ only in the order of their attributes are read as the same
/// entry, or are both no entry. The records are well-formed: the duration
/// is written without a space, no key holds `=`, no value holds `"`, no
/// two attributes have one key, and only the URL follows the header's
/// newline.
pub proof fn lemma_attribute_order_is_immaterial(
    duration: Seq<char>,
    first: Seq<Attribute>,
    second: Seq<Attribute>,
    name: Seq<char>,
    url: Seq<char>,
)
    requires
        lacks(duration, ' '),
        lacks(duration, '\n'),
        plain(first),
        on_one_line(first),
        distinct_keys(first),
        plain(second),
        on_one_line(second),
        distinct_keys(second),
        forall|x: Attribute| first.contains(x) <==> second.contains(x),
        lacks(name, '\n'),
        lacks(url, '\n'),
    ensures
        match (
            parse_record(record_text(duration, first, name, url)),
            parse_record(record_text(duration, second, name, url)),
        ) {
            (Some((e1, _)), Some((e2, _))) => e1 == e2,
            (None, None) => true,
            _ => false,
        },
{
    if first.len() == 0 {
        if second.len() > 0 {
            assert(first.contains(second[0]));
        }
    } else {
        assert(second.contains(first[0]));
        lemma_record_reads_back(duration, first, name, url);
        lemma_record_reads_back(duration, second, name, url);
        lemma_attr_value_any_order(first, second, key_text(EntryKey::XuiId));
        lemma_attr_value_any_order(first, second, key_text(EntryKey::TvgId));
        lemma_attr_value_any_order(first, second, key_text(EntryKey::TvgName));
        lemma_attr_value_any_order(first, second, key_text(EntryKey::TvgLogo));
        lemma_attr_value_any_order(first, second, key_text(EntryKey::GroupTitle));
    }
}

} // verus!
