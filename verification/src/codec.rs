//! Cost maps as text: the form in which baselines are kept.
//!
//! A map is written as a list of texts: the sentinel, the sentinel key, the
//! number of entries, and for each entry its identity, the number of its
//! counters and each counter with its count. The list is written with
//! `framing`. Reading a written map gives the same map back.

use vstd::prelude::*;
use crate::assoc::keys_unique;
use crate::callgrind_map::{
    content_of, entry_listings, id_model, path_model, sentinel_model, CallgrindMap, Id, IdModel,
    MapListing, Sentinel, Value,
};
use crate::event_kind::{
    all_kinds, kind_at, kind_index, kind_position, lemma_all_kinds_complete, EventKind,
};
use crate::framing::{
    digits_of, framed, lemma_parse_digits, lemma_unframed_framed, lengths_fit, read_fields,
    unframed, write_fields, write_number,
};
use crate::metrics::Metrics;
use crate::source_path::{PathModel, SourcePath};
use crate::text::{append_chars, chars_of, parse_digits, parsed_digits, slice_of, string_of, views};

verus! {

/// The text that is written for an optional text: `+` and the text, or `-`.
pub open spec fn option_field(text: Option<Seq<char>>) -> Seq<char> {
    match text {
        Some(t) => seq!['+'] + t,
        None => seq!['-'],
    }
}

/// The optional text that a written text stands for.
pub open spec fn read_option_field(field: Seq<char>) -> Option<Option<Seq<char>>> {
    if field.len() > 0 && field[0] == '+' {
        Some(Some(field.subrange(1, field.len() as int)))
    } else if field == seq!['-'] {
        Some(None)
    } else {
        None
    }
}

/// The text that is written for an optional path: `-` for none, `u` for the
/// unknown location, else a letter for the category and the path.
pub open spec fn path_field(path: Option<PathModel>) -> Seq<char> {
    match path {
        None => seq!['-'],
        Some(PathModel::Unknown) => seq!['u'],
        Some(PathModel::Rust(p)) => seq!['r'] + p,
        Some(PathModel::Relative(p)) => seq!['l'] + p,
        Some(PathModel::Absolute(p)) => seq!['a'] + p,
    }
}

/// The optional path that a written text stands for.
pub open spec fn read_path_field(field: Seq<char>) -> Option<Option<PathModel>> {
    if field == seq!['-'] {
        Some(None)
    } else if field == seq!['u'] {
        Some(Some(PathModel::Unknown))
    } else if field.len() > 0 && field[0] == 'r' {
        Some(Some(PathModel::Rust(field.subrange(1, field.len() as int))))
    } else if field.len() > 0 && field[0] == 'l' {
        Some(Some(PathModel::Relative(field.subrange(1, field.len() as int))))
    } else if field.len() > 0 && field[0] == 'a' {
        Some(Some(PathModel::Absolute(field.subrange(1, field.len() as int))))
    } else {
        None
    }
}

/// The texts that are written for an identity.
pub open spec fn id_fields(id: IdModel) -> Seq<Seq<char>> {
    seq![path_field(id.obj), path_field(id.file), id.func]
}

/// The identity that is written at position `pos`.
pub open spec fn read_id(fields: Seq<Seq<char>>, pos: int) -> Option<IdModel> {
    if 0 <= pos && pos + 3 <= fields.len() {
        match (read_path_field(fields[pos]), read_path_field(fields[pos + 1])) {
            (Some(obj), Some(file)) => Some(IdModel { obj, file, func: fields[pos + 2] }),
            _ => None,
        }
    } else {
        None
    }
}

/// The texts that are written for the sentinel key.
pub open spec fn key_fields(key: Option<IdModel>) -> Seq<Seq<char>> {
    match key {
        Some(id) => seq![seq!['+']] + id_fields(id),
        None => seq![seq!['-']],
    }
}

/// The sentinel key that is written at position `pos`, and where it ends.
pub open spec fn read_key(fields: Seq<Seq<char>>, pos: int) -> Option<(Option<IdModel>, int)> {
    if 0 <= pos < fields.len() {
        if fields[pos] == seq!['-'] {
            Some((None, pos + 1))
        } else if fields[pos] == seq!['+'] {
            match read_id(fields, pos + 1) {
                Some(id) => Some((Some(id), pos + 4)),
                None => None,
            }
        } else {
            None
        }
    } else {
        None
    }
}

/// The texts that are written for a counter and its count: the counter's
/// position among all counters, and the count.
pub open spec fn count_fields(entry: (EventKind, u64)) -> Seq<Seq<char>> {
    seq![digits_of(kind_index(entry.0) as nat), digits_of(entry.1 as nat)]
}

/// The counter and count that are written at position `pos`.
pub open spec fn read_count(fields: Seq<Seq<char>>, pos: int) -> Option<(EventKind, u64)> {
    if 0 <= pos && pos + 2 <= fields.len() {
        match (parsed_digits(fields[pos]), parsed_digits(fields[pos + 1])) {
            (Some(code), Some(amount)) => if code < all_kinds().len() {
                Some((all_kinds()[code as int], amount))
            } else {
                None
            },
            _ => None,
        }
    } else {
        None
    }
}

/// The texts that are written for the counters of an entry.
pub open spec fn counts_fields(counts: Seq<(EventKind, u64)>) -> Seq<Seq<char>>
    decreases counts.len(),
{
    if counts.len() == 0 {
        Seq::empty()
    } else {
        counts_fields(counts.drop_last()) + count_fields(counts.last())
    }
}

/// The `n` counters with their counts that are written from position `pos` on.
pub open spec fn read_counts(fields: Seq<Seq<char>>, pos: int, n: nat) -> Option<
    Seq<(EventKind, u64)>,
>
    decreases n,
{
    if n == 0 {
        Some(Seq::empty())
    } else {
        match read_count(fields, pos) {
            None => None,
            Some(first) => match read_counts(fields, pos + 2, (n - 1) as nat) {
                None => None,
                Some(rest) => Some(seq![first] + rest),
            },
        }
    }
}

/// The texts that are written for an entry.
pub open spec fn entry_fields(entry: (IdModel, Seq<(EventKind, u64)>)) -> Seq<Seq<char>> {
    id_fields(entry.0) + seq![digits_of(entry.1.len())] + counts_fields(entry.1)
}

/// The entry that is written at position `pos`, and where it ends. An entry
/// in which a counter occurs twice is none.
pub open spec fn read_entry(fields: Seq<Seq<char>>, pos: int) -> Option<
    ((IdModel, Seq<(EventKind, u64)>), int),
> {
    match read_id(fields, pos) {
        None => None,
        Some(id) => if pos + 4 <= fields.len() {
            match parsed_digits(fields[pos + 3]) {
                None => None,
                Some(n) => match read_counts(fields, pos + 4, n as nat) {
                    None => None,
                    Some(counts) => if keys_unique(counts) {
                        Some(((id, counts), pos + 4 + 2 * n))
                    } else {
                        None
                    },
                },
            }
        } else {
            None
        },
    }
}

/// The texts that are written for the entries of a map.
pub open spec fn entries_fields(entries: Seq<(IdModel, Seq<(EventKind, u64)>)>) -> Seq<Seq<char>>
    decreases entries.len(),
{
    if entries.len() == 0 {
        Seq::empty()
    } else {
        entries_fields(entries.drop_last()) + entry_fields(entries.last())
    }
}

/// The `n` entries that are written from position `pos` on, and where they end.
pub open spec fn read_entries(fields: Seq<Seq<char>>, pos: int, n: nat) -> Option<
    (Seq<(IdModel, Seq<(EventKind, u64)>)>, int),
>
    decreases n,
{
    if n == 0 {
        Some((Seq::empty(), pos))
    } else {
        match read_entry(fields, pos) {
            None => None,
            Some((first, next)) => match read_entries(fields, next, (n - 1) as nat) {
                None => None,
                Some((rest, end)) => Some((seq![first] + rest, end)),
            },
        }
    }
}

/// The texts that are written for a map.
pub open spec fn map_fields(m: MapListing) -> Seq<Seq<char>> {
    seq![option_field(m.sentinel)] + key_fields(m.sentinel_key) + seq![
        digits_of(m.entries.len()),
    ] + entries_fields(m.entries)
}

/// The map that a list of texts stands for: the list must hold exactly one
/// map, in which no identity occurs twice.
pub open spec fn read_map(fields: Seq<Seq<char>>) -> Option<MapListing> {
    if fields.len() < 1 {
        None
    } else {
        match read_option_field(fields[0]) {
            None => None,
            Some(sentinel) => match read_key(fields, 1) {
                None => None,
                Some((sentinel_key, pos)) => if pos + 1 <= fields.len() {
                    match parsed_digits(fields[pos]) {
                        None => None,
                        Some(n) => match read_entries(fields, pos + 1, n as nat) {
                            None => None,
                            Some((entries, end)) => if end == fields.len() && keys_unique(
                                entries,
                            ) {
                                Some(MapListing { entries, sentinel, sentinel_key })
                            } else {
                                None
                            },
                        },
                    }
                } else {
                    None
                },
            },
        }
    }
}

/// The text that is written for a map.
pub open spec fn encoded(m: MapListing) -> Seq<char> {
    framed(map_fields(m))
}

/// The map that a text stands for, if it stands for one.
pub open spec fn decoded(text: Seq<char>) -> Option<MapListing> {
    match unframed(text) {
        Some(fields) => read_map(fields),
        None => None,
    }
}

/// What holds of the listing of every cost map: no identity and no counter
/// of an entry occurs twice, and all lengths fit 64 bits.
pub open spec fn listing_wf(m: MapListing) -> bool {
    &&& keys_unique(m.entries)
    &&& m.entries.len() <= u64::MAX
    &&& forall|i: int|
        0 <= i < m.entries.len() ==> keys_unique((#[trigger] m.entries[i]).1) && m.entries[i].1.len()
            <= u64::MAX
    &&& lengths_fit(map_fields(m))
}

proof fn lemma_read_fields_of_path(path: Option<PathModel>)
    ensures
        read_path_field(path_field(path)) == Some(path),
{
    let field = path_field(path);
    match path {
        None => {},
        Some(PathModel::Unknown) => {
            assert(field[0] == 'u');
            assert(seq!['-'][0] == '-');
        },
        Some(PathModel::Rust(p)) => {
            assert(field.subrange(1, field.len() as int) =~= p);
            assert(field[0] == 'r');
            assert(seq!['-'][0] == '-');
            assert(seq!['u'][0] == 'u');
        },
        Some(PathModel::Relative(p)) => {
            assert(field.subrange(1, field.len() as int) =~= p);
            assert(field[0] == 'l');
            assert(seq!['-'][0] == '-');
            assert(seq!['u'][0] == 'u');
        },
        Some(PathModel::Absolute(p)) => {
            assert(field.subrange(1, field.len() as int) =~= p);
            assert(field[0] == 'a');
            assert(seq!['-'][0] == '-');
            assert(seq!['u'][0] == 'u');
        },
    }
}

proof fn lemma_read_option_field(text: Option<Seq<char>>)
    ensures
        read_option_field(option_field(text)) == Some(text),
{
    let field = option_field(text);
    match text {
        Some(t) => {
            assert(field[0] == '+');
            assert(field.subrange(1, field.len() as int) =~= t);
        },
        None => {
            assert(field[0] == '-');
        },
    }
}

proof fn lemma_read_id(fields: Seq<Seq<char>>, pos: int, id: IdModel)
    requires
        0 <= pos,
        pos + 3 <= fields.len(),
        fields.subrange(pos, pos + 3) == id_fields(id),
    ensures
        read_id(fields, pos) == Some(id),
{
    let part = fields.subrange(pos, pos + 3);
    assert(part[0] == fields[pos] && part[1] == fields[pos + 1] && part[2] == fields[pos + 2]);
    lemma_read_fields_of_path(id.obj);
    lemma_read_fields_of_path(id.file);
}

proof fn lemma_read_key(fields: Seq<Seq<char>>, pos: int, key: Option<IdModel>)
    requires
        0 <= pos,
        pos + key_fields(key).len() <= fields.len(),
        fields.subrange(pos, pos + key_fields(key).len()) == key_fields(key),
    ensures
        read_key(fields, pos) == Some((key, pos + key_fields(key).len())),
{
    let part = fields.subrange(pos, pos + key_fields(key).len());
    assert(part[0] == fields[pos]);
    match key {
        Some(id) => {
            assert(seq!['+'][0] == '+' && seq!['-'][0] == '-');
            assert(fields.subrange(pos + 1, pos + 4) =~= id_fields(id)) by {
                assert forall|k: int| 0 <= k < 3 implies fields.subrange(pos + 1, pos + 4)[k]
                    == id_fields(id)[k] by {
                    assert(part[k + 1] == fields[pos + 1 + k]);
                }
            }
            lemma_read_id(fields, pos + 1, id);
        },
        None => {},
    }
}

proof fn lemma_counts_fields_concat(a: Seq<(EventKind, u64)>, b: Seq<(EventKind, u64)>)
    ensures
        counts_fields(a + b) == counts_fields(a) + counts_fields(b),
        counts_fields(a).len() == 2 * a.len(),
    decreases b.len(),
{
    lemma_counts_fields_len(a);
    if b.len() == 0 {
        assert(a + b =~= a);
        assert(counts_fields(a) + counts_fields(b) =~= counts_fields(a));
    } else {
        lemma_counts_fields_concat(a, b.drop_last());
        assert((a + b).drop_last() =~= a + b.drop_last());
        assert((a + b).last() == b.last());
        assert(counts_fields(a + b) =~= counts_fields(a) + counts_fields(b));
    }
}

proof fn lemma_counts_fields_len(a: Seq<(EventKind, u64)>)
    ensures
        counts_fields(a).len() == 2 * a.len(),
    decreases a.len(),
{
    if a.len() > 0 {
        lemma_counts_fields_len(a.drop_last());
    }
}

proof fn lemma_read_counts(fields: Seq<Seq<char>>, pos: int, counts: Seq<(EventKind, u64)>)
    requires
        0 <= pos,
        pos + 2 * counts.len() <= fields.len(),
        fields.subrange(pos, pos + 2 * counts.len()) == counts_fields(counts),
    ensures
        read_counts(fields, pos, counts.len()) == Some(counts),
    decreases counts.len(),
{
    if counts.len() > 0 {
        let first = counts[0];
        let rest = counts.drop_first();
        assert(counts =~= seq![first] + rest);
        lemma_counts_fields_concat(seq![first], rest);
        assert(seq![first].drop_last() =~= Seq::<(EventKind, u64)>::empty());
        assert(counts_fields(Seq::<(EventKind, u64)>::empty()) =~= Seq::<Seq<char>>::empty());
        assert(seq![first].last() == first);
        assert(counts_fields(seq![first]) =~= count_fields(first));
        let part = fields.subrange(pos, pos + 2 * counts.len());
        assert(part == count_fields(first) + counts_fields(rest));
        assert(part[0] == fields[pos] && part[1] == fields[pos + 1]);
        lemma_all_kinds_complete(first.0);
        lemma_parse_digits(kind_index(first.0) as nat);
        lemma_parse_digits(first.1 as nat);
        assert(read_count(fields, pos) == Some(first));
        lemma_counts_fields_len(rest);
        assert(fields.subrange(pos + 2, pos + 2 + 2 * rest.len()) =~= counts_fields(rest)) by {
            assert forall|k: int| 0 <= k < 2 * rest.len() implies fields.subrange(
                pos + 2,
                pos + 2 + 2 * rest.len(),
            )[k] == counts_fields(rest)[k] by {
                assert(part[k + 2] == fields[pos + 2 + k]);
            }
        }
        lemma_read_counts(fields, pos + 2, rest);
    }
}

proof fn lemma_read_entry(fields: Seq<Seq<char>>, pos: int, entry: (IdModel, Seq<(EventKind, u64)>))
    requires
        0 <= pos,
        pos + entry_fields(entry).len() <= fields.len(),
        fields.subrange(pos, pos + entry_fields(entry).len()) == entry_fields(entry),
        keys_unique(entry.1),
        entry.1.len() <= u64::MAX,
    ensures
        entry_fields(entry).len() == 4 + 2 * entry.1.len(),
        read_entry(fields, pos) == Some((entry, pos + entry_fields(entry).len())),
{
    lemma_counts_fields_len(entry.1);
    let n = entry.1.len();
    let part = fields.subrange(pos, pos + entry_fields(entry).len());
    assert(fields.subrange(pos, pos + 3) =~= id_fields(entry.0)) by {
        assert forall|k: int| 0 <= k < 3 implies fields.subrange(pos, pos + 3)[k] == id_fields(
            entry.0,
        )[k] by {
            assert(part[k] == fields[pos + k]);
        }
    }
    lemma_read_id(fields, pos, entry.0);
    assert(part[3] == fields[pos + 3]);
    lemma_parse_digits(n);
    assert(fields.subrange(pos + 4, pos + 4 + 2 * n) =~= counts_fields(entry.1)) by {
        assert forall|k: int| 0 <= k < 2 * n implies fields.subrange(pos + 4, pos + 4 + 2 * n)[k]
            == counts_fields(entry.1)[k] by {
            assert(part[k + 4] == fields[pos + 4 + k]);
        }
    }
    lemma_read_counts(fields, pos + 4, entry.1);
}

proof fn lemma_entries_fields_concat(
    a: Seq<(IdModel, Seq<(EventKind, u64)>)>,
    b: Seq<(IdModel, Seq<(EventKind, u64)>)>,
)
    ensures
        entries_fields(a + b) == entries_fields(a) + entries_fields(b),
    decreases b.len(),
{
    if b.len() == 0 {
        assert(a + b =~= a);
        assert(entries_fields(a) + entries_fields(b) =~= entries_fields(a));
    } else {
        lemma_entries_fields_concat(a, b.drop_last());
        assert((a + b).drop_last() =~= a + b.drop_last());
        assert((a + b).last() == b.last());
        assert(entries_fields(a + b) =~= entries_fields(a) + entries_fields(b));
    }
}

proof fn lemma_read_entries(
    fields: Seq<Seq<char>>,
    pos: int,
    entries: Seq<(IdModel, Seq<(EventKind, u64)>)>,
)
    requires
        0 <= pos,
        pos + entries_fields(entries).len() <= fields.len(),
        fields.subrange(pos, pos + entries_fields(entries).len()) == entries_fields(entries),
        forall|i: int|
            0 <= i < entries.len() ==> keys_unique((#[trigger] entries[i]).1) && entries[i].1.len()
                <= u64::MAX,
    ensures
        read_entries(fields, pos, entries.len()) == Some(
            (entries, pos + entries_fields(entries).len()),
        ),
    decreases entries.len(),
{
    if entries.len() > 0 {
        let first = entries[0];
        let rest = entries.drop_first();
        assert(entries =~= seq![first] + rest);
        lemma_entries_fields_concat(seq![first], rest);
        assert(seq![first].drop_last() =~= Seq::<(IdModel, Seq<(EventKind, u64)>)>::empty());
        assert(entries_fields(Seq::<(IdModel, Seq<(EventKind, u64)>)>::empty()) =~= Seq::<
            Seq<char>,
        >::empty());
        assert(seq![first].last() == first);
        assert(entries_fields(seq![first]) =~= entry_fields(first));
        let part = fields.subrange(pos, pos + entries_fields(entries).len());
        assert(part == entry_fields(first) + entries_fields(rest));
        let k1 = entry_fields(first).len() as int;
        let k2 = entries_fields(rest).len() as int;
        assert(fields.subrange(pos, pos + k1) =~= entry_fields(first)) by {
            assert forall|k: int| 0 <= k < k1 implies fields.subrange(pos, pos + k1)[k]
                == entry_fields(first)[k] by {
                assert(part[k] == fields[pos + k]);
            }
        }
        lemma_read_entry(fields, pos, first);
        assert(fields.subrange(pos + k1, pos + k1 + k2) =~= entries_fields(rest)) by {
            assert forall|k: int| 0 <= k < k2 implies fields.subrange(pos + k1, pos + k1 + k2)[k]
                == entries_fields(rest)[k] by {
                assert(part[k + k1] == fields[pos + k1 + k]);
            }
        }
        assert forall|i: int| 0 <= i < rest.len() implies keys_unique((#[trigger] rest[i]).1)
            && rest[i].1.len() <= u64::MAX by {
            assert(rest[i] == entries[i + 1]);
        }
        lemma_read_entries(fields, pos + k1, rest);
    }
}

/// Reading the texts that are written for a map gives the map.
pub proof fn lemma_read_map(m: MapListing)
    requires
        listing_wf(m),
    ensures
        read_map(map_fields(m)) == Some(m),
{
    let fields = map_fields(m);
    let k = key_fields(m.sentinel_key).len() as int;
    let e = entries_fields(m.entries).len() as int;
    assert(fields.len() == 1 + k + 1 + e);
    assert(fields[0] == option_field(m.sentinel));
    lemma_read_option_field(m.sentinel);
    assert(fields.subrange(1, 1 + k) =~= key_fields(m.sentinel_key));
    lemma_read_key(fields, 1, m.sentinel_key);
    assert(fields[1 + k] == digits_of(m.entries.len()));
    lemma_parse_digits(m.entries.len());
    assert(fields.subrange(2 + k, 2 + k + e) =~= entries_fields(m.entries));
    lemma_read_entries(fields, 2 + k, m.entries);
}

/// A written map that is read again is the same map.
pub proof fn lemma_round_trip(m: MapListing)
    requires
        listing_wf(m),
    ensures
        decoded(encoded(m)) == Some(m),
{
    lemma_unframed_framed(map_fields(m));
    lemma_read_map(m);
}

fn write_path(path: &Option<SourcePath>) -> (r: Vec<char>)
    ensures
        r@ == path_field(path_model(*path)),
{
    let (tag, text): (char, Vec<char>) = match path {
        None => ('-', Vec::new()),
        Some(SourcePath::Unknown) => ('u', Vec::new()),
        Some(SourcePath::Rust(p)) => ('r', chars_of(p.as_str())),
        Some(SourcePath::Relative(p)) => ('l', chars_of(p.as_str())),
        Some(SourcePath::Absolute(p)) => ('a', chars_of(p.as_str())),
    };
    let mut r: Vec<char> = vec![tag];
    assert(r@ =~= seq![tag]);
    append_chars(&mut r, &text);
    assert(r@ =~= path_field(path_model(*path)));
    r
}

fn write_id(id: &Id, out: &mut Vec<Vec<char>>)
    ensures
        views(final(out)@) == views(old(out)@) + id_fields(id@),
{
    out.push(write_path(&id.obj));
    out.push(write_path(&id.file));
    out.push(chars_of(id.func.as_str()));
    assert(views(out@) =~= views(old(out)@) + id_fields(id@));
}

fn write_counts(metrics: &Metrics, out: &mut Vec<Vec<char>>)
    ensures
        views(final(out)@) == views(old(out)@) + seq![digits_of(metrics.listing().len())]
            + counts_fields(metrics.listing()),
        keys_unique(metrics.listing()),
        metrics.listing().len() <= u64::MAX,
{
    let counts = metrics.entries();
    out.push(write_number(counts.len() as u64));
    let ghost start = views(out@);
    assert(start =~= views(old(out)@) + seq![digits_of(counts@.len())]);
    let mut i: usize = 0;
    assert(counts@.take(0) =~= Seq::empty());
    assert(start + Seq::<Seq<char>>::empty() =~= start);
    while i < counts.len()
        invariant
            i <= counts.len(),
            views(out@) == start + counts_fields(counts@.take(i as int)),
        decreases counts.len() - i,
    {
        let (kind, amount) = counts[i];
        let ghost before = views(out@);
        out.push(write_number(kind_position(kind)));
        out.push(write_number(amount));
        proof {
            let next = counts@.take(i + 1);
            assert(next.drop_last() =~= counts@.take(i as int));
            assert(next.last() == counts@[i as int]);
            assert(views(out@) =~= before + count_fields(counts@[i as int]));
            assert(start + (counts_fields(counts@.take(i as int)) + count_fields(
                counts@[i as int],
            )) =~= before + count_fields(counts@[i as int]));
        }
        i += 1;
    }
    assert(counts@.take(counts.len() as int) =~= counts@);
}

fn write_map(map: &CallgrindMap) -> (r: Vec<Vec<char>>)
    ensures
        views(r@) == map_fields(map.listing()),
        keys_unique(map.listing().entries),
        map.listing().entries.len() <= u64::MAX,
        forall|i: int|
            0 <= i < map.listing().entries.len() ==> keys_unique(
                (#[trigger] map.listing().entries[i]).1,
            ) && map.listing().entries[i].1.len() <= u64::MAX,
{
    let mut out: Vec<Vec<char>> = Vec::new();
    let entries = map.entries();
    let ghost listing = map.listing();
    let sentinel_field: Vec<char> = match map.sentinel() {
        Some(sentinel) => {
            let mut field: Vec<char> = vec!['+'];
            assert(field@ =~= seq!['+']);
            append_chars(&mut field, &chars_of(sentinel.pattern().as_str()));
            field
        },
        None => {
            let field: Vec<char> = vec!['-'];
            assert(field@ =~= seq!['-']);
            field
        },
    };
    assert(sentinel_field@ == option_field(listing.sentinel));
    out.push(sentinel_field);
    match map.sentinel_key() {
        Some(key) => {
            let mark: Vec<char> = vec!['+'];
            assert(mark@ =~= seq!['+']);
            out.push(mark);
            write_id(key, &mut out);
        },
        None => {
            let mark: Vec<char> = vec!['-'];
            assert(mark@ =~= seq!['-']);
            out.push(mark);
        },
    }
    assert(views(out@) =~= seq![option_field(listing.sentinel)] + key_fields(
        listing.sentinel_key,
    ));
    out.push(write_number(entries.len() as u64));
    let ghost start = views(out@);
    assert(start =~= seq![option_field(listing.sentinel)] + key_fields(listing.sentinel_key)
        + seq![digits_of(listing.entries.len())]);
    let mut i: usize = 0;
    assert(listing.entries.take(0) =~= Seq::empty());
    assert(start + Seq::<Seq<char>>::empty() =~= start);
    while i < entries.len()
        invariant
            i <= entries.len(),
            listing.entries == entry_listings(entries@),
            views(out@) == start + entries_fields(listing.entries.take(i as int)),
            forall|j: int|
                0 <= j < i ==> keys_unique((#[trigger] listing.entries[j]).1)
                    && listing.entries[j].1.len() <= u64::MAX,
        decreases entries.len() - i,
    {
        let ghost before = views(out@);
        let ghost entry = listing.entries[i as int];
        write_id(&entries[i].0, &mut out);
        write_counts(&entries[i].1.metrics, &mut out);
        proof {
            let next = listing.entries.take(i + 1);
            assert(next.drop_last() =~= listing.entries.take(i as int));
            assert(next.last() == entry);
            assert(views(out@) =~= before + entry_fields(entry));
            assert(start + (entries_fields(listing.entries.take(i as int)) + entry_fields(entry))
                =~= before + entry_fields(entry));
        }
        i += 1;
    }
    assert(listing.entries.take(entries.len() as int) =~= listing.entries);
    out
}

fn read_path(field: &Vec<char>) -> (r: Option<Option<SourcePath>>)
    ensures
        match r {
            Some(path) => read_path_field(field@) == Some(path_model(path)),
            None => read_path_field(field@).is_none(),
        },
{
    if field.len() == 0 {
        assert(seq!['-'].len() == 1 && seq!['u'].len() == 1);
        return None;
    }
    let tag = field[0];
    if field.len() == 1 && tag == '-' {
        assert(field@ =~= seq!['-']);
        return Some(None);
    }
    assert(field@ != seq!['-']) by {
        if field@ == seq!['-'] {
            assert(seq!['-'][0] == '-');
        }
    }
    if field.len() == 1 && tag == 'u' {
        assert(field@ =~= seq!['u']);
        return Some(Some(SourcePath::Unknown));
    }
    assert(field@ != seq!['u']) by {
        if field@ == seq!['u'] {
            assert(seq!['u'][0] == 'u');
        }
    }
    let text = string_of(&slice_of(field, 1, field.len()));
    if tag == 'r' {
        Some(Some(SourcePath::Rust(text)))
    } else if tag == 'l' {
        Some(Some(SourcePath::Relative(text)))
    } else if tag == 'a' {
        Some(Some(SourcePath::Absolute(text)))
    } else {
        None
    }
}

fn read_id_at(fields: &Vec<Vec<char>>, pos: usize) -> (r: Option<Id>)
    ensures
        match r {
            Some(id) => read_id(views(fields@), pos as int) == Some(id@),
            None => read_id(views(fields@), pos as int).is_none(),
        },
{
    if fields.len() < 3 || pos > fields.len() - 3 {
        return None;
    }
    let obj = match read_path(&fields[pos]) {
        Some(p) => p,
        None => {
            return None;
        },
    };
    let file = match read_path(&fields[pos + 1]) {
        Some(p) => p,
        None => {
            return None;
        },
    };
    Some(Id { obj, file, func: string_of(&fields[pos + 2]) })
}

fn read_count_at(fields: &Vec<Vec<char>>, pos: usize) -> (r: Option<(EventKind, u64)>)
    ensures
        r == read_count(views(fields@), pos as int),
        r.is_some() ==> pos + 2 <= fields@.len(),
{
    if fields.len() < 2 || pos > fields.len() - 2 {
        return None;
    }
    let code = match parse_digits(&fields[pos]) {
        Some(c) => c,
        None => {
            return None;
        },
    };
    let amount = match parse_digits(&fields[pos + 1]) {
        Some(a) => a,
        None => {
            return None;
        },
    };
    match kind_at(code) {
        Some(kind) => Some((kind, amount)),
        None => None,
    }
}

fn read_counts_at(fields: &Vec<Vec<char>>, pos: usize, n: u64) -> (r: Option<
    (Vec<(EventKind, u64)>, usize),
>)
    requires
        pos <= fields@.len(),
    ensures
        match r {
            Some((counts, end)) => read_counts(views(fields@), pos as int, n as nat) == Some(
                counts@,
            ) && end == pos + 2 * n && end <= fields@.len(),
            None => read_counts(views(fields@), pos as int, n as nat).is_none(),
        },
{
    let mut out: Vec<(EventKind, u64)> = Vec::new();
    let mut cur: usize = pos;
    let mut i: u64 = 0;
    assert(fields@.len() == fields.len());
    assert(Seq::<(EventKind, u64)>::empty() + Seq::<(EventKind, u64)>::empty()
        =~= Seq::<(EventKind, u64)>::empty());
    while i < n
        invariant
            i <= n,
            cur == pos + 2 * i,
            cur <= fields@.len() <= usize::MAX,
            out@.len() == i,
            read_counts(views(fields@), pos as int, n as nat) == (match read_counts(
                views(fields@),
                cur as int,
                (n - i) as nat,
            ) {
                Some(rest) => Some(out@ + rest),
                None => None,
            }),
        decreases n - i,
    {
        match read_count_at(fields, cur) {
            Some(count) => {
                let ghost before = out@;
                out.push(count);
                proof {
                    match read_counts(views(fields@), cur + 2, (n - i - 1) as nat) {
                        Some(rest) => {
                            assert(before + (seq![count] + rest) =~= before.push(count) + rest);
                        },
                        None => {},
                    }
                }
                assert(cur + 2 <= fields@.len());
                cur += 2;
                i += 1;
            },
            None => {
                return None;
            },
        }
    }
    assert(out@ + Seq::<(EventKind, u64)>::empty() =~= out@);
    Some((out, cur))
}

fn read_entry_at(fields: &Vec<Vec<char>>, pos: usize) -> (r: Option<((Id, Value), usize)>)
    ensures
        match r {
            Some((entry, next)) => read_entry(views(fields@), pos as int) == Some(
                ((entry.0@, entry.1.metrics.listing()), next as int),
            ) && next <= fields@.len(),
            None => read_entry(views(fields@), pos as int).is_none(),
        },
{
    let id = match read_id_at(fields, pos) {
        Some(id) => id,
        None => {
            return None;
        },
    };
    if fields.len() < 4 || pos > fields.len() - 4 {
        return None;
    }
    let n = match parse_digits(&fields[pos + 3]) {
        Some(n) => n,
        None => {
            return None;
        },
    };
    let (counts, end) = match read_counts_at(fields, pos + 4, n) {
        Some(found) => found,
        None => {
            return None;
        },
    };
    match Metrics::from_entries(counts) {
        Some(metrics) => Some(((id, Value { metrics }), end)),
        None => None,
    }
}

fn read_entries_at(fields: &Vec<Vec<char>>, pos: usize, n: u64) -> (r: Option<
    (Vec<(Id, Value)>, usize),
>)
    requires
        pos <= fields@.len(),
    ensures
        match r {
            Some((entries, end)) => read_entries(views(fields@), pos as int, n as nat) == Some(
                (entry_listings(entries@), end as int),
            ),
            None => read_entries(views(fields@), pos as int, n as nat).is_none(),
        },
{
    let mut out: Vec<(Id, Value)> = Vec::new();
    let mut cur: usize = pos;
    let mut i: u64 = 0;
    assert(entry_listings(out@) =~= Seq::empty());
    while i < n
        invariant
            i <= n,
            cur <= fields@.len(),
            read_entries(views(fields@), pos as int, n as nat) == (match read_entries(
                views(fields@),
                cur as int,
                (n - i) as nat,
            ) {
                Some((rest, end)) => Some((entry_listings(out@) + rest, end)),
                None => None,
            }),
        decreases n - i,
    {
        match read_entry_at(fields, cur) {
            Some((entry, next)) => {
                let ghost before = entry_listings(out@);
                let ghost first = (entry.0@, entry.1.metrics.listing());
                out.push(entry);
                proof {
                    assert(entry_listings(out@) =~= before.push(first));
                    match read_entries(views(fields@), next as int, (n - i - 1) as nat) {
                        Some((rest, end)) => {
                            assert(before + (seq![first] + rest) =~= before.push(first) + rest);
                        },
                        None => {},
                    }
                }
                cur = next;
                i += 1;
            },
            None => {
                return None;
            },
        }
    }
    assert(entry_listings(out@) + Seq::<(IdModel, Seq<(EventKind, u64)>)>::empty()
        =~= entry_listings(out@));
    Some((out, cur))
}

fn read_map_from(fields: &Vec<Vec<char>>) -> (r: Option<CallgrindMap>)
    ensures
        match r {
            Some(map) => read_map(views(fields@)) == Some(map.listing()),
            None => read_map(views(fields@)).is_none(),
        },
{
    if fields.len() < 1 {
        return None;
    }
    let first = &fields[0];
    let sentinel: Option<Sentinel> = if first.len() > 0 && first[0] == '+' {
        let pattern = string_of(&slice_of(first, 1, first.len()));
        Some(Sentinel::new(pattern.as_str()))
    } else if first.len() == 1 && first[0] == '-' {
        assert(first@ =~= seq!['-']);
        None
    } else {
        assert(first@ != seq!['-']) by {
            if first@ == seq!['-'] {
                assert(seq!['-'][0] == '-');
            }
        }
        return None;
    };
    assert(read_option_field(views(fields@)[0]) == Some(sentinel_model(sentinel)));
    if fields.len() < 2 {
        return None;
    }
    let mark = &fields[1];
    let (key, pos): (Option<Id>, usize) = if mark.len() == 1 && mark[0] == '-' {
        assert(mark@ =~= seq!['-']);
        (None, 2)
    } else if mark.len() == 1 && mark[0] == '+' {
        assert(mark@ =~= seq!['+']);
        assert(mark@ != seq!['-']) by {
            assert(seq!['-'][0] == '-');
        }
        match read_id_at(fields, 2) {
            Some(id) => (Some(id), 5),
            None => {
                return None;
            },
        }
    } else {
        assert(mark@ != seq!['-']) by {
            if mark@ == seq!['-'] {
                assert(seq!['-'][0] == '-');
            }
        }
        assert(mark@ != seq!['+']) by {
            if mark@ == seq!['+'] {
                assert(seq!['+'][0] == '+');
            }
        }
        return None;
    };
    assert(read_key(views(fields@), 1) == Some((id_model(key), pos as int)));
    if pos >= fields.len() {
        return None;
    }
    let n = match parse_digits(&fields[pos]) {
        Some(n) => n,
        None => {
            return None;
        },
    };
    let (entries, end) = match read_entries_at(fields, pos + 1, n) {
        Some(found) => found,
        None => {
            return None;
        },
    };
    if end != fields.len() {
        return None;
    }
    CallgrindMap::from_entries(entries, sentinel, key)
}

impl CallgrindMap {
    /// Writes the map as text. Reading the text gives the same map back:
    /// the same entries in the same order, the same sentinel and sentinel key.
    pub fn serialize(&self) -> (r: String)
        ensures
            r@ == encoded(self.listing()),
            decoded(r@) == Some(self.listing()),
    {
        let fields = write_map(self);
        let text = write_fields(&fields);
        proof {
            assert(listing_wf(self.listing()));
            lemma_round_trip(self.listing());
        }
        string_of(&text)
    }

    /// Reads a map from its text; none where the text is not a written map.
    pub fn deserialize(text: &str) -> (r: Option<CallgrindMap>)
        ensures
            match r {
                Some(map) => decoded(text@) == Some(map.listing()) && map@ == content_of(
                    map.listing(),
                ),
                None => decoded(text@).is_none(),
            },
    {
        let chars = chars_of(text);
        match read_fields(&chars) {
            Some(fields) => {
                let r = read_map_from(&fields);
                proof {
                    if r.is_some() {
                        r->Some_0.lemma_listing();
                    }
                }
                r
            },
            None => None,
        }
    }
}

} // verus!
