//! The body catalog of the comment area: which bodies the kernel covers,
//! each under its NAIF identifier.

use vstd::prelude::*;
use crate::error::SpkError;
use crate::number::{i16_of, parse_i16};
use crate::text::{
    ascii, find, first_occurrence, first_occurrence_is_first, phrase, trim, trimmed, trimmed_text,
};

verus! {

/// The phrase that opens the catalog, with the two NUL bytes behind it.
pub const BODIES_MARKER: &'static str = "Bodies included:\0\0";

/// The two NUL bytes that close the catalog.
pub const CATALOG_END: &'static str = "\0\0";

/// The bracket before a body's identifier.
pub const OPEN: &'static str = "(";

/// The bracket behind a body's identifier.
pub const CLOSE: &'static str = ")";

/// A body of the catalog: a name and the identifier in brackets behind it.
#[derive(Clone, Debug, PartialEq, Eq)]
pub struct BodyEntry {
    pub name: Vec<u8>,
    pub naif_id: i16,
}

/// A catalog entry as plain values.
pub struct EntryModel {
    pub name: Seq<u8>,
    pub naif_id: i16,
}

impl View for BodyEntry {
    type V = EntryModel;

    open spec fn view(&self) -> EntryModel {
        EntryModel { name: self.name@, naif_id: self.naif_id }
    }
}

/// The entries of a list as plain values.
pub open spec fn entry_models(entries: Seq<BodyEntry>) -> Seq<EntryModel> {
    Seq::new(entries.len(), |k: int| entries[k]@)
}

/// The entry that starts at `at`, and where the text goes on behind it:
/// the name is what stands before the next opening bracket, the
/// identifier what stands between that bracket and the next closing one,
/// both trimmed. There is no entry where no bracket opens.
pub open spec fn next_entry(region: Seq<u8>, at: int) -> Result<Option<(EntryModel, int)>, SpkError> {
    match first_occurrence(region, ascii(OPEN@), at) {
        None => Ok(None),
        Some(open) => match first_occurrence(region, ascii(CLOSE@), open + 1) {
            None => Err(SpkError::MarkerNotFound),
            Some(close) => match i16_of(trimmed(region.subrange(open + 1, close))) {
                None => Err(SpkError::UnparsableNumeric),
                Some(naif_id) => Ok(
                    Some(
                        (
                            EntryModel { name: trimmed(region.subrange(at, open)), naif_id },
                            close + 1,
                        ),
                    ),
                ),
            },
        },
    }
}

/// `entry`, followed by what `rest` gives if it gives anything.
pub open spec fn entry_then(entry: EntryModel, rest: Result<Seq<EntryModel>, SpkError>) -> Result<
    Seq<EntryModel>,
    SpkError,
> {
    match rest {
        Ok(more) => Ok(seq![entry] + more),
        Err(e) => Err(e),
    }
}

/// The entries that `region` holds from `at` on, in their order.
pub open spec fn entries_from(region: Seq<u8>, at: int) -> Result<Seq<EntryModel>, SpkError>
    decreases region.len() - at,
    via entries_from_ends
{
    match next_entry(region, at) {
        Err(e) => Err(e),
        Ok(None) => Ok(Seq::empty()),
        Ok(Some((entry, next))) => entry_then(entry, entries_from(region, next)),
    }
}

#[via_fn]
proof fn entries_from_ends(region: Seq<u8>, at: int) {
    reveal_strlit(")");
    if at >= 0 {
        first_occurrence_is_first(region, ascii(OPEN@), at);
        match first_occurrence(region, ascii(OPEN@), at) {
            Some(open) => {
                first_occurrence_is_first(region, ascii(CLOSE@), open + 1);
            },
            None => {},
        }
    }
}

/// The place of the first entry at or after `from` that has the
/// identifier `naif_id`.
pub open spec fn place_from(catalog: Seq<EntryModel>, naif_id: i16, from: int) -> Option<int>
    decreases catalog.len() - from,
{
    if from >= catalog.len() {
        None
    } else if catalog[from].naif_id == naif_id {
        Some(from)
    } else {
        place_from(catalog, naif_id, from + 1)
    }
}

/// The catalog after `entry` was recorded: in the place of the entry with
/// the same identifier where there is one, at the end otherwise.
pub open spec fn recorded(catalog: Seq<EntryModel>, entry: EntryModel) -> Seq<EntryModel> {
    match place_from(catalog, entry.naif_id, 0) {
        Some(place) => catalog.update(place, entry),
        None => catalog.push(entry),
    }
}

/// The catalog that recording `entries` one after the other gives.
pub open spec fn catalog_of(entries: Seq<EntryModel>) -> Seq<EntryModel>
    decreases entries.len(),
{
    if entries.len() == 0 {
        Seq::empty()
    } else {
        recorded(catalog_of(entries.drop_last()), entries.last())
    }
}

/// Whether no two entries have the same identifier.
pub open spec fn distinct_ids(catalog: Seq<EntryModel>) -> bool {
    forall|i: int, j: int|
        0 <= i < j < catalog.len() ==> (#[trigger] catalog[i]).naif_id != (
        #[trigger] catalog[j]).naif_id
}

/// What reading the body catalog of a comment area gives: the entries
/// between the opening phrase and the next two NUL bytes in a row,
/// recorded one after the other.
pub open spec fn parse_catalog(comment: Seq<u8>) -> Result<Seq<EntryModel>, SpkError> {
    let marker = ascii(BODIES_MARKER@);
    match first_occurrence(comment, marker, 0) {
        None => Err(SpkError::MarkerNotFound),
        Some(at) => match first_occurrence(comment, ascii(CATALOG_END@), at + marker.len()) {
            None => Err(SpkError::MarkerNotFound),
            Some(end) => match entries_from(comment.subrange(at + marker.len(), end), 0) {
                Ok(entries) => Ok(catalog_of(entries)),
                Err(e) => Err(e),
            },
        },
    }
}

/// What `place_from` finds: the entry there has the identifier, and none
/// before it from `from` on; where it finds nothing, none has it.
pub proof fn place_from_is_first(catalog: Seq<EntryModel>, naif_id: i16, from: int)
    requires
        0 <= from,
    ensures
        match place_from(catalog, naif_id, from) {
            Some(place) => from <= place < catalog.len() && catalog[place].naif_id == naif_id
                && forall|i: int| from <= i < place ==> (#[trigger] catalog[i]).naif_id != naif_id,
            None => forall|i: int|
                from <= i < catalog.len() ==> (#[trigger] catalog[i]).naif_id != naif_id,
        },
    decreases catalog.len() - from,
{
    if from < catalog.len() && catalog[from].naif_id != naif_id {
        place_from_is_first(catalog, naif_id, from + 1);
    }
}

/// Recording an entry keeps the identifiers of a catalog distinct.
pub proof fn recorded_keeps_distinct(catalog: Seq<EntryModel>, entry: EntryModel)
    requires
        distinct_ids(catalog),
    ensures
        distinct_ids(recorded(catalog, entry)),
{
    place_from_is_first(catalog, entry.naif_id, 0);
}

/// No two bodies of a catalog have the same identifier, whatever entries
/// it was made from and however often an identifier occurred among them.
pub proof fn catalog_has_distinct_ids(entries: Seq<EntryModel>)
    ensures
        distinct_ids(catalog_of(entries)),
    decreases entries.len(),
{
    if entries.len() > 0 {
        catalog_has_distinct_ids(entries.drop_last());
        recorded_keeps_distinct(catalog_of(entries.drop_last()), entries.last());
    }
}

/// Records `entry` in the catalog: in the place of the entry with the
/// same identifier where there is one, at the end otherwise.
pub fn record_entry(catalog: &mut Vec<BodyEntry>, entry: BodyEntry)
    ensures
        entry_models(final(catalog)@) == recorded(entry_models(old(catalog)@), entry@),
{
    let ghost before = entry_models(catalog@);
    let mut place: usize = 0;
    while place < catalog.len()
        invariant
            place <= catalog@.len(),
            before == entry_models(old(catalog)@),
            entry_models(catalog@) == before,
            place_from(before, entry.naif_id, 0) == place_from(before, entry.naif_id, place as int),
        decreases catalog@.len() - place,
    {
        assert(before[place as int] == catalog@[place as int]@);
        if catalog[place].naif_id == entry.naif_id {
            let ghost model = entry@;
            assert(place_from(before, entry.naif_id, place as int) == Some(place as int));
            catalog.set(place, entry);
            assert(entry_models(catalog@) =~= before.update(place as int, model));
            return ;
        }
        place += 1;
    }
    let ghost model = entry@;
    assert(place_from(before, entry.naif_id, place as int) is None);
    catalog.push(entry);
    assert(entry_models(catalog@) =~= before.push(model));
}

/// Reads the entry that starts at `at`, and tells where the text goes on
/// behind it. There is no entry where no bracket opens.
///
/// Fails with `MarkerNotFound` where a bracket opens and none closes, and
/// with `UnparsableNumeric` where what stands in the brackets is no
/// 16-bit integer.
pub fn read_entry(region: &[u8], at: usize) -> (r: Result<Option<(BodyEntry, usize)>, SpkError>)
    ensures
        match r {
            Ok(Some((entry, next))) => next_entry(region@, at as int) == Ok::<
                Option<(EntryModel, int)>,
                SpkError,
            >(Some((entry@, next as int))) && at < next <= region@.len(),
            Ok(None) => next_entry(region@, at as int) == Ok::<
                Option<(EntryModel, int)>,
                SpkError,
            >(None),
            Err(e) => next_entry(region@, at as int) == Err::<Option<(EntryModel, int)>, SpkError>(
                e,
            ),
        },
{
    proof {
        reveal_strlit("(");
        reveal_strlit(")");
    }
    let open = match find(region, phrase(OPEN), at) {
        None => {
            return Ok(None);
        },
        Some(open) => open,
    };
    let close = match find(region, phrase(CLOSE), open + 1) {
        None => {
            return Err(SpkError::MarkerNotFound);
        },
        Some(close) => close,
    };
    let naif_id = match parse_i16(trim(&region[open + 1..close])) {
        None => {
            return Err(SpkError::UnparsableNumeric);
        },
        Some(naif_id) => naif_id,
    };
    let name = trimmed_text(region, at, open);
    Ok(Some((BodyEntry { name, naif_id }, close + 1)))
}

/// Reads the body catalog of a comment area: the entries between the
/// phrase that opens it and the next two NUL bytes in a row. An entry
/// whose identifier occurred before takes the place of the earlier one,
/// so that no two bodies share an identifier.
///
/// Fails with `MarkerNotFound` where the opening phrase, the two closing
/// bytes or a closing bracket is absent, and with `UnparsableNumeric`
/// where an identifier is no 16-bit integer.
#[verifier::loop_isolation(false)]
pub fn body_catalog(comment: &[u8]) -> (r: Result<Vec<BodyEntry>, SpkError>)
    ensures
        match r {
            Ok(catalog) => parse_catalog(comment@) == Ok::<Seq<EntryModel>, SpkError>(
                entry_models(catalog@),
            ) && distinct_ids(entry_models(catalog@)),
            Err(e) => parse_catalog(comment@) == Err::<Seq<EntryModel>, SpkError>(e),
        },
{
    proof {
        reveal_strlit("Bodies included:\0\0");
        reveal_strlit("\0\0");
        first_occurrence_is_first(comment@, ascii(BODIES_MARKER@), 0);
    }
    let marker = phrase(BODIES_MARKER);
    let start = match find(comment, marker, 0) {
        None => {
            return Err(SpkError::MarkerNotFound);
        },
        Some(at) => at + marker.len(),
    };
    let end = match find(comment, phrase(CATALOG_END), start) {
        None => {
            return Err(SpkError::MarkerNotFound);
        },
        Some(end) => end,
    };
    let region = &comment[start..end];
    let mut catalog: Vec<BodyEntry> = Vec::new();
    let mut at: usize = 0;
    let ghost mut read: Seq<EntryModel> = Seq::empty();
    proof {
        match entries_from(region@, 0) {
            Ok(more) => {
                assert(read + more =~= more);
            },
            Err(_) => {},
        }
    }
    loop
        invariant
            at <= region@.len(),
            entry_models(catalog@) == catalog_of(read),
            entries_from(region@, 0) == match entries_from(region@, at as int) {
                Ok(more) => Ok::<Seq<EntryModel>, SpkError>(read + more),
                Err(e) => Err::<Seq<EntryModel>, SpkError>(e),
            },
        decreases region@.len() - at,
    {
        match read_entry(region, at) {
            Err(e) => {
                return Err(e);
            },
            Ok(None) => {
                proof {
                    assert(read + Seq::<EntryModel>::empty() =~= read);
                    catalog_has_distinct_ids(read);
                }
                return Ok(catalog);
            },
            Ok(Some((entry, next))) => {
                proof {
                    match entries_from(region@, next as int) {
                        Ok(more) => {
                            assert(read + (seq![entry@] + more) =~= read.push(entry@) + more);
                        },
                        Err(_) => {},
                    }
                    assert(read.push(entry@).drop_last() =~= read);
                    read = read.push(entry@);
                }
                record_entry(&mut catalog, entry);
                at = next;
            },
        }
    }
}

} // verus!
