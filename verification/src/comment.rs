//! The comment area: free text between the file record and the first
//! directory block. It names the kernel, may give the time span that the
//! kernel covers, lists the bodies, and holds the table of gravitational
//! parameters.
//!
//! The text is read as a small grammar of marker phrases and the fields
//! behind them, so that each part can be asked for, and can fail, on its
//! own.

use vstd::prelude::*;
use crate::catalog::{
    body_catalog, distinct_ids, entry_models, parse_catalog, BodyEntry, EntryModel,
};
use crate::error::SpkError;
use crate::gravity::{gm_table, parse_table, written, GmStop, GmTable, GmValue, ValueModel, WriteModel};
use crate::text::{
    ascii, find, first_occurrence, phrase, same_bytes, skip_blank, solid_from, split_words,
    trimmed, trimmed_text, word_text, words,
};

verus! {

/// The phrase before the kernel's name.
pub const NAME_MARKER: &'static str = "ephemeris ";

/// The number of bytes of the kernel's name.
pub const NAME_WIDTH: usize = 5;

/// The phrase before the date of the kernel.
pub const DATE_MARKER: &'static str = "Integrated ";

/// The phrase before the time span that the kernel covers.
pub const SPAN_MARKER: &'static str = "span covered by ephemeris:";

/// The word between the two ends of the time span.
pub const SPAN_SEPARATOR: &'static str = "to";

/// The byte that ends a field of the comment area.
pub const FIELD_END: &'static str = "\0";

/// Which kernel this is.
#[derive(Clone, Debug, PartialEq, Eq)]
pub struct KernelIdentity {
    /// The five bytes behind the name phrase.
    pub name: Vec<u8>,
    /// What stands between the date phrase and the next NUL byte, trimmed.
    pub date: Vec<u8>,
}

/// A kernel's identity as plain values.
pub struct IdentityModel {
    pub name: Seq<u8>,
    pub date: Seq<u8>,
}

impl View for KernelIdentity {
    type V = IdentityModel;

    open spec fn view(&self) -> IdentityModel {
        IdentityModel { name: self.name@, date: self.date@ }
    }
}

/// The time span that a kernel covers, as the comment area words it.
#[derive(Clone, Debug, PartialEq, Eq)]
pub struct ValiditySpan {
    pub start: Vec<u8>,
    pub end: Vec<u8>,
}

/// A time span as plain values.
pub struct SpanModel {
    pub start: Seq<u8>,
    pub end: Seq<u8>,
}

impl View for ValiditySpan {
    type V = SpanModel;

    open spec fn view(&self) -> SpanModel {
        SpanModel { start: self.start@, end: self.end@ }
    }
}

/// What reading the kernel's identity gives: the name is the five bytes
/// behind the first name phrase; the date is what stands between the
/// first date phrase behind the name and the next NUL byte, trimmed.
pub open spec fn parse_identity(comment: Seq<u8>) -> Result<IdentityModel, SpkError> {
    let name_marker = ascii(NAME_MARKER@);
    let date_marker = ascii(DATE_MARKER@);
    match first_occurrence(comment, name_marker, 0) {
        None => Err(SpkError::MarkerNotFound),
        Some(at) => {
            let name = at + name_marker.len();
            if name + 5 > comment.len() {
                Err(SpkError::Truncated)
            } else {
                match first_occurrence(comment, date_marker, name + 5) {
                    None => Err(SpkError::MarkerNotFound),
                    Some(at) => {
                        let date = at + date_marker.len();
                        match first_occurrence(comment, ascii(FIELD_END@), date) {
                            None => Err(SpkError::MarkerNotFound),
                            Some(end) => Ok(
                                IdentityModel {
                                    name: comment.subrange(name, name + 5),
                                    date: trimmed(comment.subrange(date, end)),
                                },
                            ),
                        }
                    },
                }
            }
        },
    }
}

/// The first word from place `k` on that is the separator of a time span.
pub open spec fn separator_from(line: Seq<u8>, found: Seq<(int, int)>, k: int) -> Option<(int, int)>
    decreases found.len() - k,
{
    if k >= found.len() {
        None
    } else if word_text(line, found[k]) == ascii(SPAN_SEPARATOR@) {
        Some(found[k])
    } else {
        separator_from(line, found, k + 1)
    }
}

/// What reading the time span gives. Without the span phrase there is no
/// span. Behind the phrase and any blank bytes, the text up to the next
/// NUL byte holds the start, the separator as a word of its own, and the
/// end; start and end are trimmed.
pub open spec fn parse_span(comment: Seq<u8>) -> Result<Option<SpanModel>, SpkError> {
    let marker = ascii(SPAN_MARKER@);
    match first_occurrence(comment, marker, 0) {
        None => Ok(None),
        Some(at) => {
            let start = solid_from(comment, at + marker.len());
            match first_occurrence(comment, ascii(FIELD_END@), start) {
                None => Err(SpkError::MarkerNotFound),
                Some(end) => {
                    let line = comment.subrange(start, end);
                    match separator_from(line, words(line), 0) {
                        None => Err(SpkError::MarkerNotFound),
                        Some(separator) => Ok(
                            Some(
                                SpanModel {
                                    start: trimmed(line.subrange(0, separator.0)),
                                    end: trimmed(line.subrange(separator.1, line.len() as int)),
                                },
                            ),
                        ),
                    }
                },
            }
        },
    }
}

/// Reads which kernel this is.
///
/// Fails with `MarkerNotFound` where the name phrase, the date phrase
/// behind the name, or the NUL byte behind the date is absent, and with
/// `Truncated` where fewer than five bytes follow the name phrase.
pub fn kernel_identity(comment: &[u8]) -> (r: Result<KernelIdentity, SpkError>)
    ensures
        match r {
            Ok(identity) => parse_identity(comment@) == Ok::<IdentityModel, SpkError>(identity@),
            Err(e) => parse_identity(comment@) == Err::<IdentityModel, SpkError>(e),
        },
{
    proof {
        reveal_strlit("ephemeris ");
        reveal_strlit("Integrated ");
        reveal_strlit("\0");
    }
    let name_marker = phrase(NAME_MARKER);
    let name = match find(comment, name_marker, 0) {
        None => {
            return Err(SpkError::MarkerNotFound);
        },
        Some(at) => at + name_marker.len(),
    };
    if comment.len() - name < NAME_WIDTH {
        return Err(SpkError::Truncated);
    }
    let date_marker = phrase(DATE_MARKER);
    let date = match find(comment, date_marker, name + NAME_WIDTH) {
        None => {
            return Err(SpkError::MarkerNotFound);
        },
        Some(at) => at + date_marker.len(),
    };
    let end = match find(comment, phrase(FIELD_END), date) {
        None => {
            return Err(SpkError::MarkerNotFound);
        },
        Some(end) => end,
    };
    Ok(
        KernelIdentity {
            name: vstd::slice::slice_to_vec(&comment[name..name + NAME_WIDTH]),
            date: trimmed_text(comment, date, end),
        },
    )
}

/// Finds the separator among the words of the line of a time span.
fn find_separator(line: &[u8], found: &Vec<(usize, usize)>) -> (r: Option<(usize, usize)>)
    requires
        crate::text::spans(found@) == words(line@),
        forall|k: int| 0 <= k < found@.len() ==> (#[trigger] found@[k]).0 < found@[k].1 <= line@.len(),
    ensures
        match r {
            Some((start, end)) => separator_from(line@, words(line@), 0) == Some(
                (start as int, end as int),
            ) && start < end <= line@.len(),
            None => separator_from(line@, words(line@), 0) is None,
        },
{
    proof {
        reveal_strlit("to");
    }
    let separator = phrase(SPAN_SEPARATOR);
    let mut k: usize = 0;
    while k < found.len()
        invariant
            k <= found@.len(),
            crate::text::spans(found@) == words(line@),
            forall|k: int|
                0 <= k < found@.len() ==> (#[trigger] found@[k]).0 < found@[k].1 <= line@.len(),
            separator@ == ascii(SPAN_SEPARATOR@),
            separator_from(line@, words(line@), 0) == separator_from(
                line@,
                words(line@),
                k as int,
            ),
        decreases found@.len() - k,
    {
        assert(crate::text::spans(found@)[k as int] == words(line@)[k as int]);
        let (start, end) = found[k];
        if same_bytes(&line[start..end], separator) {
            return Some((start, end));
        }
        k += 1;
    }
    None
}

/// Reads the time span that the kernel covers, if the comment area gives
/// one.
///
/// Fails with `MarkerNotFound` where the span phrase is there but the NUL
/// byte behind it, or the separator between start and end, is absent.
pub fn validity_span(comment: &[u8]) -> (r: Result<Option<ValiditySpan>, SpkError>)
    ensures
        match r {
            Ok(Some(span)) => parse_span(comment@) == Ok::<Option<SpanModel>, SpkError>(
                Some(span@),
            ),
            Ok(None) => parse_span(comment@) == Ok::<Option<SpanModel>, SpkError>(None),
            Err(e) => parse_span(comment@) == Err::<Option<SpanModel>, SpkError>(e),
        },
{
    proof {
        reveal_strlit("span covered by ephemeris:");
        reveal_strlit("\0");
    }
    let marker = phrase(SPAN_MARKER);
    let start = match find(comment, marker, 0) {
        None => {
            return Ok(None);
        },
        Some(at) => skip_blank(comment, at + marker.len()),
    };
    let end = match find(comment, phrase(FIELD_END), start) {
        None => {
            return Err(SpkError::MarkerNotFound);
        },
        Some(end) => end,
    };
    let line = &comment[start..end];
    let found = split_words(line);
    match find_separator(line, &found) {
        None => Err(SpkError::MarkerNotFound),
        Some((from, to)) => Ok(
            Some(
                ValiditySpan {
                    start: trimmed_text(line, 0, from),
                    end: trimmed_text(line, to, line.len()),
                },
            ),
        ),
    }
}

/// A body that the kernel covers.
#[derive(Clone, Debug, PartialEq, Eq)]
pub struct Body {
    pub name: Vec<u8>,
    pub naif_id: i16,
    /// The gravitational parameter, where the table gives one.
    pub gravitational_parameter: Option<GmValue>,
}

/// A body as plain values.
pub struct BodyModel {
    pub name: Seq<u8>,
    pub naif_id: i16,
    pub gravitational_parameter: Option<ValueModel>,
}

impl View for Body {
    type V = BodyModel;

    open spec fn view(&self) -> BodyModel {
        BodyModel {
            name: self.name@,
            naif_id: self.naif_id,
            gravitational_parameter: match self.gravitational_parameter {
                Some(value) => Some(value@),
                None => None,
            },
        }
    }
}

/// The bodies of a list as plain values.
pub open spec fn body_models(bodies: Seq<Body>) -> Seq<BodyModel> {
    Seq::new(bodies.len(), |k: int| bodies[k]@)
}

/// The body that a catalog entry and the filed values make: the entry's
/// name and identifier, with the value that stands last under that
/// identifier, if any does.
pub open spec fn finished_body(entry: EntryModel, writes: Seq<WriteModel>) -> BodyModel {
    BodyModel {
        name: entry.name,
        naif_id: entry.naif_id,
        gravitational_parameter: written(writes, entry.naif_id, writes.len() as int),
    }
}

/// The bodies that a catalog and the filed values make, in the catalog's
/// order.
pub open spec fn finished(entries: Seq<EntryModel>, writes: Seq<WriteModel>) -> Seq<BodyModel> {
    Seq::new(entries.len(), |k: int| finished_body(entries[k], writes))
}

/// Whether no two bodies have the same identifier.
pub open spec fn distinct_bodies(bodies: Seq<BodyModel>) -> bool {
    forall|i: int, j: int|
        0 <= i < j < bodies.len() ==> (#[trigger] bodies[i]).naif_id != (
        #[trigger] bodies[j]).naif_id
}

/// Bodies made from a catalog without a repeated identifier have none
/// repeated either.
pub proof fn finished_keeps_distinct(entries: Seq<EntryModel>, writes: Seq<WriteModel>)
    requires
        distinct_ids(entries),
    ensures
        distinct_bodies(finished(entries, writes)),
{
    assert forall|i: int, j: int| 0 <= i < j < finished(entries, writes).len() implies (
    #[trigger] finished(entries, writes)[i]).naif_id != (#[trigger] finished(
        entries,
        writes,
    )[j]).naif_id by {
        assert(entries[i].naif_id != entries[j].naif_id);
    }
}

/// Joins the catalog and the table: each body gets the value that the
/// table holds for its identifier, and none where the table holds none.
/// Values filed under identifiers that the catalog lacks are left out.
/// Where no two entries share an identifier, no two bodies do.
pub fn finish_catalog(entries: Vec<BodyEntry>, table: &GmTable) -> (bodies: Vec<Body>)
    ensures
        body_models(bodies@) == finished(entry_models(entries@), table@.writes),
        distinct_ids(entry_models(entries@)) ==> distinct_bodies(body_models(bodies@)),
{
    let ghost all = entry_models(entries@);
    proof {
        if distinct_ids(all) {
            finished_keeps_distinct(all, table@.writes);
        }
    }
    let mut bodies: Vec<Body> = Vec::new();
    let mut k: usize = 0;
    while k < entries.len()
        invariant
            k <= entries@.len(),
            all == entry_models(entries@),
            body_models(bodies@) == finished(all, table@.writes).take(k as int),
        decreases entries@.len() - k,
    {
        let entry = &entries[k];
        let body = Body {
            name: crate::gravity::copy_text(&entry.name),
            naif_id: entry.naif_id,
            gravitational_parameter: table.value_of(entry.naif_id),
        };
        let ghost so_far = body_models(bodies@);
        assert(body@ == finished_body(all[k as int], table@.writes));
        bodies.push(body);
        assert(body_models(bodies@) =~= so_far.push(body@));
        assert(so_far.push(body@) =~= finished(all, table@.writes).take(k + 1));
        k += 1;
    }
    assert(finished(all, table@.writes).take(k as int) =~= finished(all, table@.writes));
    bodies
}

/// All that the comment area says.
#[derive(Clone, Debug, PartialEq, Eq)]
pub struct Catalog {
    pub identity: KernelIdentity,
    pub span: Option<ValiditySpan>,
    /// The bodies, no two with the same identifier.
    pub bodies: Vec<Body>,
    /// The identifiers of the table that name no body.
    pub unrecognized: Vec<Vec<u8>>,
    /// Why the scan of the table ended.
    pub stop: GmStop,
}

/// A catalog as plain values.
pub struct CatalogModel {
    pub identity: IdentityModel,
    pub span: Option<SpanModel>,
    pub bodies: Seq<BodyModel>,
    pub unrecognized: Seq<Seq<u8>>,
    pub stop: GmStop,
}

impl View for Catalog {
    type V = CatalogModel;

    open spec fn view(&self) -> CatalogModel {
        CatalogModel {
            identity: self.identity@,
            span: match self.span {
                Some(span) => Some(span@),
                None => None,
            },
            bodies: body_models(self.bodies@),
            unrecognized: crate::gravity::text_models(self.unrecognized@),
            stop: self.stop,
        }
    }
}

impl Catalog {
    /// The body with the identifier `naif_id`, if the catalog has it.
    pub fn body(&self, naif_id: i16) -> (found: Option<&Body>)
        ensures
            match found {
                Some(body) => body.naif_id == naif_id && exists|k: int|
                    0 <= k < self.bodies@.len() && #[trigger] self.bodies@[k] == *body,
                None => forall|k: int|
                    0 <= k < self.bodies@.len() ==> (#[trigger] self.bodies@[k]).naif_id
                        != naif_id,
            },
    {
        let mut k: usize = 0;
        while k < self.bodies.len()
            invariant
                k <= self.bodies@.len(),
                forall|j: int| 0 <= j < k ==> (#[trigger] self.bodies@[j]).naif_id != naif_id,
            decreases self.bodies@.len() - k,
        {
            if self.bodies[k].naif_id == naif_id {
                return Some(&self.bodies[k]);
            }
            k += 1;
        }
        None
    }
}

/// What reading the whole comment area gives: identity, span, body
/// catalog and table in this order, the first failure ending it.
pub open spec fn parse_comment(comment: Seq<u8>) -> Result<CatalogModel, SpkError> {
    match parse_identity(comment) {
        Err(e) => Err(e),
        Ok(identity) => match parse_span(comment) {
            Err(e) => Err(e),
            Ok(span) => match parse_catalog(comment) {
                Err(e) => Err(e),
                Ok(entries) => match parse_table(comment) {
                    Err(e) => Err(e),
                    Ok(table) => Ok(
                        CatalogModel {
                            identity,
                            span,
                            bodies: finished(entries, table.writes),
                            unrecognized: table.unrecognized,
                            stop: table.stop,
                        },
                    ),
                },
            },
        },
    }
}

/// Reads all that the comment area says. No two of the bodies that come
/// back have the same identifier.
///
/// Fails as `kernel_identity`, `validity_span`, `body_catalog` and
/// `gm_table` do, in this order.
pub fn extract_catalog(comment: &[u8]) -> (r: Result<Catalog, SpkError>)
    ensures
        match r {
            Ok(catalog) => parse_comment(comment@) == Ok::<CatalogModel, SpkError>(catalog@)
                && distinct_bodies(body_models(catalog.bodies@)),
            Err(e) => parse_comment(comment@) == Err::<CatalogModel, SpkError>(e),
        },
{
    let identity = kernel_identity(comment)?;
    let span = validity_span(comment)?;
    let entries = body_catalog(comment)?;
    let table = gm_table(comment)?;
    let bodies = finish_catalog(entries, &table);
    Ok(Catalog { identity, span, bodies, unrecognized: table.unrecognized, stop: table.stop })
}

} // verus!
