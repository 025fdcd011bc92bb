//! The table of gravitational parameters in the comment area.
//!
//! The table is a run of lines, each found by its `GM` prefix and ended by
//! a NUL byte. A line names a body in its first word and gives a value
//! further on. The values stay text here, exactly as the table spells them
//! once `D` is read as `E`; turning text into a double is the caller's.

use vstd::prelude::*;
use crate::error::SpkError;
use crate::number::{decimal_text, decimal_text_of, i16_of, parse_i16};
use crate::text::{
    ascii, find, first_occurrence, first_occurrence_is_first, phrase, same_bytes, split_words,
    word_text, words,
};

verus! {

/// The phrase that the table follows.
pub const TABLE_MARKER: &'static str = "Sun/GM(I)";

/// The prefix of each line of the table.
pub const LINE_MARKER: &'static str = "GM";

/// The byte that ends a line.
pub const LINE_END: &'static str = "\0";

/// The identifier of the Sun.
pub const SUN: &'static str = "S";

/// The identifier of the Moon.
pub const MOON: &'static str = "M";

/// The identifier of the Earth-Moon barycenter.
pub const BARYCENTER: &'static str = "B";

/// A gravitational parameter as the table gives it.
#[derive(Clone, Debug, PartialEq, Eq)]
pub enum GmValue {
    /// The value itself, as decimal text.
    Direct(Vec<u8>),
    /// The Sun's value divided by `divisor`, both as decimal text.
    SunRatio { sun: Vec<u8>, divisor: Vec<u8> },
}

/// A gravitational parameter as plain values.
pub enum ValueModel {
    Direct(Seq<u8>),
    SunRatio { sun: Seq<u8>, divisor: Seq<u8> },
}

impl View for GmValue {
    type V = ValueModel;

    open spec fn view(&self) -> ValueModel {
        match self {
            GmValue::Direct(text) => ValueModel::Direct(text@),
            GmValue::SunRatio { sun, divisor } => ValueModel::SunRatio {
                sun: sun@,
                divisor: divisor@,
            },
        }
    }
}

/// Why the scan of the table ended.
#[derive(Clone, Copy, Debug, PartialEq, Eq, Structural)]
pub enum GmStop {
    /// No further line with the prefix and an end was found.
    TableEnded,
    /// A line has no word where its value should stand.
    ValueMissing,
    /// The word where a line's value should stand is no number.
    ValueUnparsable,
    /// A line gives a ratio to the Sun's value before any line gave that.
    SunUnknown,
}

/// The identifiers under which the value of a line is filed: a planet index
/// from 1 to 3 stands for the planet's barycenter, and 1 and 2 for the
/// planet itself as well; an index from 4 on is its own identifier; `S`,
/// `M` and `B` are the Sun, the Moon and the Earth-Moon barycenter.
pub open spec fn targets(identifier: Seq<u8>) -> Result<Seq<i16>, SpkError> {
    if identifier == ascii(SUN@) {
        Ok(seq![10i16])
    } else if identifier == ascii(MOON@) {
        Ok(seq![301i16])
    } else if identifier == ascii(BARYCENTER@) {
        Ok(seq![3i16])
    } else {
        match i16_of(identifier) {
            Some(p) => if 1 <= p <= 2 {
                Ok(seq![(p * 100 + 99) as i16, p])
            } else if p == 3 {
                Ok(seq![399i16])
            } else if p >= 4 {
                Ok(seq![p])
            } else {
                Err(SpkError::UnrecognizedBodyIdentifier)
            },
            None => Err(SpkError::UnrecognizedBodyIdentifier),
        }
    }
}

/// Whether a line with this identifier gives a ratio to the Sun's value.
pub open spec fn gives_ratio(identifier: Seq<u8>) -> bool {
    identifier == ascii(MOON@) || identifier == ascii(BARYCENTER@)
}

/// What a line says, where `sun` is the Sun's value if an earlier line
/// gave it: the identifier and the value, or why the line gives none.
///
/// The identifier is the first word. The value is the fourth word, or the
/// third where the line gives a ratio.
pub open spec fn read_line(line: Seq<u8>, sun: Option<Seq<u8>>) -> Result<
    (Seq<u8>, ValueModel),
    GmStop,
> {
    let found = words(line);
    let identifier = word_text(line, found[0]);
    let place: int = if gives_ratio(identifier) {
        2
    } else {
        3
    };
    if found.len() == 0 || found.len() <= place {
        Err(GmStop::ValueMissing)
    } else {
        match decimal_text_of(word_text(line, found[place])) {
            Err(_) => Err(GmStop::ValueUnparsable),
            Ok(text) => if gives_ratio(identifier) {
                match sun {
                    None => Err(GmStop::SunUnknown),
                    Some(sun) => Ok((identifier, ValueModel::SunRatio { sun, divisor: text })),
                }
            } else {
                Ok((identifier, ValueModel::Direct(text)))
            },
        }
    }
}

/// The Sun's value after a line: the line's own where it is the Sun's, the
/// one known before otherwise.
pub open spec fn sun_after(sun: Option<Seq<u8>>, identifier: Seq<u8>, value: ValueModel) -> Option<
    Seq<u8>,
> {
    match value {
        ValueModel::Direct(text) => if identifier == ascii(SUN@) {
            Some(text)
        } else {
            sun
        },
        ValueModel::SunRatio { .. } => sun,
    }
}

/// The Sun's value as plain values.
pub open spec fn known(sun: Option<Vec<u8>>) -> Option<Seq<u8>> {
    match sun {
        Some(text) => Some(text@),
        None => None,
    }
}

/// Tells under which identifiers the value of a line is filed. Fails with
/// `UnrecognizedBodyIdentifier` for an identifier that names no body.
pub fn classify(identifier: &[u8]) -> (r: Result<Vec<i16>, SpkError>)
    ensures
        match r {
            Ok(ids) => targets(identifier@) == Ok::<Seq<i16>, SpkError>(ids@),
            Err(e) => targets(identifier@) == Err::<Seq<i16>, SpkError>(e),
        },
{
    proof {
        reveal_strlit("S");
        reveal_strlit("M");
        reveal_strlit("B");
    }
    let mut ids: Vec<i16> = Vec::new();
    if same_bytes(identifier, phrase(SUN)) {
        ids.push(10);
    } else if same_bytes(identifier, phrase(MOON)) {
        ids.push(301);
    } else if same_bytes(identifier, phrase(BARYCENTER)) {
        ids.push(3);
    } else {
        match parse_i16(identifier) {
            Some(p) => {
                if 1 <= p && p <= 2 {
                    ids.push(p * 100 + 99);
                    ids.push(p);
                } else if p == 3 {
                    ids.push(399);
                } else if p >= 4 {
                    ids.push(p);
                } else {
                    return Err(SpkError::UnrecognizedBodyIdentifier);
                }
            },
            None => {
                return Err(SpkError::UnrecognizedBodyIdentifier);
            },
        }
    }
    assert(targets(identifier@) is Ok && targets(identifier@)->Ok_0 =~= ids@);
    Ok(ids)
}

/// A copy of a text.
pub(crate) fn copy_text(text: &Vec<u8>) -> (copy: Vec<u8>)
    ensures
        copy@ == text@,
{
    vstd::slice::slice_to_vec(text.as_slice())
}

/// Reads one line of the table, where `sun` is the Sun's value if an
/// earlier line gave it: the identifier and the value, or why the line
/// gives none.
pub fn read_gm_line(line: &[u8], sun: &Option<Vec<u8>>) -> (r: Result<(Vec<u8>, GmValue), GmStop>)
    ensures
        match r {
            Ok((identifier, value)) => read_line(line@, known(*sun)) == Ok::<
                (Seq<u8>, ValueModel),
                GmStop,
            >((identifier@, value@)),
            Err(stop) => read_line(line@, known(*sun)) == Err::<(Seq<u8>, ValueModel), GmStop>(
                stop,
            ),
        },
{
    proof {
        reveal_strlit("M");
        reveal_strlit("B");
    }
    let found = split_words(line);
    if found.len() == 0 {
        return Err(GmStop::ValueMissing);
    }
    assert(crate::text::spans(found@)[0] == words(line@)[0]);
    let identifier = &line[found[0].0..found[0].1];
    let ratio = same_bytes(identifier, phrase(MOON)) || same_bytes(identifier, phrase(BARYCENTER));
    let place: usize = if ratio {
        2
    } else {
        3
    };
    if found.len() <= place {
        return Err(GmStop::ValueMissing);
    }
    assert(crate::text::spans(found@)[place as int] == words(line@)[place as int]);
    let text = match decimal_text(&line[found[place].0..found[place].1]) {
        Err(_) => {
            return Err(GmStop::ValueUnparsable);
        },
        Ok(text) => text,
    };
    let name = vstd::slice::slice_to_vec(identifier);
    if ratio {
        match sun {
            None => Err(GmStop::SunUnknown),
            Some(sun) => Ok((name, GmValue::SunRatio { sun: copy_text(sun), divisor: text })),
        }
    } else {
        Ok((name, GmValue::Direct(text)))
    }
}

/// A value filed under an identifier.
#[derive(Clone, Debug, PartialEq, Eq)]
pub struct GmWrite {
    pub naif_id: i16,
    pub value: GmValue,
}

/// A filed value as plain values.
pub struct WriteModel {
    pub naif_id: i16,
    pub value: ValueModel,
}

impl View for GmWrite {
    type V = WriteModel;

    open spec fn view(&self) -> WriteModel {
        WriteModel { naif_id: self.naif_id, value: self.value@ }
    }
}

/// What the scan of the table gave.
#[derive(Clone, Debug, PartialEq, Eq)]
pub struct GmTable {
    /// The values in the order of their lines, each under the identifiers
    /// of its line. A later value for an identifier replaces an earlier.
    pub writes: Vec<GmWrite>,
    /// The identifiers that name no body, in the order of their lines.
    pub unrecognized: Vec<Vec<u8>>,
    /// Why the scan ended.
    pub stop: GmStop,
}

/// A scan's result as plain values.
pub struct TableModel {
    pub writes: Seq<WriteModel>,
    pub unrecognized: Seq<Seq<u8>>,
    pub stop: GmStop,
}

/// Filed values as plain values.
pub open spec fn write_models(writes: Seq<GmWrite>) -> Seq<WriteModel> {
    Seq::new(writes.len(), |k: int| writes[k]@)
}

/// Texts as plain values.
pub open spec fn text_models(texts: Seq<Vec<u8>>) -> Seq<Seq<u8>> {
    Seq::new(texts.len(), |k: int| texts[k]@)
}

impl View for GmTable {
    type V = TableModel;

    open spec fn view(&self) -> TableModel {
        TableModel {
            writes: write_models(self.writes@),
            unrecognized: text_models(self.unrecognized@),
            stop: self.stop,
        }
    }
}

/// `value` under each of `ids`.
pub open spec fn filed(ids: Seq<i16>, value: ValueModel) -> Seq<WriteModel> {
    Seq::new(ids.len(), |k: int| WriteModel { naif_id: ids[k], value })
}

/// The next line of the table at or after `at`: what stands between the
/// next line prefix and the next NUL byte behind it, as the index of its
/// first byte and the index of that NUL byte.
pub open spec fn next_line(comment: Seq<u8>, at: int) -> Option<(int, int)> {
    match first_occurrence(comment, ascii(LINE_MARKER@), at) {
        None => None,
        Some(prefix) => match first_occurrence(
            comment,
            ascii(LINE_END@),
            prefix + ascii(LINE_MARKER@).len(),
        ) {
            None => None,
            Some(end) => Some((prefix + ascii(LINE_MARKER@).len(), end)),
        },
    }
}

/// A scan's result with the outcome of an earlier line put before it.
pub open spec fn line_then(
    identifier: Seq<u8>,
    value: ValueModel,
    rest: TableModel,
) -> TableModel {
    match targets(identifier) {
        Ok(ids) => TableModel {
            writes: filed(ids, value) + rest.writes,
            unrecognized: rest.unrecognized,
            stop: rest.stop,
        },
        Err(_) => TableModel {
            writes: rest.writes,
            unrecognized: seq![identifier] + rest.unrecognized,
            stop: rest.stop,
        },
    }
}

/// What scanning the table from `at` gives, where `sun` is the Sun's value
/// if an earlier line gave it. The scan ends at the first line that gives
/// no value, and where no further line is found.
pub open spec fn scan(comment: Seq<u8>, at: int, sun: Option<Seq<u8>>) -> TableModel
    decreases comment.len() - at,
    via scan_ends
{
    match next_line(comment, at) {
        None => TableModel {
            writes: Seq::empty(),
            unrecognized: Seq::empty(),
            stop: GmStop::TableEnded,
        },
        Some((start, end)) => match read_line(comment.subrange(start, end), sun) {
            Err(stop) => TableModel { writes: Seq::empty(), unrecognized: Seq::empty(), stop },
            Ok((identifier, value)) => line_then(
                identifier,
                value,
                scan(comment, end + 1, sun_after(sun, identifier, value)),
            ),
        },
    }
}

#[via_fn]
proof fn scan_ends(comment: Seq<u8>, at: int, sun: Option<Seq<u8>>) {
    reveal_strlit("\0");
    if at >= 0 {
        first_occurrence_is_first(comment, ascii(LINE_MARKER@), at);
        match first_occurrence(comment, ascii(LINE_MARKER@), at) {
            Some(prefix) => {
                first_occurrence_is_first(
                    comment,
                    ascii(LINE_END@),
                    prefix + ascii(LINE_MARKER@).len(),
                );
            },
            None => {},
        }
    }
}

/// What reading the table of a comment area gives: the scan from behind
/// the phrase that the table follows.
pub open spec fn parse_table(comment: Seq<u8>) -> Result<TableModel, SpkError> {
    match first_occurrence(comment, ascii(TABLE_MARKER@), 0) {
        None => Err(SpkError::MarkerNotFound),
        Some(at) => Ok(scan(comment, at + ascii(TABLE_MARKER@).len(), None)),
    }
}

/// The value that stands last under `naif_id` among the first `upto`
/// filed values.
pub open spec fn written(writes: Seq<WriteModel>, naif_id: i16, upto: int) -> Option<ValueModel>
    decreases upto,
{
    if upto <= 0 {
        None
    } else if writes[upto - 1].naif_id == naif_id {
        Some(writes[upto - 1].value)
    } else {
        written(writes, naif_id, upto - 1)
    }
}

/// The value of a line for one of the first three planets is filed under
/// the planet's barycenter, `p * 100 + 99`; for the first two also under
/// the index itself, and for the third not.
pub proof fn planet_line_is_filed(identifier: Seq<u8>, p: i16, value: ValueModel)
    requires
        i16_of(identifier) == Some(p),
        1 <= p <= 3,
    ensures
        ({
            let table = line_then(
                identifier,
                value,
                TableModel {
                    writes: Seq::empty(),
                    unrecognized: Seq::empty(),
                    stop: GmStop::TableEnded,
                },
            );
            let count = table.writes.len() as int;
            &&& table.unrecognized.len() == 0
            &&& written(table.writes, (p * 100 + 99) as i16, count) == Some(value)
            &&& p < 3 ==> written(table.writes, p, count) == Some(value)
            &&& p == 3 ==> written(table.writes, 3, count) is None
        }),
{
    reveal_strlit("S");
    reveal_strlit("M");
    reveal_strlit("B");
    assert(ascii(SUN@)[0] == 83 && ascii(MOON@)[0] == 77 && ascii(BARYCENTER@)[0] == 66);
    assert(identifier != ascii(SUN@) && identifier != ascii(MOON@) && identifier != ascii(
        BARYCENTER@,
    )) by {
        let signed = identifier.len() > 0 && crate::number::sign(identifier[0]);
        if !signed {
            assert(crate::number::all_digits(identifier));
            assert(crate::number::digit(identifier[0]));
        }
    }
    let ids = targets(identifier)->Ok_0;
    let empty = Seq::<WriteModel>::empty();
    assert(filed(ids, value) + empty =~= filed(ids, value));
    reveal_with_fuel(written, 3);
}

impl GmValue {
    /// A copy of the value.
    pub fn duplicate(&self) -> (copy: GmValue)
        ensures
            copy@ == self@,
    {
        match self {
            GmValue::Direct(text) => GmValue::Direct(copy_text(text)),
            GmValue::SunRatio { sun, divisor } => GmValue::SunRatio {
                sun: copy_text(sun),
                divisor: copy_text(divisor),
            },
        }
    }
}

impl GmTable {
    /// The value that the table holds for `naif_id`: the last one filed
    /// under it, if any was.
    pub fn value_of(&self, naif_id: i16) -> (value: Option<GmValue>)
        ensures
            match value {
                Some(found) => written(self@.writes, naif_id, self@.writes.len() as int) == Some(
                    found@,
                ),
                None => written(self@.writes, naif_id, self@.writes.len() as int) is None,
            },
    {
        let mut upto: usize = self.writes.len();
        while upto > 0
            invariant
                upto <= self.writes@.len(),
                written(self@.writes, naif_id, self@.writes.len() as int) == written(
                    self@.writes,
                    naif_id,
                    upto as int,
                ),
            decreases upto,
        {
            assert(self@.writes[upto - 1] == self.writes@[upto - 1]@);
            if self.writes[upto - 1].naif_id == naif_id {
                return Some(self.writes[upto - 1].value.duplicate());
            }
            upto -= 1;
        }
        None
    }
}

/// Finds the next line of the table at or after `at`: the index of its
/// first byte and the index of the NUL byte that ends it.
pub fn find_line(comment: &[u8], at: usize) -> (r: Option<(usize, usize)>)
    ensures
        match r {
            Some((start, end)) => next_line(comment@, at as int) == Some(
                (start as int, end as int),
            ) && at <= start <= end < comment.len(),
            None => next_line(comment@, at as int) is None,
        },
{
    proof {
        reveal_strlit("GM");
        reveal_strlit("\0");
    }
    let marker = phrase(LINE_MARKER);
    let start = match find(comment, marker, at) {
        None => {
            return None;
        },
        Some(prefix) => prefix + marker.len(),
    };
    match find(comment, phrase(LINE_END), start) {
        None => None,
        Some(end) => Some((start, end)),
    }
}

/// Files `value` under each of `ids`, behind what is filed already.
pub fn file_value(writes: &mut Vec<GmWrite>, ids: &Vec<i16>, value: &GmValue)
    ensures
        write_models(final(writes)@) == write_models(old(writes)@) + filed(ids@, value@),
{
    let ghost before = write_models(writes@);
    let mut k: usize = 0;
    while k < ids.len()
        invariant
            k <= ids@.len(),
            write_models(writes@) == before + filed(ids@, value@).take(k as int),
        decreases ids@.len() - k,
    {
        let write = GmWrite { naif_id: ids[k], value: value.duplicate() };
        let ghost so_far = write_models(writes@);
        writes.push(write);
        assert(write_models(writes@) =~= so_far.push(write@));
        assert(so_far.push(write@) =~= before + filed(ids@, value@).take(k + 1));
        k += 1;
    }
    assert(filed(ids@, value@).take(ids@.len() as int) =~= filed(ids@, value@));
}

/// A scan's result with what was gathered before it put in front.
pub open spec fn gathered_then(
    writes: Seq<WriteModel>,
    unrecognized: Seq<Seq<u8>>,
    rest: TableModel,
) -> TableModel {
    TableModel {
        writes: writes + rest.writes,
        unrecognized: unrecognized + rest.unrecognized,
        stop: rest.stop,
    }
}

/// Takes in the outcome of one line: files the value under the line's
/// identifiers, or notes the identifier where it names no body, and keeps
/// the value where it is the Sun's.
fn take_line(
    writes: &mut Vec<GmWrite>,
    unrecognized: &mut Vec<Vec<u8>>,
    sun: &mut Option<Vec<u8>>,
    identifier: Vec<u8>,
    value: GmValue,
    Ghost(rest): Ghost<TableModel>,
)
    ensures
        known(*final(sun)) == sun_after(known(*old(sun)), identifier@, value@),
        gathered_then(
            write_models(final(writes)@),
            text_models(final(unrecognized)@),
            rest,
        ) == gathered_then(
            write_models(old(writes)@),
            text_models(old(unrecognized)@),
            line_then(identifier@, value@, rest),
        ),
{
    proof {
        reveal_strlit("S");
    }
    let ghost writes_before = write_models(writes@);
    let ghost unrecognized_before = text_models(unrecognized@);
    let of_sun = same_bytes(identifier.as_slice(), phrase(SUN));
    match classify(identifier.as_slice()) {
        Ok(ids) => {
            file_value(writes, &ids, &value);
            assert(writes_before + (filed(ids@, value@) + rest.writes) =~= (writes_before + filed(
                ids@,
                value@,
            )) + rest.writes);
        },
        Err(_) => {
            let ghost noted = identifier@;
            unrecognized.push(identifier);
            assert(text_models(unrecognized@) =~= unrecognized_before.push(noted));
            assert(unrecognized_before + (seq![noted] + rest.unrecognized)
                =~= unrecognized_before.push(noted) + rest.unrecognized);
        },
    }
    match value {
        GmValue::Direct(text) => {
            if of_sun {
                *sun = Some(text);
            }
        },
        GmValue::SunRatio { .. } => {},
    }
}

/// Reads the table of gravitational parameters of a comment area. The
/// scan ends at the first line that gives no value, and where no further
/// line is found; the table says which. A line whose identifier names no
/// body is passed over and its identifier noted.
///
/// Fails with `MarkerNotFound` where the phrase that the table follows is
/// absent.
pub fn gm_table(comment: &[u8]) -> (r: Result<GmTable, SpkError>)
    ensures
        match r {
            Ok(table) => parse_table(comment@) == Ok::<TableModel, SpkError>(table@),
            Err(e) => parse_table(comment@) == Err::<TableModel, SpkError>(e),
        },
{
    proof {
        reveal_strlit("Sun/GM(I)");
    }
    let marker = phrase(TABLE_MARKER);
    let first: usize = match find(comment, marker, 0) {
        None => {
            return Err(SpkError::MarkerNotFound);
        },
        Some(at) => at + marker.len(),
    };
    let mut at: usize = first;
    let mut writes: Vec<GmWrite> = Vec::new();
    let mut unrecognized: Vec<Vec<u8>> = Vec::new();
    let mut sun: Option<Vec<u8>> = None;
    let stop: GmStop;
    proof {
        let all = scan(comment@, first as int, None);
        assert(write_models(writes@) + all.writes =~= all.writes);
        assert(text_models(unrecognized@) + all.unrecognized =~= all.unrecognized);
    }
    loop
        invariant
            at <= comment@.len(),
            scan(comment@, first as int, None) == gathered_then(
                write_models(writes@),
                text_models(unrecognized@),
                scan(comment@, at as int, known(sun)),
            ),
        ensures
            scan(comment@, first as int, None) == gathered_then(
                write_models(writes@),
                text_models(unrecognized@),
                TableModel { writes: Seq::empty(), unrecognized: Seq::empty(), stop },
            ),
        decreases comment@.len() - at,
    {
        let (start, end) = match find_line(comment, at) {
            None => {
                stop = GmStop::TableEnded;
                break ;
            },
            Some(line) => line,
        };
        let (identifier, value) = match read_gm_line(&comment[start..end], &sun) {
            Err(reason) => {
                stop = reason;
                break ;
            },
            Ok(line) => line,
        };
        let ghost rest = scan(
            comment@,
            end + 1,
            sun_after(known(sun), identifier@, value@),
        );
        take_line(&mut writes, &mut unrecognized, &mut sun, identifier, value, Ghost(rest));
        at = end + 1;
    }
    assert(write_models(writes@) + Seq::<WriteModel>::empty() =~= write_models(writes@));
    assert(text_models(unrecognized@) + Seq::<Seq<u8>>::empty() =~= text_models(unrecognized@));
    Ok(GmTable { writes, unrecognized, stop })
}

} // verus!
