use daf_spk::catalog::{body_catalog, read_entry, record_entry, BodyEntry};
use daf_spk::comment::{
    extract_catalog, finish_catalog, kernel_identity, validity_span, Body, KernelIdentity,
    ValiditySpan,
};
use daf_spk::error::SpkError;
use daf_spk::gravity::{
    classify, file_value, find_line, gm_table, read_gm_line, GmStop, GmTable, GmValue,
    GmWrite,
};

fn entry(name: &str, naif_id: i16) -> BodyEntry {
    BodyEntry { name: name.as_bytes().to_vec(), naif_id }
}

fn direct(text: &str) -> GmValue {
    GmValue::Direct(text.as_bytes().to_vec())
}

fn ratio(sun: &str, divisor: &str) -> GmValue {
    GmValue::SunRatio { sun: sun.as_bytes().to_vec(), divisor: divisor.as_bytes().to_vec() }
}

fn write(naif_id: i16, value: GmValue) -> GmWrite {
    GmWrite { naif_id, value }
}

/// The double that a value of the table stands for.
fn number(value: &GmValue) -> f64 {
    let parse = |text: &Vec<u8>| String::from_utf8(text.clone()).unwrap().parse::<f64>().unwrap();
    match value {
        GmValue::Direct(text) => parse(text),
        GmValue::SunRatio { sun, divisor } => parse(sun) / parse(divisor),
    }
}

const BODIES: &str = "Bodies included:\0\0   Mercury Barycenter (1)   Venus Barycenter ( 2 )\0   \
Earth Barycenter (3)  Mercury (199)\0  Venus (299) Earth (399)\0 Moon (301)  Sun (10)\0\0";

const TABLE: &str = "Sun/GM(I)   table\0\
GMS  AU**3/DAY**2  0.2959D-03  1.32712440018D+11\0\
GM1  x  y  2.2032D+04\0\
GM2  x  y  3.24858592D+05\0\
GMB  x  328900.56\0\
GM3  x  y  3.98600435436D+05\0\
GMM  x  81.30056\0\
GM4  x  y  4.2828375214D+04\0\
GMX  x  y  1.0\0\
GM9  x  y  9.77D+02\0\
end of table\0";

fn comment() -> Vec<u8> {
    let mut text = String::new();
    text.push_str("JPL planetary and lunar ephemeris DE430\0\0Integrated 29 March 2013 \0\0");
    text.push_str("Time span covered by ephemeris:\0\0  JED= 2287184.5  to  JED= 2688976.5 \0\0");
    text.push_str(BODIES);
    text.push_str(TABLE);
    text.into_bytes()
}

#[test]
fn identity_is_name_and_date() {
    assert_eq!(
        kernel_identity(&comment()),
        Ok(KernelIdentity { name: b"DE430".to_vec(), date: b"29 March 2013".to_vec() })
    );
}

#[test]
fn identity_without_its_markers() {
    assert_eq!(kernel_identity(b"nothing here\0"), Err(SpkError::MarkerNotFound));
    assert_eq!(kernel_identity(b"ephemeris DE430 no date\0"), Err(SpkError::MarkerNotFound));
    assert_eq!(kernel_identity(b"ephemeris DE430 Integrated today"), Err(SpkError::MarkerNotFound));
    assert_eq!(kernel_identity(b"Integrated today\0 ephemeris DE430"), Err(SpkError::MarkerNotFound));
    assert_eq!(kernel_identity(b"ephemeris DE4"), Err(SpkError::Truncated));
    assert_eq!(
        kernel_identity(b"ephemeris DE430Integrated \0"),
        Ok(KernelIdentity { name: b"DE430".to_vec(), date: Vec::new() })
    );
}

#[test]
fn span_is_start_and_end() {
    assert_eq!(
        validity_span(&comment()),
        Ok(Some(ValiditySpan { start: b"JED= 2287184.5".to_vec(), end: b"JED= 2688976.5".to_vec() }))
    );
}

#[test]
fn span_is_optional() {
    assert_eq!(validity_span(b"no such phrase\0"), Ok(None));
    assert_eq!(validity_span(b""), Ok(None));
}

#[test]
fn span_splits_at_the_separator_as_a_word() {
    assert_eq!(
        validity_span(b"span covered by ephemeris: 1 October 1599 to 2 toto 2200\0"),
        Ok(Some(ValiditySpan { start: b"1 October 1599".to_vec(), end: b"2 toto 2200".to_vec() }))
    );
    assert_eq!(
        validity_span(b"span covered by ephemeris:to\0"),
        Ok(Some(ValiditySpan { start: Vec::new(), end: Vec::new() }))
    );
}

#[test]
fn span_without_separator_or_end() {
    assert_eq!(validity_span(b"span covered by ephemeris: 1 October until 2\0"), Err(SpkError::MarkerNotFound));
    assert_eq!(validity_span(b"span covered by ephemeris: 1 to 2"), Err(SpkError::MarkerNotFound));
    assert_eq!(validity_span(b"span covered by ephemeris:\0\0"), Err(SpkError::MarkerNotFound));
}

#[test]
fn bodies_are_read_in_order() {
    assert_eq!(
        body_catalog(&comment()),
        Ok(vec![
            entry("Mercury Barycenter", 1),
            entry("Venus Barycenter", 2),
            entry("Earth Barycenter", 3),
            entry("Mercury", 199),
            entry("Venus", 299),
            entry("Earth", 399),
            entry("Moon", 301),
            entry("Sun", 10),
        ])
    );
}

#[test]
fn bodies_have_distinct_identifiers() {
    let text = b"Bodies included:\0\0 Venus (2) Earth (3) Venus Barycenter (2)\0 Probe (-31) Earth again ( 3 )\0\0";
    let catalog = body_catalog(text).unwrap();
    assert_eq!(catalog, vec![entry("Venus Barycenter", 2), entry("Earth again", 3), entry("Probe", -31)]);
    for i in 0..catalog.len() {
        for j in i + 1..catalog.len() {
            assert_ne!(catalog[i].naif_id, catalog[j].naif_id);
        }
    }
    let all = extract_catalog(&comment()).unwrap();
    for i in 0..all.bodies.len() {
        for j in i + 1..all.bodies.len() {
            assert_ne!(all.bodies[i].naif_id, all.bodies[j].naif_id);
        }
    }
}

#[test]
fn bodies_may_be_none() {
    assert_eq!(body_catalog(b"Bodies included:\0\0\0\0"), Ok(Vec::new()));
    assert_eq!(body_catalog(b"Bodies included:\0\0  no brackets here \0\0 Sun (10)"), Ok(Vec::new()));
}

#[test]
fn bodies_without_markers() {
    assert_eq!(body_catalog(b"Sun (10)\0\0"), Err(SpkError::MarkerNotFound));
    assert_eq!(body_catalog(b"Bodies included:\0 Sun (10)\0\0"), Err(SpkError::MarkerNotFound));
    assert_eq!(body_catalog(b"Bodies included:\0\0 Sun (10)\0"), Err(SpkError::MarkerNotFound));
    assert_eq!(body_catalog(b"Bodies included:\0\0 Sun (10 \0\0"), Err(SpkError::MarkerNotFound));
}

#[test]
fn bodies_with_an_identifier_that_is_no_number() {
    assert_eq!(body_catalog(b"Bodies included:\0\0 Sun (ten)\0\0"), Err(SpkError::UnparsableNumeric));
    assert_eq!(body_catalog(b"Bodies included:\0\0 Sun ()\0\0"), Err(SpkError::UnparsableNumeric));
    assert_eq!(body_catalog(b"Bodies included:\0\0 Rock (40000)\0\0"), Err(SpkError::UnparsableNumeric));
}

#[test]
fn entry_is_read_from_a_place() {
    let region = b"  Moon (301) Sun ( 10 ) tail";
    assert_eq!(read_entry(region, 0), Ok(Some((entry("Moon", 301), 12))));
    assert_eq!(read_entry(region, 12), Ok(Some((entry("Sun", 10), 23))));
    assert_eq!(read_entry(region, 23), Ok(None));
    assert_eq!(read_entry(region, 1000), Ok(None));
    assert_eq!(read_entry(b"Sun (10", 0), Err(SpkError::MarkerNotFound));
    assert_eq!(read_entry(b"Sun (1 0)", 0), Err(SpkError::UnparsableNumeric));
}

#[test]
fn recording_replaces_an_entry_with_the_same_identifier() {
    let mut catalog = vec![entry("a", 1), entry("b", 2)];
    record_entry(&mut catalog, entry("c", 3));
    assert_eq!(catalog, vec![entry("a", 1), entry("b", 2), entry("c", 3)]);
    record_entry(&mut catalog, entry("B", 2));
    assert_eq!(catalog, vec![entry("a", 1), entry("B", 2), entry("c", 3)]);
}

#[test]
fn classify_maps_identifiers_to_catalog_ids() {
    assert_eq!(classify(b"1"), Ok(vec![199, 1]));
    assert_eq!(classify(b"2"), Ok(vec![299, 2]));
    assert_eq!(classify(b"3"), Ok(vec![399]));
    assert_eq!(classify(b"4"), Ok(vec![4]));
    assert_eq!(classify(b"9"), Ok(vec![9]));
    assert_eq!(classify(b"S"), Ok(vec![10]));
    assert_eq!(classify(b"M"), Ok(vec![301]));
    assert_eq!(classify(b"B"), Ok(vec![3]));
    for other in ["X", "s", "", "0", "-1", "SM", "1.0", "GM"] {
        assert_eq!(classify(other.as_bytes()), Err(SpkError::UnrecognizedBodyIdentifier), "{}", other);
    }
}

#[test]
fn gm_of_planet_three_goes_to_399_only() {
    let text = b"Sun/GM(I)\0GM3 GM GM 1.32712440018D+11\0";
    let table = gm_table(text).unwrap();
    assert_eq!(table.writes, vec![write(399, direct("1.32712440018E+11"))]);
    assert_eq!(number(&table.writes[0].value), 1.32712440018e11);
    assert_eq!(table.value_of(3), None);
    assert_eq!(table.value_of(399).map(|v| number(&v)), Some(1.32712440018e11));
    assert_eq!(table.stop, GmStop::TableEnded);
}

#[test]
fn gm_of_planets_one_and_two_goes_to_both_ids() {
    let table = gm_table(b"Sun/GM(I)\0GM1 a b 2.2032D+04\0GM2 a b 3.24858592D+05\0").unwrap();
    assert_eq!(
        table.writes,
        vec![
            write(199, direct("2.2032E+04")),
            write(1, direct("2.2032E+04")),
            write(299, direct("3.24858592E+05")),
            write(2, direct("3.24858592E+05")),
        ]
    );
    assert_eq!(table.value_of(199), table.value_of(1));
    assert_eq!(table.value_of(299), table.value_of(2));
    assert_eq!(table.value_of(2).map(|v| number(&v)), Some(324858.592));
}

#[test]
fn gm_of_the_moon_is_derived_from_the_sun() {
    let table = gm_table(b"Sun/GM(I)\0GMS a b 1.32712440018D+11\0GMM c 81.30056\0").unwrap();
    assert_eq!(table.value_of(301), Some(ratio("1.32712440018E+11", "81.30056")));
    let found = number(&table.value_of(301).unwrap());
    let expected = 1.32712440018e11 / 81.30056;
    assert!(((found - expected) / expected).abs() <= 1e-9);
    assert_eq!(table.value_of(10).map(|v| number(&v)), Some(1.32712440018e11));
}

#[test]
fn gm_table_of_the_whole_comment() {
    let table = gm_table(&comment()).unwrap();
    let sun = "1.32712440018E+11";
    assert_eq!(
        table,
        GmTable {
            writes: vec![
                write(10, direct(sun)),
                write(199, direct("2.2032E+04")),
                write(1, direct("2.2032E+04")),
                write(299, direct("3.24858592E+05")),
                write(2, direct("3.24858592E+05")),
                write(3, ratio(sun, "328900.56")),
                write(399, direct("3.98600435436E+05")),
                write(301, ratio(sun, "81.30056")),
                write(4, direct("4.2828375214E+04")),
                write(9, direct("9.77E+02")),
            ],
            unrecognized: vec![b"X".to_vec()],
            stop: GmStop::TableEnded,
        }
    );
}

#[test]
fn gm_table_says_why_it_stopped() {
    let stop = |text: &[u8]| gm_table(text).map(|table| (table.writes.len(), table.stop));
    assert_eq!(stop(b"Sun/GM(I)"), Ok((0, GmStop::TableEnded)));
    assert_eq!(stop(b"Sun/GM(I) GM1 a b 1.0"), Ok((0, GmStop::TableEnded)));
    assert_eq!(stop(b"Sun/GM(I)\0GM4 a b 1.0\0 GM5 a b\0GM6 a b 2.0\0"), Ok((1, GmStop::ValueMissing)));
    assert_eq!(stop(b"Sun/GM(I)\0GM\0GM6 a b 2.0\0"), Ok((0, GmStop::ValueMissing)));
    assert_eq!(stop(b"Sun/GM(I)\0GM4 a b 1.0\0GM5 a b c\0GM6 a b 2.0\0"), Ok((1, GmStop::ValueUnparsable)));
    assert_eq!(stop(b"Sun/GM(I)\0GMM a 81.3\0GMS a b 2.0\0"), Ok((0, GmStop::SunUnknown)));
    assert_eq!(stop(b"Sun/GM(I)\0GMS a b 2.0\0GMB a 3\0"), Ok((2, GmStop::TableEnded)));
    assert_eq!(stop(b"no table"), Err(SpkError::MarkerNotFound));
}

#[test]
fn gm_table_starts_behind_its_marker() {
    let table = gm_table(b"GM4 a b 1.0\0Sun/GM(I)\0GM5 a b 2.0\0").unwrap();
    assert_eq!(table.writes, vec![write(5, direct("2.0"))]);
}

#[test]
fn gm_table_keeps_the_last_value_of_an_identifier() {
    let table = gm_table(b"Sun/GM(I)\0GM5 a b 1.0\0GM5 a b 2.0\0").unwrap();
    assert_eq!(table.writes.len(), 2);
    assert_eq!(table.value_of(5), Some(direct("2.0")));
    assert_eq!(table.value_of(6), None);
}

#[test]
fn gm_line_is_read_by_its_words() {
    assert_eq!(read_gm_line(b"3 GM GM 1.5D+3", &None), Ok((b"3".to_vec(), direct("1.5E+3"))));
    assert_eq!(read_gm_line(b" S  a  b  7 trailing words", &None), Ok((b"S".to_vec(), direct("7"))));
    assert_eq!(
        read_gm_line(b"M a 81.3 ignored", &Some(b"7".to_vec())),
        Ok((b"M".to_vec(), ratio("7", "81.3")))
    );
    assert_eq!(read_gm_line(b"B a 0", &Some(b"7".to_vec())), Ok((b"B".to_vec(), ratio("7", "0"))));
    assert_eq!(read_gm_line(b"M a 81.3", &None), Err(GmStop::SunUnknown));
    assert_eq!(read_gm_line(b"M a", &None), Err(GmStop::ValueMissing));
    assert_eq!(read_gm_line(b"3 a b", &None), Err(GmStop::ValueMissing));
    assert_eq!(read_gm_line(b"", &None), Err(GmStop::ValueMissing));
    assert_eq!(read_gm_line(b"3 a b c", &None), Err(GmStop::ValueUnparsable));
    assert_eq!(read_gm_line(b"M a b 1.0", &Some(b"7".to_vec())), Err(GmStop::ValueUnparsable));
    assert_eq!(read_gm_line(b"X a b 1.0", &None), Ok((b"X".to_vec(), direct("1.0"))));
}

#[test]
fn gm_lines_are_found_by_prefix_and_end() {
    let text = b"..GMabc\0..GM\0GMx";
    assert_eq!(find_line(text, 0), Some((4, 7)));
    assert_eq!(find_line(text, 3), Some((12, 12)));
    assert_eq!(find_line(text, 13), None);
    assert_eq!(find_line(text, 100), None);
}

#[test]
fn values_are_filed_and_copied() {
    let mut writes = vec![write(1, direct("1"))];
    file_value(&mut writes, &vec![299, 2], &direct("3"));
    assert_eq!(writes, vec![write(1, direct("1")), write(299, direct("3")), write(2, direct("3"))]);
    file_value(&mut writes, &Vec::new(), &direct("4"));
    assert_eq!(writes.len(), 3);
    assert_eq!(ratio("1", "2").duplicate(), ratio("1", "2"));
    assert_eq!(direct("1").duplicate(), direct("1"));
}

#[test]
fn catalog_joins_bodies_and_values() {
    let table = gm_table(b"Sun/GM(I)\0GM2 a b 3.0\0GM7 a b 7.0\0").unwrap();
    let bodies = finish_catalog(vec![entry("Venus", 299), entry("Mars", 499), entry("VB", 2)], &table);
    assert_eq!(
        bodies,
        vec![
            Body { name: b"Venus".to_vec(), naif_id: 299, gravitational_parameter: Some(direct("3.0")) },
            Body { name: b"Mars".to_vec(), naif_id: 499, gravitational_parameter: None },
            Body { name: b"VB".to_vec(), naif_id: 2, gravitational_parameter: Some(direct("3.0")) },
        ]
    );
}

#[test]
fn catalog_of_the_whole_comment() {
    let catalog = extract_catalog(&comment()).unwrap();
    assert_eq!(catalog.identity.name, b"DE430".to_vec());
    assert_eq!(catalog.span.as_ref().unwrap().end, b"JED= 2688976.5".to_vec());
    assert_eq!(catalog.unrecognized, vec![b"X".to_vec()]);
    assert_eq!(catalog.stop, GmStop::TableEnded);
    let gm = |id: i16| {
        let body = catalog.bodies.iter().find(|body| body.naif_id == id).unwrap();
        body.gravitational_parameter.as_ref().map(number)
    };
    assert_eq!(catalog.bodies.len(), 8);
    assert_eq!(gm(10), Some(1.32712440018e11));
    assert_eq!(gm(1), Some(22032.0));
    assert_eq!(gm(199), Some(22032.0));
    assert_eq!(gm(399), Some(398600.435436));
    assert_eq!(gm(3), Some(1.32712440018e11 / 328900.56));
    assert_eq!(gm(301), Some(1.32712440018e11 / 81.30056));
    assert_eq!(catalog.bodies[6].name, b"Moon".to_vec());
    assert_eq!(catalog.body(301), Some(&catalog.bodies[6]));
    assert_eq!(catalog.body(10).map(|body| body.name.clone()), Some(b"Sun".to_vec()));
    assert_eq!(catalog.body(499), None);
}

#[test]
fn catalog_fails_as_its_first_failing_part() {
    let whole = String::from_utf8(comment()).unwrap();
    assert_eq!(extract_catalog(whole.replace("Integrated", "").as_bytes()), Err(SpkError::MarkerNotFound));
    assert_eq!(extract_catalog(whole.replace(" to ", " - ").as_bytes()), Err(SpkError::MarkerNotFound));
    assert_eq!(extract_catalog(whole.replace("(301)", "(3O1)").as_bytes()), Err(SpkError::UnparsableNumeric));
    assert_eq!(extract_catalog(whole.replace("Sun/GM(I)", "").as_bytes()), Err(SpkError::MarkerNotFound));
    let spanless = whole.replace("span covered", "span");
    assert_eq!(extract_catalog(spanless.as_bytes()).map(|catalog| catalog.span), Ok(None));
}
