use std::str::FromStr;

use citationberg::date::InvalidNumber;
use citationberg::{DateValue, FixedDate, FixedDateRange, NumberOrString, VecDate, VecDateRange};

fn date(year: i16, month: Option<u8>, day: Option<u8>) -> FixedDate {
    FixedDate { year, month, day }
}

#[test]
fn test_serialize_date_literal() {
    // The range that the original serialization test builds.
    let r = FixedDateRange::from_str("2021-09-10/2022-01-01").unwrap();
    assert_eq!(r.start, date(2021, Some(8), Some(9)));
    assert_eq!(r.end, Some(date(2022, Some(0), Some(0))));
    let parts = VecDateRange::from_fixed_range(r);
    assert_eq!(parts.0, vec![VecDate(vec![2021, 8, 9]), VecDate(vec![2022, 0, 0])]);
}

#[test]
fn parse_year_only() {
    assert_eq!(FixedDate::parse("2021"), Ok(date(2021, None, None)));
    assert_eq!(FixedDate::from_str("0"), Ok(date(0, None, None)));
    assert_eq!(FixedDate::parse("32767"), Ok(date(32767, None, None)));
}

#[test]
fn parse_year_month_day() {
    assert_eq!(FixedDate::parse("2021-09"), Ok(date(2021, Some(8), None)));
    assert_eq!(FixedDate::parse("2021-9-1"), Ok(date(2021, Some(8), Some(0))));
    assert_eq!(FixedDate::parse("1999-12-31"), Ok(date(1999, Some(11), Some(30))));
    assert_eq!(FixedDate::parse("1999-01-32"), Ok(date(1999, Some(0), Some(31))));
}

#[test]
fn parse_ignores_what_follows() {
    assert_eq!(FixedDate::parse("2021x"), Ok(date(2021, None, None)));
    assert_eq!(FixedDate::parse("2021-03 spring"), Ok(date(2021, Some(2), None)));
    assert_eq!(FixedDate::parse("2021/2022"), Ok(date(2021, None, None)));
}

#[test]
fn parse_rejects_bad_dates() {
    assert_eq!(FixedDate::parse(""), Err(()));
    assert_eq!(FixedDate::parse("abc"), Err(()));
    assert_eq!(FixedDate::parse("-2021"), Err(()));
    assert_eq!(FixedDate::parse("40000"), Err(()));
    assert_eq!(FixedDate::parse("2021-"), Err(()));
    assert_eq!(FixedDate::parse("2021-13"), Err(()));
    assert_eq!(FixedDate::parse("2021-00"), Err(()));
    assert_eq!(FixedDate::parse("2021-256"), Err(()));
    assert_eq!(FixedDate::parse("2021-05-"), Err(()));
    assert_eq!(FixedDate::parse("2021-05-0"), Err(()));
    assert_eq!(FixedDate::parse("2021-05-33"), Err(()));
}

#[test]
fn parse_handles_non_ascii_text() {
    assert_eq!(FixedDate::parse("2021é"), Ok(date(2021, None, None)));
    assert_eq!(FixedDate::parse("é2021"), Err(()));
    assert_eq!(FixedDateRange::parse("2021-02/ü"), Err(()));
}

#[test]
fn parse_ranges() {
    assert_eq!(
        FixedDateRange::parse("2020/2021-02"),
        Ok(FixedDateRange { start: date(2020, None, None), end: Some(date(2021, Some(1), None)) })
    );
    assert_eq!(
        FixedDateRange::parse("2020"),
        Ok(FixedDateRange { start: date(2020, None, None), end: None })
    );
    assert_eq!(
        FixedDateRange::parse("2020-01-02x2021"),
        Ok(FixedDateRange { start: date(2020, Some(0), Some(1)), end: None })
    );
    assert_eq!(FixedDateRange::parse("2020/"), Err(()));
    assert_eq!(FixedDateRange::parse("2020/x"), Err(()));
    assert_eq!(FixedDateRange::parse("x/2020"), Err(()));
    assert_eq!(FixedDateRange::from_str("2020/2021-13"), Err(()));
}

#[test]
fn range_starts_with_its_date() {
    for s in ["2020/2021", "1999-12-31/2000", "2020", "2020-05x", "2020/x"] {
        if let Ok(r) = FixedDateRange::parse(s) {
            assert_eq!(FixedDate::parse(s), Ok(r.start));
        }
    }
    assert_eq!(FixedDate::parse("2020/x"), Ok(date(2020, None, None)));
    assert_eq!(FixedDateRange::parse("2020/x"), Err(()));
}

#[test]
fn fixed_date_to_parts() {
    assert_eq!(VecDate::from_fixed(date(2021, None, None)).0, vec![2021]);
    assert_eq!(VecDate::from_fixed(date(2021, Some(4), None)).0, vec![2021, 4]);
    assert_eq!(VecDate::from_fixed(date(2021, Some(4), Some(7))).0, vec![2021, 4, 7]);
    // A day without a month is dropped.
    assert_eq!(VecDate::from_fixed(date(2021, None, Some(7))).0, vec![2021]);
}

#[test]
fn parts_to_fixed_date() {
    assert_eq!(FixedDate::from_vec_date(VecDate(vec![2021])), date(2021, None, None));
    assert_eq!(FixedDate::from_vec_date(VecDate(vec![2021, 5])), date(2021, Some(4), None));
    assert_eq!(FixedDate::from_vec_date(VecDate(vec![2021, 5, 1, 9])), date(2021, Some(4), Some(0)));
    assert_eq!(FixedDate::from_vec_date(VecDate(vec![2021, 0])), date(2021, Some(255), None));
    assert_eq!(FixedDate::from_vec_date(VecDate(vec![2021, 257])), date(2021, Some(0), None));
    assert_eq!(FixedDate::from_vec_date(VecDate(vec![2021, -32768])), date(2021, Some(255), None));
}

#[test]
fn parts_to_fixed_range() {
    assert_eq!(FixedDateRange::try_from_vec_range(VecDateRange(vec![])), Err(()));
    assert_eq!(
        FixedDateRange::try_from_vec_range(VecDateRange(vec![VecDate(vec![2000, 2])])),
        Ok(FixedDateRange { start: date(2000, Some(1), None), end: None })
    );
    assert_eq!(
        FixedDateRange::try_from_vec_range(VecDateRange(vec![
            VecDate(vec![2000]),
            VecDate(vec![2001, 12, 31])
        ])),
        Ok(FixedDateRange { start: date(2000, None, None), end: Some(date(2001, Some(11), Some(30))) })
    );
    assert_eq!(
        FixedDateRange::try_from_vec_range(VecDateRange(vec![
            VecDate(vec![2000]),
            VecDate(vec![2001]),
            VecDate(vec![2002])
        ])),
        Err(())
    );
}

#[test]
fn fixed_range_round_trip() {
    let plain = FixedDateRange { start: date(1990, None, None), end: Some(date(1991, None, None)) };
    let back = FixedDateRange::try_from_vec_range(VecDateRange::from_fixed_range(plain));
    assert_eq!(back, Ok(plain));
    // Stored months and days come back counted down by one.
    let dated = FixedDateRange { start: date(1990, Some(3), Some(0)), end: None };
    let back = FixedDateRange::try_from_vec_range(VecDateRange::from_fixed_range(dated));
    assert_eq!(back, Ok(FixedDateRange { start: date(1990, Some(2), Some(255)), end: None }));
}

#[test]
fn date_value_conversions() {
    let raw = FixedDateRange { start: date(2010, Some(1), None), end: None };
    let v = DateValue::Raw { raw, literal: None, season: Some("winter".to_string()) };
    assert_eq!(FixedDateRange::try_from_date_value(v.clone()), Ok(raw));
    assert_eq!(VecDateRange::from_date_value(v).0, vec![VecDate(vec![2010, 1])]);

    let parts = VecDateRange(vec![VecDate(vec![2010, 2])]);
    let v = DateValue::DateParts { date_parts: parts.clone(), literal: None, season: None };
    assert_eq!(
        FixedDateRange::try_from_date_value(v.clone()),
        Ok(FixedDateRange { start: date(2010, Some(1), None), end: None })
    );
    assert_eq!(VecDateRange::from_date_value(v), parts);
}

#[test]
fn date_value_constructors() {
    let raw = FixedDateRange { start: date(2010, None, None), end: None };
    let v = DateValue::from_raw_repr(raw, Some("c. 2010".to_string()), Some(NumberOrString::Number(3)));
    assert_eq!(
        v,
        DateValue::Raw { raw, literal: Some("c. 2010".to_string()), season: Some("3".to_string()) }
    );
    let parts = VecDateRange(vec![VecDate(vec![2010])]);
    let v = DateValue::from_parts_repr(
        parts.clone(),
        None,
        Some(NumberOrString::String("Spring".to_string())),
    );
    assert_eq!(
        v,
        DateValue::DateParts { date_parts: parts, literal: None, season: Some("Spring".to_string()) }
    );
    let v = DateValue::from_parts_repr(VecDateRange(vec![]), None, None);
    assert_eq!(v, DateValue::DateParts { date_parts: VecDateRange(vec![]), literal: None, season: None });
}

#[test]
fn date_parts_from_numbers_and_strings() {
    let parts = vec![
        NumberOrString::Number(2020),
        NumberOrString::String(String::new()),
        NumberOrString::String("05".to_string()),
        NumberOrString::String("-3".to_string()),
    ];
    assert_eq!(VecDate::from_parts(parts), Ok(VecDate(vec![2020, 5, -3])));
    assert_eq!(VecDate::from_parts(vec![]), Ok(VecDate(vec![])));
    assert_eq!(
        VecDate::from_parts(vec![NumberOrString::String(String::new())]),
        Ok(VecDate(vec![]))
    );
}

#[test]
fn date_parts_report_first_bad_string() {
    let parts = vec![
        NumberOrString::Number(2020),
        NumberOrString::String("May".to_string()),
        NumberOrString::String("99999".to_string()),
    ];
    assert_eq!(VecDate::from_parts(parts), Err(InvalidNumber { text: "May".to_string() }));
    let parts = vec![NumberOrString::String("40000".to_string())];
    assert_eq!(VecDate::from_parts(parts), Err(InvalidNumber { text: "40000".to_string() }));
}

#[test]
fn date_part_reads_same_as_its_text() {
    for n in [0i16, 7, -1, 2024, i16::MAX, i16::MIN] {
        let as_number = VecDate::from_parts(vec![NumberOrString::Number(n)]);
        let text = NumberOrString::Number(n).into_string();
        let as_text = VecDate::from_parts(vec![NumberOrString::String(text)]);
        assert_eq!(as_number, as_text);
        assert_eq!(as_text, Ok(VecDate(vec![n])));
    }
}
