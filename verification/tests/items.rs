use citationberg::text::{i64_to_decimal, parse_i16, parse_u8, u64_to_decimal};
use citationberg::{
    CitationItem, CitationProperties, Item, Kind, LiteralName, NameItem, NameValue,
    NumberOrString, Value,
};

fn item(id: Value) -> Item {
    Item {
        id,
        citation_key: None,
        categories: None,
        language: None,
        chapter_number: None,
        abstract_: None,
        accessed: None,
        available_date: None,
        event_date: None,
        issued: None,
        original_date: None,
        submitted: None,
        author: None,
        chair: None,
        collection_editor: None,
        compiler: None,
        composer: None,
        container_author: None,
        contributor: None,
        curator: None,
        director: None,
        editor: None,
        editorial_director: None,
        editorial_translator: None,
        executive_producer: None,
        guest: None,
        host: None,
        interviewer: None,
        illustrator: None,
        narrator: None,
        organizer: None,
        original_author: None,
        performer: None,
        producer: None,
        recipient: None,
        reviewed_author: None,
        script_writer: None,
        series_creator: None,
        translator: None,
        type_: Kind::Book,
        note: None,
    }
}

fn doe() -> NameValue {
    NameValue::Item(NameItem {
        family: "Doe".to_string(),
        given: Some("John".to_string()),
        non_dropping_particle: None,
        dropping_particle: None,
        suffix: None,
    })
}

#[test]
fn value_to_str() {
    assert_eq!(Value::String("The Title".to_string()).to_str(), Some("The Title".to_string()));
    assert_eq!(Value::Number(42).to_str(), Some("42".to_string()));
    assert_eq!(Value::Number(-7).to_str(), Some("-7".to_string()));
    assert_eq!(Value::Number(i64::MIN).to_str(), Some(i64::MIN.to_string()));
    assert_eq!(Value::Names(vec![doe()]).to_str(), None);
}

#[test]
fn value_has_html() {
    assert!(Value::String("<i>Title</i>".to_string()).has_html());
    assert!(!Value::String("Title".to_string()).has_html());
    assert!(!Value::Number(3).has_html());
    assert!(!Value::Names(vec![NameValue::Literal(LiteralName { literal: "<b>".to_string() })])
        .has_html());
}

#[test]
fn item_id() {
    assert_eq!(item(Value::String("doe2021".to_string())).id(), "doe2021");
    assert_eq!(item(Value::Number(17)).id(), "17");
}

#[test]
fn item_type_and_hack() {
    let mut it = item(Value::Number(1));
    assert_eq!(it.type_(), Kind::Book);
    assert!(!it.may_have_hack());
    it.note = Some(String::new());
    assert!(it.may_have_hack());
}

#[test]
fn item_has_html() {
    let mut it = item(Value::String("plain".to_string()));
    it.author = Some(vec![doe()]);
    assert!(!it.has_html());
    it.categories = Some(vec!["a".to_string(), "b<c".to_string()]);
    assert!(it.has_html());

    let mut it = item(Value::String("<id>".to_string()));
    assert!(it.has_html());
    it.id = Value::Number(1);
    assert!(!it.has_html());
    it.chapter_number = Some(NumberOrString::String("<3>".to_string()));
    assert!(it.has_html());
    it.chapter_number = Some(NumberOrString::Number(3));
    it.abstract_ = Some("x < y".to_string());
    assert!(it.has_html());
    it.abstract_ = None;
    it.note = Some("<sup>".to_string());
    assert!(it.has_html());
    it.note = None;
    it.language = Some("<en>".to_string());
    assert!(it.has_html());
    it.language = None;
    it.citation_key = Some("<k>".to_string());
    assert!(it.has_html());
}

#[test]
fn number_or_string_into_string() {
    assert_eq!(NumberOrString::Number(-12).into_string(), "-12");
    assert_eq!(NumberOrString::Number(i16::MIN).into_string(), "-32768");
    assert_eq!(NumberOrString::String("xii".to_string()).into_string(), "xii");
}

#[test]
fn citation_item_from_parts() {
    let it = CitationItem::from_parts(
        NumberOrString::Number(12),
        Some(NumberOrString::Number(34)),
        Some("page".to_string()),
        true,
        None,
        Some("!".to_string()),
        Some(2),
        Some(false),
    );
    assert_eq!(it.id, "12");
    assert_eq!(it.locator, Some("34".to_string()));
    assert_eq!(it.label, Some("page".to_string()));
    assert!(it.suppress_author);
    assert_eq!(it.prefix, None);
    assert_eq!(it.suffix, Some("!".to_string()));
    assert_eq!(it.position, Some(2));
    assert_eq!(it.near_note, Some(false));
    let it = CitationItem::from_parts(
        NumberOrString::String("key".to_string()),
        None,
        None,
        false,
        None,
        None,
        None,
        None,
    );
    assert_eq!(it.id, "key");
    assert_eq!(it.locator, None);
}

#[test]
fn citation_properties_note_index() {
    assert_eq!(CitationProperties::new(Some(4)).note_index(), Some(4));
    assert_eq!(CitationProperties::new(None).note_index(), None);
}

#[test]
fn numerals_parse_like_std() {
    for s in ["0", "+5", "-0", "32767", "-32768", "32768", "-32769", "", "-", "+", "1a", " 1", "007", "99999999999"] {
        assert_eq!(parse_i16(s), s.parse::<i16>().ok(), "i16 {s:?}");
    }
    for s in ["0", "255", "256", "+1", "-1", "", "+", "08", "1.0"] {
        assert_eq!(parse_u8(s), s.parse::<u8>().ok(), "u8 {s:?}");
    }
}

#[test]
fn numerals_format_like_std() {
    for n in [0i64, 9, 10, -10, 123456789, i64::MAX, i64::MIN] {
        assert_eq!(i64_to_decimal(n), n.to_string());
    }
    for n in [0u64, 1, 99, 100, u64::MAX] {
        assert_eq!(u64_to_decimal(n), n.to_string());
    }
}
