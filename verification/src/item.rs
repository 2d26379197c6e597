//! CSL-JSON items, values, names and citations.

use vstd::prelude::*;

use crate::date::{opt_into_string, text_of, DateValue};
use crate::text::{
    contains_char, i64_to_decimal, int_to_decimal, lemma_int_to_decimal_reads_back,
    signed_numeral_value,
};

verus! {

/// The type of a CSL item, as CSL 1.0.2 names it.
#[derive(Debug, Clone, Copy, Hash, PartialEq, Eq, Structural)]
pub enum Kind {
    /// `article`
    Article,
    /// `article-journal`
    ArticleJournal,
    /// `article-magazine`
    ArticleMagazine,
    /// `article-newspaper`
    ArticleNewspaper,
    /// `bill`
    Bill,
    /// `book`
    Book,
    /// `broadcast`
    Broadcast,
    /// `chapter`
    Chapter,
    /// `classic`
    Classic,
    /// `collection`
    Collection,
    /// `dataset`
    Dataset,
    /// `document`
    Document,
    /// `entry`
    Entry,
    /// `entry-dictionary`
    EntryDictionary,
    /// `entry-encyclopedia`
    EntryEncyclopedia,
    /// `event`
    Event,
    /// `figure`
    Figure,
    /// `graphic`
    Graphic,
    /// `hearing`
    Hearing,
    /// `interview`
    Interview,
    /// `legal_case`
    LegalCase,
    /// `legislation`
    Legislation,
    /// `manuscript`
    Manuscript,
    /// `map`
    GeoMap,
    /// `motion_picture`
    MotionPicture,
    /// `musical_score`
    MusicalScore,
    /// `pamphlet`
    Pamphlet,
    /// `paper-conference`
    PaperConference,
    /// `patent`
    Patent,
    /// `performance`
    Performance,
    /// `periodical`
    Periodical,
    /// `personal_communication`
    PersonalCommunication,
    /// `post`
    Post,
    /// `post-weblog`
    PostWeblog,
    /// `regulation`
    Regulation,
    /// `report`
    Report,
    /// `review`
    Review,
    /// `review-book`
    ReviewBook,
    /// `software`
    Software,
    /// `song`
    Song,
    /// `speech`
    Speech,
    /// `standard`
    Standard,
    /// `thesis`
    Thesis,
    /// `treaty`
    Treaty,
    /// `webpage`
    Webpage,
}

/// A CSL-JSON item.
#[derive(Debug, Hash, PartialEq, Eq)]
pub struct Item {
    /// Citation id
    pub id: Value,
    /// Citation key. Seems to be unused.
    pub citation_key: Option<String>,
    /// Categories of the item.
    pub categories: Option<Vec<String>>,
    /// The language of the item, as an ISO 639-1 code, optionally with a
    /// locale (e.g. "de-DE").
    pub language: Option<String>,
    /// Chapter number (e.g. chapter number in a book; track number on an album)
    pub chapter_number: Option<NumberOrString>,
    /// Abstract of the item (e.g. the abstract of a journal article)
    pub abstract_: Option<String>,
    /// Date the item has been accessed
    pub accessed: Option<DateValue>,
    /// Date the item was initially available
    pub available_date: Option<DateValue>,
    /// Date the event related to an item took place
    pub event_date: Option<DateValue>,
    /// Date the item was issued/published
    pub issued: Option<DateValue>,
    /// Issue date of the original version
    pub original_date: Option<DateValue>,
    /// Date the item (e.g. a manuscript) was submitted for publication
    pub submitted: Option<DateValue>,
    /// The item's author names.
    pub author: Option<Vec<NameValue>>,
    /// The item's chair names.
    pub chair: Option<Vec<NameValue>>,
    /// The item's collection editor names.
    pub collection_editor: Option<Vec<NameValue>>,
    /// The item's compiler names.
    pub compiler: Option<Vec<NameValue>>,
    /// The item's composer names.
    pub composer: Option<Vec<NameValue>>,
    /// The item's container author names.
    pub container_author: Option<Vec<NameValue>>,
    /// The item's contributor names.
    pub contributor: Option<Vec<NameValue>>,
    /// The item's curator names.
    pub curator: Option<Vec<NameValue>>,
    /// The item's director names.
    pub director: Option<Vec<NameValue>>,
    /// The item's editor names.
    pub editor: Option<Vec<NameValue>>,
    /// The item's editorial director names.
    pub editorial_director: Option<Vec<NameValue>>,
    /// The item's editorial translator names.
    pub editorial_translator: Option<Vec<NameValue>>,
    /// The item's executive producer names.
    pub executive_producer: Option<Vec<NameValue>>,
    /// The item's guest names.
    pub guest: Option<Vec<NameValue>>,
    /// The item's host names.
    pub host: Option<Vec<NameValue>>,
    /// The item's interviewer names.
    pub interviewer: Option<Vec<NameValue>>,
    /// The item's illustrator names.
    pub illustrator: Option<Vec<NameValue>>,
    /// The item's narrator names.
    pub narrator: Option<Vec<NameValue>>,
    /// The item's organizer names.
    pub organizer: Option<Vec<NameValue>>,
    /// The item's original author names.
    pub original_author: Option<Vec<NameValue>>,
    /// The item's performer names.
    pub performer: Option<Vec<NameValue>>,
    /// The item's producer names.
    pub producer: Option<Vec<NameValue>>,
    /// The item's recipient names.
    pub recipient: Option<Vec<NameValue>>,
    /// The item's reviewed author names.
    pub reviewed_author: Option<Vec<NameValue>>,
    /// The item's script writer names.
    pub script_writer: Option<Vec<NameValue>>,
    /// The item's series creator names.
    pub series_creator: Option<Vec<NameValue>>,
    /// The item's translator names.
    pub translator: Option<Vec<NameValue>>,
    /// The item type.
    pub type_: Kind,
    /// A note; may hold "cheater syntax" for fields CSL-JSON lacks.
    pub note: Option<String>,
}

/// A field in an CSL-JSON item.
#[derive(Debug, Hash, PartialEq, Eq)]
pub enum Value {
    /// A string value.
    String(String),
    /// A number value.
    Number(i64),
    /// A list of names.
    Names(Vec<NameValue>),
    /// A date value.
    Date(DateValue),
}

/// The representation of a name.
#[derive(Debug, Hash, PartialEq, Eq)]
pub enum NameValue {
    /// A name that doesn't necessarily follow the schema of a `NameItem`.
    Literal(LiteralName),
    /// A name that is defined by a collection of parts.
    Item(NameItem),
}

/// A name that is defined by a collection of parts.
#[derive(Debug, Hash, PartialEq, Eq)]
pub struct NameItem {
    /// The family name.
    pub family: String,
    /// The given name.
    pub given: Option<String>,
    /// A name particle like `"de las"`.
    pub non_dropping_particle: Option<String>,
    /// A name particle like `"Rev."`.
    pub dropping_particle: Option<String>,
    /// A name suffix like `"Jr., Ph.D."`.
    pub suffix: Option<String>,
}

/// A name that doesn't necessarily follow the schema of a `NameItem`. May be
/// useful for institutional names.
#[derive(Debug, Hash, PartialEq, Eq)]
pub struct LiteralName {
    /// The literal name.
    pub literal: String,
}

/// A CSL-JSON citation.
#[derive(Debug)]
pub struct Citation {
    /// A unique ID for the citation.
    pub citation_id: String,
    /// The individual parts of the citation.
    pub citation_items: Vec<CitationItem>,
    /// The citation's properties.
    pub properties: CitationProperties,
}

/// An individual part of a citation.
#[derive(Debug)]
pub struct CitationItem {
    /// A unique ID for the citation item.
    pub id: String,
    /// A locator value (e.g. a page number).
    pub locator: Option<String>,
    /// What kind of locator to use (e.g. `"page"`).
    pub label: Option<String>,
    /// Whether to suppress the author for this item.
    pub suppress_author: bool,
    /// Something to print before this item.
    pub prefix: Option<String>,
    /// Something to print after this item.
    pub suffix: Option<String>,
    /// Defines the relationship of this item to other cited items with the same
    /// key.
    pub position: Option<u8>,
    /// Whether this key was already cited in close range before.
    pub near_note: Option<bool>,
}

/// Properties of a citation.
#[derive(Debug)]
pub struct CitationProperties {
    /// The footnote number in which the citation is located in the document.
    note_index: Option<u32>,
}


/// A number or a string, as CSL-JSON writes several fields either way.
#[derive(Clone, Debug, Hash, PartialEq, Eq)]
pub enum NumberOrString {
    Number(i16),
    String(String),
}

impl NumberOrString {
    /// The text of this value: the decimal numeral of a number, or the string.
    pub open spec fn spec_text(&self) -> Seq<char> {
        match self {
            NumberOrString::Number(n) => int_to_decimal(*n as int),
            NumberOrString::String(s) => s@,
        }
    }

    /// Converts to a string: a number gives its decimal numeral.
    pub fn into_string(self) -> (res: String)
        ensures
            res@ == self.spec_text(),
    {
        match self {
            NumberOrString::Number(n) => i64_to_decimal(n as i64),
            NumberOrString::String(s) => s,
        }
    }
}

/// Whether an optional string holds a `<`.
pub open spec fn opt_has_lt(s: Option<String>) -> bool {
    s matches Some(t) && t@.contains('<')
}

/// Whether an optional string holds a `<`.
fn opt_str_has_lt(s: &Option<String>) -> (res: bool)
    ensures
        res == opt_has_lt(*s),
{
    match s {
        Some(t) => contains_char(t.as_str(), '<'),
        None => false,
    }
}

/// Whether some string of `c` holds a `<`.
pub open spec fn some_has_lt(c: Seq<String>) -> bool {
    exists|i: int| 0 <= i < c.len() && (#[trigger] c[i])@.contains('<')
}

/// Whether some string of `c` holds a `<`.
fn any_has_lt(c: &Vec<String>) -> (res: bool)
    ensures
        res == some_has_lt(c@),
{
    let mut i: usize = 0;
    while i < c.len()
        invariant
            i <= c@.len(),
            forall|j: int| 0 <= j < i ==> !(#[trigger] c@[j])@.contains('<'),
        decreases c@.len() - i,
    {
        if contains_char(c[i].as_str(), '<') {
            assert((c@[i as int])@.contains('<'));
            return true;
        }
        i = i + 1;
    }
    false
}

impl Value {
    /// The text of this value when it is a string or a number.
    pub open spec fn spec_to_str(&self) -> Option<Seq<char>> {
        match self {
            Value::String(s) => Some(s@),
            Value::Number(n) => Some(int_to_decimal(*n as int)),
            Value::Names(_) => None,
            Value::Date(_) => None,
        }
    }

    /// Whether this value is a string that holds a `<`.
    pub open spec fn spec_has_html(&self) -> bool {
        match self {
            Value::String(s) => s@.contains('<'),
            _ => false,
        }
    }

    /// Convert to a string if this is a string or number.
    pub fn to_str(&self) -> (res: Option<String>)
        ensures
            res is Some <==> self.spec_to_str() is Some,
            res matches Some(t) ==> Some(t@) == self.spec_to_str(),
    {
        match self {
            Value::String(s) => Some(s.clone()),
            Value::Number(n) => Some(i64_to_decimal(*n)),
            Value::Date(_) => None,
            Value::Names(_) => None,
        }
    }

    /// Whether the value contains any HTML.
    pub fn has_html(&self) -> (res: bool)
        ensures
            res == self.spec_has_html(),
    {
        match self {
            Value::String(s) => contains_char(s.as_str(), '<'),
            Value::Number(_) => false,
            Value::Date(_) => false,
            Value::Names(_) => false,
        }
    }
}

impl Item {
    /// Whether any field whose value is text holds a `<`: the id (as
    /// [`Value::has_html`] judges it), the citation key, a category, the
    /// language, a chapter number given as a string, the abstract or the note.
    /// Names and dates are not text values and are not looked at.
    pub open spec fn spec_has_html(&self) -> bool {
        ||| self.id.spec_has_html()
        ||| opt_has_lt(self.citation_key)
        ||| (self.categories matches Some(c) && some_has_lt(c@))
        ||| opt_has_lt(self.language)
        ||| (self.chapter_number matches Some(NumberOrString::String(t)) && t@.contains('<'))
        ||| opt_has_lt(self.abstract_)
        ||| opt_has_lt(self.note)
    }

    /// The item's ID.
    pub fn id(&self) -> (res: String)
        requires
            self.id is String || self.id is Number,
        ensures
            Some(res@) == self.id.spec_to_str(),
    {
        match &self.id {
            Value::String(s) => s.clone(),
            Value::Number(n) => i64_to_decimal(*n),
            Value::Names(_) => String::new(),
            Value::Date(_) => String::new(),
        }
    }

    /// The item type.
    pub fn type_(&self) -> (res: Kind)
        ensures
            res == self.type_,
    {
        self.type_
    }

    /// Whether any of the fields values contains any HTML.
    pub fn has_html(&self) -> (res: bool)
        ensures
            res == self.spec_has_html(),
    {
        if self.id.has_html() {
            return true;
        }
        if opt_str_has_lt(&self.citation_key) {
            return true;
        }
        if let Some(c) = &self.categories {
            if any_has_lt(c) {
                return true;
            }
        }
        if opt_str_has_lt(&self.language) {
            return true;
        }
        if let Some(NumberOrString::String(t)) = &self.chapter_number {
            if contains_char(t.as_str(), '<') {
                return true;
            }
        }
        if opt_str_has_lt(&self.abstract_) {
            return true;
        }
        opt_str_has_lt(&self.note)
    }

    /// Whether this entry may contain "cheater syntax" for odd fields.
    pub fn may_have_hack(&self) -> (res: bool)
        ensures
            res == (self.note is Some),
    {
        self.note.is_some()
    }
}

impl CitationItem {
    /// A citation item as CSL-JSON writes it: the id and the locator may be
    /// numbers, which become their decimal numerals.
    pub fn from_parts(
        id: NumberOrString,
        locator: Option<NumberOrString>,
        label: Option<String>,
        suppress_author: bool,
        prefix: Option<String>,
        suffix: Option<String>,
        position: Option<u8>,
        near_note: Option<bool>,
    ) -> (res: CitationItem)
        ensures
            res.id@ == id.spec_text(),
            text_of(res.locator, locator),
            res.label == label,
            res.suppress_author == suppress_author,
            res.prefix == prefix,
            res.suffix == suffix,
            res.position == position,
            res.near_note == near_note,
    {
        CitationItem {
            id: id.into_string(),
            locator: opt_into_string(locator),
            label,
            suppress_author,
            prefix,
            suffix,
            position,
            near_note,
        }
    }
}

impl CitationProperties {
    /// Properties with the given footnote number.
    pub fn new(note_index: Option<u32>) -> (res: CitationProperties)
        ensures
            res.spec_note_index() == note_index,
    {
        CitationProperties { note_index }
    }

    /// The footnote number in which the citation is located.
    pub closed spec fn spec_note_index(&self) -> Option<u32> {
        self.note_index
    }

    /// The footnote number in which the citation is located.
    pub fn note_index(&self) -> (res: Option<u32>)
        ensures
            res == self.spec_note_index(),
    {
        self.note_index
    }
}

/* ---------------------------------------------------------------------- */
/* Laws                                                                    */
/* ---------------------------------------------------------------------- */

/// A number's text is its decimal numeral: it reads back as the number, over
/// the whole `i64` range, starts with `-` exactly for negative numbers, and
/// has no `+` and no leading zero. (An item's id that is a number is given by
/// [`Item::id`] as the same text.)
pub proof fn lemma_number_text_reads_back(n: i64)
    ensures
        Value::Number(n).spec_to_str() matches Some(t) && {
            &&& signed_numeral_value(t) == Some(n as int)
            &&& t.len() > 0
            &&& t[0] != '+'
            &&& (t[0] == '-' <==> n < 0)
            &&& (n > 0 ==> t[0] != '0')
            &&& (n < 0 ==> t[1] != '0')
        },
{
    lemma_int_to_decimal_reads_back(n as int);
}

/// A string value has HTML exactly when a `<` stands at some position of
/// it; numbers, names and dates never have HTML.
pub proof fn lemma_value_html_at_any_position(v: Value)
    ensures
        v.spec_has_html() <==> (v matches Value::String(s) && exists|i: int|
            0 <= i < s@.len() && s@[i] == '<'),
{
}

/// An item has HTML when any of its text fields holds a `<` at some
/// position: the id (when a string), the citation key, any one of the
/// categories, the language, a chapter number written as a string, the
/// abstract or the note. When none of them does, it has none.
pub proof fn lemma_item_html_in_any_text_field(it: Item)
    ensures
        it.id matches Value::String(s) && (exists|i: int| 0 <= i < s@.len() && s@[i] == '<')
            ==> it.spec_has_html(),
        it.categories matches Some(c) ==> forall|i: int, j: int|
            0 <= i < c@.len() && 0 <= j < c@[i]@.len() && #[trigger] c@[i]@[j] == '<'
                ==> it.spec_has_html(),
        it.citation_key matches Some(s) && (exists|i: int| 0 <= i < s@.len() && s@[i] == '<')
            ==> it.spec_has_html(),
        it.language matches Some(s) && (exists|i: int| 0 <= i < s@.len() && s@[i] == '<')
            ==> it.spec_has_html(),
        it.chapter_number matches Some(NumberOrString::String(s)) && (exists|i: int|
            0 <= i < s@.len() && s@[i] == '<') ==> it.spec_has_html(),
        it.abstract_ matches Some(s) && (exists|i: int| 0 <= i < s@.len() && s@[i] == '<')
            ==> it.spec_has_html(),
        it.note matches Some(s) && (exists|i: int| 0 <= i < s@.len() && s@[i] == '<')
            ==> it.spec_has_html(),
        !(it.id matches Value::String(s) && s@.contains('<')) && !(it.citation_key matches Some(
            s,
        ) && s@.contains('<')) && !(it.categories matches Some(c) && exists|i: int|
            0 <= i < c@.len() && (#[trigger] c@[i])@.contains('<')) && !(it.language matches Some(
            s,
        ) && s@.contains('<')) && !(it.chapter_number matches Some(NumberOrString::String(s))
            && s@.contains('<')) && !(it.abstract_ matches Some(s) && s@.contains('<'))
            && !(it.note matches Some(s) && s@.contains('<')) ==> !it.spec_has_html(),
{
    if let Some(c) = it.categories {
        assert forall|i: int, j: int|
            0 <= i < c@.len() && 0 <= j < c@[i]@.len() && #[trigger] c@[i]@[j] == '<'
                implies it.spec_has_html() by {
            assert(c@[i]@.contains('<'));
            assert(some_has_lt(c@));
        }
    }
}

/// Only strings and numbers have a text: a string gives itself unchanged,
/// names and dates give none.
pub proof fn lemma_text_of_values(v: Value)
    ensures
        v.spec_to_str() is Some <==> (v is String || v is Number),
        v matches Value::String(s) ==> v.spec_to_str() == Some(s@),
{
}

} // verus!
