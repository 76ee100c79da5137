//! The records page of the mobile endpoint
//! (`athleteapp.php?page=athlete&do=records`).
//!
//! The first `div.list-athlete-results > ul` lists the personal records;
//! the tabs `div.tabs.graphTabs > div[id^=tab-eventgraph-]` each hold the
//! history of one event, as another results list.

use vstd::prelude::*;
use crate::error::ParseError;
use crate::html::{
    attr, css, css_compiles, document_spots, first_in, first_in_document, first_in_page,
    first_picked, first_texts, picked_spots, select_from, select_page, spots, texts, texts_of,
    texts_of_first, Css, Element, Page, Spot,
};
use crate::pattern::{captured, captured_group};
use crate::text::{
    join_texts, contains, contains_char, ends_with, first_text, first_text_of, has_sub, joined,
    lowercase, opt_seq_view, opt_view, replace, replaced, same, seq_view, split_char, split_on,
    strip_trailing, to_lowercase, trim, trim_end_matches, trimmed,
};

verus! {

/// The pattern of a wind reading: a signed decimal number before `m/s`.
pub const WIND_PATTERN: &'static str = r#"([+-]?\d+[.,]\d+)\s*m/s"#;

/// The pattern of a flag image's file name, which is the country code.
pub const COUNTRY_CODE_PATTERN: &'static str = r#"/([a-z]{2})\.png"#;

// ---------------------------------------------------------------------------
// Performances
// ---------------------------------------------------------------------------

/// What a performance text says, before its numbers are read as floats:
/// hours, minutes and seconds for `h:m:s`, minutes and seconds for `m:s`,
/// a plain number otherwise (decimal commas made points in the seconds and
/// in a plain number), or zero for no mark.
#[derive(Debug, PartialEq, Eq)]
pub enum PerformanceValue {
    Zero,
    HoursMinutesSeconds(String, String, String),
    MinutesSeconds(String, String),
    Plain(String),
}

/// A `PerformanceValue` taken by its texts.
pub enum PerformanceValueView {
    Zero,
    HoursMinutesSeconds(Seq<char>, Seq<char>, Seq<char>),
    MinutesSeconds(Seq<char>, Seq<char>),
    Plain(Seq<char>),
}

impl View for PerformanceValue {
    type V = PerformanceValueView;

    open spec fn view(&self) -> PerformanceValueView {
        match self {
            PerformanceValue::Zero => PerformanceValueView::Zero,
            PerformanceValue::HoursMinutesSeconds(h, m, s) => PerformanceValueView::HoursMinutesSeconds(
                h@,
                m@,
                s@,
            ),
            PerformanceValue::MinutesSeconds(m, s) => PerformanceValueView::MinutesSeconds(m@, s@),
            PerformanceValue::Plain(t) => PerformanceValueView::Plain(t@),
        }
    }
}

/// The codes that stand for no mark.
pub open spec fn is_no_mark(t: Seq<char>) -> bool {
    t.len() == 0 || t == "DNF"@ || t == "DNS"@ || t == "DQ"@ || t == "NM"@ || t == "NH"@
}

/// What a performance text says: it is trimmed, a trailing hand-timing `h`
/// is dropped, codes of no mark give zero, and otherwise the colons decide
/// between `h:m:s`, `m:s` and a plain number.
pub open spec fn performance_value_of(text: Seq<char>) -> PerformanceValueView {
    let t = strip_trailing(trimmed(text), 'h');
    if is_no_mark(t) {
        PerformanceValueView::Zero
    } else {
        let parts = split_char(t, ':');
        if parts.len() == 3 {
            PerformanceValueView::HoursMinutesSeconds(
                parts[0],
                parts[1],
                replaced(parts[2], ","@, "."@),
            )
        } else if parts.len() == 2 {
            PerformanceValueView::MinutesSeconds(parts[0], replaced(parts[1], ","@, "."@))
        } else {
            PerformanceValueView::Plain(replaced(t, ","@, "."@))
        }
    }
}

/// Reads a performance text such as `10.85`, `1:58,3`, `2:31:07` or `DNF`.
pub fn performance_value(text: &str) -> (r: PerformanceValue)
    ensures
        r@ == performance_value_of(text@),
{
    let trimmed_text = trim(text);
    let t = trim_end_matches(trimmed_text.as_str(), 'h');
    proof {
        reveal_strlit("DNF");
        reveal_strlit("DNS");
        reveal_strlit("DQ");
        reveal_strlit("NM");
        reveal_strlit("NH");
        reveal_strlit(",");
    }
    let ts = t.as_str();
    if blank_or_empty(ts) || same(ts, "DNF") || same(ts, "DNS") || same(ts, "DQ") || same(ts, "NM")
        || same(ts, "NH") {
        return PerformanceValue::Zero;
    }
    let parts = split_on(ts, ':');
    if parts.len() == 3 {
        PerformanceValue::HoursMinutesSeconds(
            parts[0].clone(),
            parts[1].clone(),
            replace(parts[2].as_str(), ",", "."),
        )
    } else if parts.len() == 2 {
        PerformanceValue::MinutesSeconds(parts[0].clone(), replace(parts[1].as_str(), ",", "."))
    } else {
        PerformanceValue::Plain(replace(ts, ",", "."))
    }
}

/// Whether `s` is empty.
fn blank_or_empty(s: &str) -> (r: bool)
    ensures
        r == (s@.len() == 0),
{
    s.unicode_len() == 0
}


// ---------------------------------------------------------------------------
// Wind and country
// ---------------------------------------------------------------------------

/// The wind reading that the number group of the wind pattern gives: the
/// number with a decimal point in place of a comma.
pub open spec fn wind_from_group(g: Option<Seq<char>>) -> Option<Seq<char>> {
    match g {
        Some(n) => Some(replaced(n, ","@, "."@)),
        None => None,
    }
}

/// The wind reading in a text, as the number that the page gives with a
/// decimal point (`parse_wind` reads it as a float).
pub open spec fn wind_reading(text: Seq<char>) -> Option<Seq<char>> {
    wind_from_group(captured(WIND_PATTERN@, text, 1))
}

/// The wind reading that the number group of the wind pattern gives.
pub fn wind_from_capture(g: &Option<String>) -> (r: Option<String>)
    ensures
        opt_view(r) == wind_from_group(opt_view(*g)),
{
    proof {
        reveal_strlit(",");
    }
    match g {
        Some(n) => Some(replace(n.as_str(), ",", ".")),
        None => None,
    }
}

/// The wind reading in `text`, such as `+1.2` for `+1,2 m/s`.
pub fn parse_wind(text: &str) -> (r: Option<String>)
    ensures
        opt_view(r) == wind_reading(text@),
{
    wind_from_capture(&captured_group(WIND_PATTERN, text, 1))
}

/// The country code in the address of a flag image; empty when there is
/// none.
pub open spec fn country_code_in(src: Seq<char>) -> Seq<char> {
    match captured(COUNTRY_CODE_PATTERN@, src, 1) {
        Some(c) => c,
        None => Seq::empty(),
    }
}

/// The country code in the address of a flag image, such as `nl` for
/// `/img/flags/nl.png`; empty when there is none.
pub fn extract_country_code(src: &str) -> (r: String)
    ensures
        r@ == country_code_in(src@),
{
    match captured_group(COUNTRY_CODE_PATTERN, src, 1) {
        Some(c) => c,
        None => String::new(),
    }
}

// ---------------------------------------------------------------------------
// One item of a results list
// ---------------------------------------------------------------------------

/// The CSS selector of the records list.
pub const LIST_SELECTOR: &'static str = "div.list-athlete-results";

/// The CSS selector of the records in the records list.
pub const RECORD_ITEM_SELECTOR: &'static str = "ul > li";

/// The CSS selector of the history tabs.
pub const TAB_SELECTOR: &'static str = "div.tabs.graphTabs > div[id^='tab-eventgraph-']";

/// The CSS selector of the entries of a history tab.
pub const TAB_ITEM_SELECTOR: &'static str = "li";

/// The CSS selector of an item's event.
pub const EVENT_SELECTOR: &'static str = ".onderdeel";

/// The CSS selector of an item's performance.
pub const ITEM_TITLE_SELECTOR: &'static str = ".item-title";

/// The CSS selector of a footer.
pub const FOOTER_SELECTOR: &'static str = ".item-footer";

/// The CSS selector of the wind in a history entry's footer.
pub const FOOTER_SPAN_SELECTOR: &'static str = ".item-footer > span";

/// The CSS selector of the details in a record's footer.
pub const RESULT_FOOTER_SELECTOR: &'static str = ".result-footer-details";

/// The CSS selector of an item's date and place.
pub const LOCATION_SELECTOR: &'static str = ".location";

/// The CSS selector of an event's badge.
pub const BADGE_SELECTOR: &'static str = ".badge";

/// The CSS selector of a country's flag.
pub const FLAG_SELECTOR: &'static str = "img.flagicon";

/// The CSS selector of the athlete's name on the `do=get` page.
pub const HEADING_SELECTOR: &'static str = "h3.no-margin-bottom";

/// The CSS selector of the title that stands in for the name.
pub const TITLE_SELECTOR: &'static str = ".title";

/// Whether every selector of the records parser compiles.
pub open spec fn selectors_compile() -> bool {
    &&& css_compiles(LIST_SELECTOR@)
    &&& css_compiles(RECORD_ITEM_SELECTOR@)
    &&& css_compiles(TAB_SELECTOR@)
    &&& css_compiles(TAB_ITEM_SELECTOR@)
    &&& css_compiles(EVENT_SELECTOR@)
    &&& css_compiles(ITEM_TITLE_SELECTOR@)
    &&& css_compiles(FOOTER_SELECTOR@)
    &&& css_compiles(FOOTER_SPAN_SELECTOR@)
    &&& css_compiles(RESULT_FOOTER_SELECTOR@)
    &&& css_compiles(LOCATION_SELECTOR@)
    &&& css_compiles(BADGE_SELECTOR@)
    &&& css_compiles(FLAG_SELECTOR@)
}

/// Whether both selectors of the name parser compile.
pub open spec fn name_selectors_compile() -> bool {
    css_compiles(HEADING_SELECTOR@) && css_compiles(TITLE_SELECTOR@)
}

/// What the parser reads of the `.onderdeel` element of an item.
pub struct EventSource {
    /// Its text nodes.
    pub texts: Vec<String>,
    /// The text nodes of its first `.badge`, if it has one.
    pub badge_texts: Option<Vec<String>>,
    /// The text nodes of its first `.item-footer`, if it has one.
    pub footer_texts: Option<Vec<String>>,
}

/// An `EventSource` taken by its texts.
pub ghost struct EventView {
    pub texts: Seq<Seq<char>>,
    pub badge_texts: Option<Seq<Seq<char>>>,
    pub footer_texts: Option<Seq<Seq<char>>>,
}

impl View for EventSource {
    type V = EventView;

    open spec fn view(&self) -> EventView {
        EventView {
            texts: seq_view(self.texts@),
            badge_texts: opt_seq_view(self.badge_texts),
            footer_texts: opt_seq_view(self.footer_texts),
        }
    }
}

/// What the parser reads of the `.item-title` element of an item.
pub struct PerformanceSource {
    /// Its text nodes.
    pub texts: Vec<String>,
    /// The text nodes of its first `.item-footer > span`, else of its first
    /// `.result-footer-details`, else of its first `.item-footer`.
    pub wind_texts: Option<Vec<String>>,
}

/// A `PerformanceSource` taken by its texts.
pub ghost struct PerformanceView {
    pub texts: Seq<Seq<char>>,
    pub wind_texts: Option<Seq<Seq<char>>>,
}

impl View for PerformanceSource {
    type V = PerformanceView;

    open spec fn view(&self) -> PerformanceView {
        PerformanceView { texts: seq_view(self.texts@), wind_texts: opt_seq_view(self.wind_texts) }
    }
}

/// What the parser reads of the `.result-footer-details` of a `.location`.
pub struct LocationFooterSource {
    /// Its text nodes.
    pub texts: Vec<String>,
    /// The `src` of its first `img.flagicon`, if it has one.
    pub flag_src: Option<String>,
}

/// A `LocationFooterSource` taken by its texts.
pub ghost struct LocationFooterView {
    pub texts: Seq<Seq<char>>,
    pub flag_src: Option<Seq<char>>,
}

impl View for LocationFooterSource {
    type V = LocationFooterView;

    open spec fn view(&self) -> LocationFooterView {
        LocationFooterView { texts: seq_view(self.texts@), flag_src: opt_view(self.flag_src) }
    }
}

/// What the parser reads of the `.location` element of an item.
pub struct LocationSource {
    /// Its text nodes.
    pub texts: Vec<String>,
    /// Its first `.result-footer-details`, if it has one.
    pub footer: Option<LocationFooterSource>,
}

/// A `LocationSource` taken by its texts.
pub ghost struct LocationView {
    pub texts: Seq<Seq<char>>,
    pub footer: Option<LocationFooterView>,
}

impl View for LocationSource {
    type V = LocationView;

    open spec fn view(&self) -> LocationView {
        LocationView {
            texts: seq_view(self.texts@),
            footer: match self.footer {
                Some(f) => Some(f@),
                None => None,
            },
        }
    }
}

/// What the parser reads of one `<li>` of a results list.
pub struct ItemSource {
    /// The `class` attribute of the `<li>`.
    pub class_attr: Option<String>,
    /// Its first `.onderdeel`.
    pub event: Option<EventSource>,
    /// Its first `.item-title`.
    pub performance: Option<PerformanceSource>,
    /// Its first `.location`.
    pub location: Option<LocationSource>,
}

/// An `ItemSource` taken by its texts.
pub ghost struct ItemView {
    pub class_attr: Option<Seq<char>>,
    pub event: Option<EventView>,
    pub performance: Option<PerformanceView>,
    pub location: Option<LocationView>,
}

impl View for ItemSource {
    type V = ItemView;

    open spec fn view(&self) -> ItemView {
        ItemView {
            class_attr: opt_view(self.class_attr),
            event: match self.event {
                Some(e) => Some(e@),
                None => None,
            },
            performance: match self.performance {
                Some(p) => Some(p@),
                None => None,
            },
            location: match self.location {
                Some(l) => Some(l@),
                None => None,
            },
        }
    }
}

/// Items taken by their views.
pub open spec fn items_view(items: Seq<ItemSource>) -> Seq<ItemView> {
    items.map_values(|it: ItemSource| it@)
}

/// The items of each history tab, taken by their views.
pub open spec fn tabs_items_view(tabs: Seq<Vec<ItemSource>>) -> Seq<Seq<ItemView>> {
    tabs.map_values(|t: Vec<ItemSource>| items_view(t@))
}

/// Where a performance's wind is read: its first `.item-footer > span`,
/// else its first `.result-footer-details`, else its first `.item-footer`.
pub open spec fn wind_spot(pf: Spot) -> Option<Spot> {
    match first_picked(pf, FOOTER_SPAN_SELECTOR@) {
        Some(e) => Some(e),
        None => match first_picked(pf, RESULT_FOOTER_SELECTOR@) {
            Some(e) => Some(e),
            None => first_picked(pf, FOOTER_SELECTOR@),
        },
    }
}

/// What the parser reads of the `.onderdeel` at `ev`.
pub open spec fn event_at(ev: Spot) -> EventView {
    EventView {
        texts: texts_of(ev),
        badge_texts: first_texts(ev, BADGE_SELECTOR@),
        footer_texts: first_texts(ev, FOOTER_SELECTOR@),
    }
}

/// What the parser reads of the `.item-title` at `pf`.
pub open spec fn performance_at(pf: Spot) -> PerformanceView {
    PerformanceView {
        texts: texts_of(pf),
        wind_texts: match wind_spot(pf) {
            Some(w) => Some(texts_of(w)),
            None => None,
        },
    }
}

/// What the parser reads of the `.location` at `loc`.
pub open spec fn location_at(loc: Spot) -> LocationView {
    LocationView {
        texts: texts_of(loc),
        footer: match first_picked(loc, RESULT_FOOTER_SELECTOR@) {
            Some(f) => Some(
                LocationFooterView {
                    texts: texts_of(f),
                    flag_src: match first_picked(f, FLAG_SELECTOR@) {
                        Some(img) => crate::html::attribute_of(img, "src"@),
                        None => None,
                    },
                },
            ),
            None => None,
        },
    }
}

/// What the parser reads of the `<li>` at `li`.
pub open spec fn item_at(li: Spot) -> ItemView {
    ItemView {
        class_attr: crate::html::attribute_of(li, "class"@),
        event: match first_picked(li, EVENT_SELECTOR@) {
            Some(ev) => Some(event_at(ev)),
            None => None,
        },
        performance: match first_picked(li, ITEM_TITLE_SELECTOR@) {
            Some(pf) => Some(performance_at(pf)),
            None => None,
        },
        location: match first_picked(li, LOCATION_SELECTOR@) {
            Some(loc) => Some(location_at(loc)),
            None => None,
        },
    }
}

/// What the parser reads of each `<li>` that `css` picks under `el`.
pub open spec fn items_at(el: Spot, css: Seq<char>) -> Seq<ItemView> {
    picked_spots(el, css).map_values(|li: Spot| item_at(li))
}

/// The items of the records list of the page, when it has one.
pub open spec fn page_records(page: Seq<char>) -> Seq<ItemView> {
    match first_in_document(page, LIST_SELECTOR@) {
        Some(c) => items_at(c, RECORD_ITEM_SELECTOR@),
        None => Seq::empty(),
    }
}

/// The items of each history tab of the page, in document order.
pub open spec fn page_tabs(page: Seq<char>) -> Seq<Seq<ItemView>> {
    document_spots(page, TAB_SELECTOR@).map_values(|t: Spot| items_at(t, TAB_ITEM_SELECTOR@))
}

/// What one `<li>` holds: used for personal records and history entries alike.
pub struct ParsedItem {
    pub event_name: String,
    pub performance: String,
    pub performance_value: PerformanceValue,
    pub wind_speed: Option<String>,
    pub hand_measured: bool,
    pub location: String,
    pub country_code: String,
    pub date: String,
    pub not_important: bool,
    pub indoor: bool,
    pub attribute: Option<String>,
}

/// A `ParsedItem` taken by its texts.
pub struct ParsedItemView {
    pub event_name: Seq<char>,
    pub performance: Seq<char>,
    pub performance_value: PerformanceValueView,
    pub wind_speed: Option<Seq<char>>,
    pub hand_measured: bool,
    pub location: Seq<char>,
    pub country_code: Seq<char>,
    pub date: Seq<char>,
    pub not_important: bool,
    pub indoor: bool,
    pub attribute: Option<Seq<char>>,
}

impl View for ParsedItem {
    type V = ParsedItemView;

    open spec fn view(&self) -> ParsedItemView {
        ParsedItemView {
            event_name: self.event_name@,
            performance: self.performance@,
            performance_value: self.performance_value@,
            wind_speed: opt_view(self.wind_speed),
            hand_measured: self.hand_measured,
            location: self.location@,
            country_code: self.country_code@,
            date: self.date@,
            not_important: self.not_important,
            indoor: self.indoor,
            attribute: opt_view(self.attribute),
        }
    }
}

/// Whether a text takes more than one byte in UTF-8: two characters or
/// more, or one character outside ASCII.
pub open spec fn longer_than_one_byte(u: Seq<char>) -> bool {
    u.len() >= 2 || (u.len() == 1 && (u[0] as u32) >= 0x80)
}

/// An event name: a text node that is not blank, holds no line break once
/// trimmed, and is longer than one byte (so a one-letter badge is passed
/// over).
pub open spec fn is_event_name(t: Seq<char>) -> bool {
    let u = trimmed(t);
    u.len() > 0 && !u.contains('\n') && longer_than_one_byte(u)
}

/// Whether `u` takes more than one byte in UTF-8 (`str::len() > 1`).
pub fn more_than_one_byte(u: &str) -> (r: bool)
    ensures
        r == longer_than_one_byte(u@),
{
    let n = u.unicode_len();
    n >= 2 || (n == 1 && u.get_char(0) as u32 >= 0x80)
}

/// The first text node that is an event name, trimmed; empty when none is.
pub open spec fn event_name_of(texts: Seq<Seq<char>>) -> Seq<char>
    decreases texts.len(),
{
    if texts.len() == 0 {
        Seq::empty()
    } else if is_event_name(texts[0]) {
        trimmed(texts[0])
    } else {
        event_name_of(texts.drop_first())
    }
}

/// Whether one of the texts, lowercased, holds `indoor`.
pub open spec fn mentions_indoor(texts: Seq<Seq<char>>) -> bool {
    exists|i: int| 0 <= i < texts.len() && has_sub(lowercase(#[trigger] texts[i]), "indoor"@)
}

/// The footer text of an event, unless it is blank.
pub open spec fn attribute_of(texts: Seq<Seq<char>>) -> Option<Seq<char>> {
    let t = trimmed(joined(texts));
    if t.len() == 0 {
        None
    } else {
        Some(t)
    }
}

/// The wind reading of a performance footer; none for `n/a m/s` or a blank.
pub open spec fn footer_wind(texts: Seq<Seq<char>>) -> Option<Seq<char>> {
    let t = trimmed(joined(texts));
    if t == "n/a m/s"@ || t.len() == 0 {
        None
    } else {
        wind_reading(t)
    }
}

/// Whether a `class` attribute holds `part`.
pub open spec fn class_has(class_attr: Option<Seq<char>>, part: Seq<char>) -> bool {
    match class_attr {
        Some(c) => has_sub(c, part),
        None => false,
    }
}

/// What one `<li>` holds; none when it lacks `.onderdeel` or `.item-title`.
pub open spec fn parsed_item(src: ItemView) -> Option<ParsedItemView> {
    match (src.event, src.performance) {
        (Some(ev), Some(pf)) => {
            let perf = first_text(pf.texts);
            Some(
                ParsedItemView {
                    event_name: event_name_of(ev.texts),
                    performance: perf,
                    performance_value: performance_value_of(perf),
                    wind_speed: match pf.wind_texts {
                        Some(w) => footer_wind(w),
                        None => None,
                    },
                    hand_measured: crate::text::ends_with_char(perf, 'h'),
                    location: match src.location {
                        Some(loc) => match loc.footer {
                            Some(f) => trimmed(joined(f.texts)),
                            None => Seq::empty(),
                        },
                        None => Seq::empty(),
                    },
                    country_code: match src.location {
                        Some(loc) => match loc.footer {
                            Some(f) => match f.flag_src {
                                Some(fs) => country_code_in(fs),
                                None => Seq::empty(),
                            },
                            None => Seq::empty(),
                        },
                        None => Seq::empty(),
                    },
                    date: match src.location {
                        Some(loc) => first_text(loc.texts),
                        None => Seq::empty(),
                    },
                    not_important: class_has(src.class_attr, "notThatImportant"@),
                    indoor: match ev.badge_texts {
                        Some(b) => mentions_indoor(b),
                        None => false,
                    },
                    attribute: match ev.footer_texts {
                        Some(f) => attribute_of(f),
                        None => None,
                    },
                },
            )
        },
        _ => None,
    }
}

/// The first text node that is an event name, trimmed.
pub fn event_name(texts: &Vec<String>) -> (r: String)
    ensures
        r@ == event_name_of(seq_view(texts@)),
{
    let ghost all = seq_view(texts@);
    let mut i: usize = 0;
    assert(all.skip(0) =~= all);
    while i < texts.len()
        invariant
            all == seq_view(texts@),
            0 <= i <= texts@.len(),
            event_name_of(all) == event_name_of(all.skip(i as int)),
        decreases texts.len() - i,
    {
        assert(all.skip(i as int)[0] == texts@[i as int]@);
        let t = trim(texts[i].as_str());
        if t.as_str().unicode_len() > 0 && !contains_char(t.as_str(), '\n') && more_than_one_byte(
            t.as_str(),
        ) {
            return t;
        }
        assert(all.skip(i as int).drop_first() =~= all.skip(i + 1));
        i += 1;
    }
    String::new()
}

/// Whether one of the texts, lowercased, holds `indoor`.
pub fn any_indoor(texts: &Vec<String>) -> (r: bool)
    ensures
        r == mentions_indoor(seq_view(texts@)),
{
    let mut i: usize = 0;
    while i < texts.len()
        invariant
            0 <= i <= texts@.len(),
            forall|k: int|
                0 <= k < i ==> !has_sub(lowercase(#[trigger] seq_view(texts@)[k]), "indoor"@),
        decreases texts.len() - i,
    {
        let low = to_lowercase(texts[i].as_str());
        if contains(low.as_str(), "indoor") {
            assert(seq_view(texts@)[i as int] == texts@[i as int]@);
            return true;
        }
        assert(seq_view(texts@)[i as int] == texts@[i as int]@);
        i += 1;
    }
    false
}

/// The footer text of an event, unless it is blank.
pub fn attribute_text(texts: &Vec<String>) -> (r: Option<String>)
    ensures
        opt_view(r) == attribute_of(seq_view(texts@)),
{
    let t = trim(join_texts(texts).as_str());
    if t.as_str().unicode_len() == 0 {
        None
    } else {
        Some(t)
    }
}

/// The wind reading of a performance footer.
pub fn wind_of_footer(texts: &Vec<String>) -> (r: Option<String>)
    ensures
        opt_view(r) == footer_wind(seq_view(texts@)),
{
    let t = trim(join_texts(texts).as_str());
    if same(t.as_str(), "n/a m/s") || t.as_str().unicode_len() == 0 {
        return None;
    }
    parse_wind(t.as_str())
}

/// Whether a `class` attribute holds `part`.
pub fn class_contains(class_attr: &Option<String>, part: &str) -> (r: bool)
    ensures
        r == class_has(opt_view(*class_attr), part@),
{
    match class_attr {
        Some(c) => contains(c.as_str(), part),
        None => false,
    }
}

/// What one `<li>` holds (`parse_li`).
pub fn parse_item(src: &ItemSource) -> (r: Option<ParsedItem>)
    ensures
        match r {
            Some(p) => parsed_item(src@) == Some(p@),
            None => parsed_item(src@) is None,
        },
{
    let ev = match &src.event {
        Some(ev) => ev,
        None => return None,
    };
    let pf = match &src.performance {
        Some(pf) => pf,
        None => return None,
    };
    let event_name = event_name(&ev.texts);
    let indoor = match &ev.badge_texts {
        Some(b) => any_indoor(b),
        None => false,
    };
    let attribute = match &ev.footer_texts {
        Some(f) => attribute_text(f),
        None => None,
    };
    let perf_text = first_text_of(&pf.texts);
    let hand_measured = ends_with(perf_text.as_str(), 'h');
    let performance_value = performance_value(perf_text.as_str());
    let wind_speed = match &pf.wind_texts {
        Some(w) => wind_of_footer(w),
        None => None,
    };
    let mut date = String::new();
    let mut location = String::new();
    let mut country_code = String::new();
    match &src.location {
        Some(loc) => {
            date = first_text_of(&loc.texts);
            match &loc.footer {
                Some(f) => {
                    location = trim(join_texts(&f.texts).as_str());
                    match &f.flag_src {
                        Some(fs) => {
                            country_code = extract_country_code(fs.as_str());
                        },
                        None => {},
                    }
                },
                None => {},
            }
        },
        None => {},
    }
    let not_important = class_contains(&src.class_attr, "notThatImportant");
    Some(
        ParsedItem {
            event_name,
            performance: perf_text,
            performance_value,
            wind_speed,
            hand_measured,
            location,
            country_code,
            date,
            not_important,
            indoor,
            attribute,
        },
    )
}


// ---------------------------------------------------------------------------
// Records and their history
// ---------------------------------------------------------------------------

/// One performance in the history of an event.
#[derive(Debug)]
pub struct PerformanceHistoryEntry {
    pub performance: String,
    pub performance_value: PerformanceValue,
    pub wind_speed: Option<String>,
    pub hand_measured: bool,
    pub location: String,
    pub country_code: String,
    pub date: String,
    /// The progression that the page prints beside the performance.
    pub delta: Option<String>,
}

/// A personal record, with the history of its event.
#[derive(Debug)]
pub struct MobilePersonalBest {
    pub event: String,
    pub performance: String,
    pub performance_value: PerformanceValue,
    pub wind_speed: Option<String>,
    pub hand_measured: bool,
    pub location: String,
    pub country_code: String,
    pub date: String,
    pub not_important: bool,
    pub indoor: bool,
    pub attribute: Option<String>,
    pub history: Vec<PerformanceHistoryEntry>,
}

/// An athlete's name and personal records.
#[derive(Debug)]
pub struct MobileAthleteProfile {
    pub name: String,
    pub personal_bests: Vec<MobilePersonalBest>,
}

/// A `PerformanceHistoryEntry` taken by its texts.
pub struct HistoryEntryView {
    pub performance: Seq<char>,
    pub performance_value: PerformanceValueView,
    pub wind_speed: Option<Seq<char>>,
    pub hand_measured: bool,
    pub location: Seq<char>,
    pub country_code: Seq<char>,
    pub date: Seq<char>,
    pub delta: Option<Seq<char>>,
}

/// A `MobilePersonalBest` taken by its texts.
pub struct PersonalBestView {
    pub event: Seq<char>,
    pub performance: Seq<char>,
    pub performance_value: PerformanceValueView,
    pub wind_speed: Option<Seq<char>>,
    pub hand_measured: bool,
    pub location: Seq<char>,
    pub country_code: Seq<char>,
    pub date: Seq<char>,
    pub not_important: bool,
    pub indoor: bool,
    pub attribute: Option<Seq<char>>,
    pub history: Seq<HistoryEntryView>,
}

/// A `MobileAthleteProfile` taken by its texts.
pub struct AthleteProfileView {
    pub name: Seq<char>,
    pub personal_bests: Seq<PersonalBestView>,
}

impl View for PerformanceHistoryEntry {
    type V = HistoryEntryView;

    open spec fn view(&self) -> HistoryEntryView {
        HistoryEntryView {
            performance: self.performance@,
            performance_value: self.performance_value@,
            wind_speed: opt_view(self.wind_speed),
            hand_measured: self.hand_measured,
            location: self.location@,
            country_code: self.country_code@,
            date: self.date@,
            delta: opt_view(self.delta),
        }
    }
}

/// A history taken by the views of its entries.
pub open spec fn entries_view(v: Seq<PerformanceHistoryEntry>) -> Seq<HistoryEntryView> {
    v.map_values(|e: PerformanceHistoryEntry| e@)
}

impl View for MobilePersonalBest {
    type V = PersonalBestView;

    open spec fn view(&self) -> PersonalBestView {
        PersonalBestView {
            event: self.event@,
            performance: self.performance@,
            performance_value: self.performance_value@,
            wind_speed: opt_view(self.wind_speed),
            hand_measured: self.hand_measured,
            location: self.location@,
            country_code: self.country_code@,
            date: self.date@,
            not_important: self.not_important,
            indoor: self.indoor,
            attribute: opt_view(self.attribute),
            history: entries_view(self.history@),
        }
    }
}

/// Personal records taken by their views.
pub open spec fn bests_view(v: Seq<MobilePersonalBest>) -> Seq<PersonalBestView> {
    v.map_values(|b: MobilePersonalBest| b@)
}

/// Tabs of history taken by the views of their entries.
pub open spec fn tabs_view(v: Seq<Vec<PerformanceHistoryEntry>>) -> Seq<Seq<HistoryEntryView>> {
    v.map_values(|t: Vec<PerformanceHistoryEntry>| entries_view(t@))
}

impl View for MobileAthleteProfile {
    type V = AthleteProfileView;

    open spec fn view(&self) -> AthleteProfileView {
        AthleteProfileView { name: self.name@, personal_bests: bests_view(self.personal_bests@) }
    }
}

/// The history entry that a parsed item gives: its event text, when there
/// is one, is the progression.
pub open spec fn history_entry_of(p: ParsedItemView) -> HistoryEntryView {
    HistoryEntryView {
        performance: p.performance,
        performance_value: p.performance_value,
        wind_speed: p.wind_speed,
        hand_measured: p.hand_measured,
        location: p.location,
        country_code: p.country_code,
        date: p.date,
        delta: if p.event_name.len() == 0 {
            None
        } else {
            Some(p.event_name)
        },
    }
}

/// The personal record that a parsed item gives, with no history yet.
pub open spec fn personal_best_of(p: ParsedItemView) -> PersonalBestView {
    PersonalBestView {
        event: p.event_name,
        performance: p.performance,
        performance_value: p.performance_value,
        wind_speed: p.wind_speed,
        hand_measured: p.hand_measured,
        location: p.location,
        country_code: p.country_code,
        date: p.date,
        not_important: p.not_important,
        indoor: p.indoor,
        attribute: p.attribute,
        history: Seq::empty(),
    }
}

/// Whether an item is the header of its list.
pub open spec fn is_list_header(src: ItemView) -> bool {
    class_has(src.class_attr, "list-header"@)
}

/// The history entries of a tab: its items, less headers and items that
/// do not parse.
pub open spec fn history_of(items: Seq<ItemView>) -> Seq<HistoryEntryView>
    decreases items.len(),
{
    if items.len() == 0 {
        Seq::empty()
    } else {
        let init = history_of(items.drop_last());
        if is_list_header(items.last()) {
            init
        } else {
            match parsed_item(items.last()) {
                Some(p) => init.push(history_entry_of(p)),
                None => init,
            }
        }
    }
}

/// The personal records of the records list: its items, less headers and
/// items that do not parse.
pub open spec fn personal_bests_of(items: Seq<ItemView>) -> Seq<PersonalBestView>
    decreases items.len(),
{
    if items.len() == 0 {
        Seq::empty()
    } else {
        let init = personal_bests_of(items.drop_last());
        if is_list_header(items.last()) {
            init
        } else {
            match parsed_item(items.last()) {
                Some(p) => init.push(personal_best_of(p)),
                None => init,
            }
        }
    }
}

fn clone_opt(o: &Option<String>) -> (r: Option<String>)
    ensures
        r == *o,
{
    match o {
        Some(s) => Some(s.clone()),
        None => None,
    }
}

fn clone_value(v: &PerformanceValue) -> (r: PerformanceValue)
    ensures
        r@ == v@,
{
    match v {
        PerformanceValue::Zero => PerformanceValue::Zero,
        PerformanceValue::HoursMinutesSeconds(h, m, s) => PerformanceValue::HoursMinutesSeconds(
            h.clone(),
            m.clone(),
            s.clone(),
        ),
        PerformanceValue::MinutesSeconds(m, s) => PerformanceValue::MinutesSeconds(
            m.clone(),
            s.clone(),
        ),
        PerformanceValue::Plain(t) => PerformanceValue::Plain(t.clone()),
    }
}

/// A copy of a history entry.
pub fn copy_entry(e: &PerformanceHistoryEntry) -> (r: PerformanceHistoryEntry)
    ensures
        r@ == e@,
{
    PerformanceHistoryEntry {
        performance: e.performance.clone(),
        performance_value: clone_value(&e.performance_value),
        wind_speed: clone_opt(&e.wind_speed),
        hand_measured: e.hand_measured,
        location: e.location.clone(),
        country_code: e.country_code.clone(),
        date: e.date.clone(),
        delta: clone_opt(&e.delta),
    }
}

/// A copy of a history.
pub fn copy_history(v: &Vec<PerformanceHistoryEntry>) -> (r: Vec<PerformanceHistoryEntry>)
    ensures
        entries_view(r@) == entries_view(v@),
{
    let mut out: Vec<PerformanceHistoryEntry> = Vec::new();
    let mut i: usize = 0;
    while i < v.len()
        invariant
            0 <= i <= v@.len(),
            entries_view(out@) == entries_view(v@).take(i as int),
        decreases v.len() - i,
    {
        let e = copy_entry(&v[i]);
        let ghost before = entries_view(out@);
        out.push(e);
        assert(entries_view(out@) =~= before.push(e@));
        assert(entries_view(v@).take(i + 1) =~= entries_view(v@).take(i as int).push(v@[i as int]@));
        i += 1;
    }
    assert(entries_view(v@).take(v@.len() as int) =~= entries_view(v@));
    out
}

/// A copy of a personal record whose history is `history`.
fn with_history(b: &MobilePersonalBest, history: Vec<PerformanceHistoryEntry>) -> (r:
    MobilePersonalBest)
    ensures
        r@ == with_history_view(b@, entries_view(history@)),
{
    MobilePersonalBest {
        event: b.event.clone(),
        performance: b.performance.clone(),
        performance_value: clone_value(&b.performance_value),
        wind_speed: clone_opt(&b.wind_speed),
        hand_measured: b.hand_measured,
        location: b.location.clone(),
        country_code: b.country_code.clone(),
        date: b.date.clone(),
        not_important: b.not_important,
        indoor: b.indoor,
        attribute: clone_opt(&b.attribute),
        history,
    }
}

/// `b` with its history replaced by `history`.
pub open spec fn with_history_view(b: PersonalBestView, history: Seq<HistoryEntryView>) -> PersonalBestView {
    PersonalBestView {
        event: b.event,
        performance: b.performance,
        performance_value: b.performance_value,
        wind_speed: b.wind_speed,
        hand_measured: b.hand_measured,
        location: b.location,
        country_code: b.country_code,
        date: b.date,
        not_important: b.not_important,
        indoor: b.indoor,
        attribute: b.attribute,
        history,
    }
}

/// The history entries of a tab's items (`parse_history_tab`).
pub fn history_from_items(items: &Vec<ItemSource>) -> (r: Vec<PerformanceHistoryEntry>)
    ensures
        entries_view(r@) == history_of(items_view(items@)),
{
    let ghost iv = items_view(items@);
    let mut out: Vec<PerformanceHistoryEntry> = Vec::new();
    let mut i: usize = 0;
    while i < items.len()
        invariant
            0 <= i <= items@.len(),
            iv == items_view(items@),
            entries_view(out@) == history_of(iv.take(i as int)),
        decreases items.len() - i,
    {
        let it = &items[i];
        assert(iv.take(i + 1).drop_last() =~= iv.take(i as int));
        assert(iv.take(i + 1).last() == items@[i as int]@);
        if !class_contains(&it.class_attr, "list-header") {
            match parse_item(it) {
                Some(p) => {
                    let ghost pv = p@;
                    let delta = if p.event_name.as_str().unicode_len() == 0 {
                        None
                    } else {
                        Some(p.event_name)
                    };
                    let e = PerformanceHistoryEntry {
                        performance: p.performance,
                        performance_value: p.performance_value,
                        wind_speed: p.wind_speed,
                        hand_measured: p.hand_measured,
                        location: p.location,
                        country_code: p.country_code,
                        date: p.date,
                        delta,
                    };
                    assert(e@ == history_entry_of(pv));
                    let ghost before = entries_view(out@);
                    out.push(e);
                    assert(entries_view(out@) =~= before.push(e@));
                },
                None => {},
            }
        }
        i += 1;
    }
    assert(iv.take(items@.len() as int) =~= iv);
    out
}

/// The personal records of the records list's items, each with no history
/// yet.
pub fn personal_bests_from_items(items: &Vec<ItemSource>) -> (r: Vec<MobilePersonalBest>)
    ensures
        bests_view(r@) == personal_bests_of(items_view(items@)),
{
    let ghost iv = items_view(items@);
    let mut out: Vec<MobilePersonalBest> = Vec::new();
    let mut i: usize = 0;
    while i < items.len()
        invariant
            0 <= i <= items@.len(),
            iv == items_view(items@),
            bests_view(out@) == personal_bests_of(iv.take(i as int)),
        decreases items.len() - i,
    {
        let it = &items[i];
        assert(iv.take(i + 1).drop_last() =~= iv.take(i as int));
        assert(iv.take(i + 1).last() == items@[i as int]@);
        if !class_contains(&it.class_attr, "list-header") {
            match parse_item(it) {
                Some(p) => {
                    let ghost pv = p@;
                    let b = MobilePersonalBest {
                        event: p.event_name,
                        performance: p.performance,
                        performance_value: p.performance_value,
                        wind_speed: p.wind_speed,
                        hand_measured: p.hand_measured,
                        location: p.location,
                        country_code: p.country_code,
                        date: p.date,
                        not_important: p.not_important,
                        indoor: p.indoor,
                        attribute: p.attribute,
                        history: Vec::new(),
                    };
                    assert(entries_view(b.history@) =~= Seq::<HistoryEntryView>::empty());
                    assert(b@ == personal_best_of(pv));
                    let ghost before = bests_view(out@);
                    out.push(b);
                    assert(bests_view(out@) =~= before.push(b@));
                },
                None => {},
            }
        }
        i += 1;
    }
    assert(iv.take(items@.len() as int) =~= iv);
    out
}


// ---------------------------------------------------------------------------
// Matching history tabs to personal records
// ---------------------------------------------------------------------------

/// Whether a tab of history holds the performance of `pb` on its date.
pub open spec fn tab_matches(tab: Seq<HistoryEntryView>, pb: PersonalBestView) -> bool {
    exists|k: int|
        0 <= k < tab.len() && (#[trigger] tab[k]).performance == pb.performance && tab[k].date
            == pb.date
}

/// The first tab in `from..to`, not yet given out, that matches `pb`.
pub open spec fn look_ahead(
    tabs: Seq<Seq<HistoryEntryView>>,
    pb: PersonalBestView,
    from: int,
    to: int,
    given: Set<int>,
) -> Option<int>
    decreases to - from,
{
    if from >= to {
        None
    } else if !given.contains(from) && tab_matches(tabs[from], pb) {
        Some(from)
    } else {
        look_ahead(tabs, pb, from + 1, to, given)
    }
}

/// The tab that `pb` receives when the next tab in line is `next`: that tab
/// when it matches, else the first of the next three tabs (counting it)
/// that matches and was not given out yet.
pub open spec fn chosen_tab(
    tabs: Seq<Seq<HistoryEntryView>>,
    pb: PersonalBestView,
    next: int,
    given: Set<int>,
) -> Option<int> {
    if tab_matches(tabs[next], pb) {
        Some(next)
    } else {
        let end = if next + 3 < tabs.len() {
            next + 3
        } else {
            tabs.len() as int
        };
        look_ahead(tabs, pb, next, end, given)
    }
}

/// The personal records with their histories, from the state in which the
/// next tab in line is `next` and the tabs in `given` were given out. The
/// line only moves on when the tab in line is taken; once it runs past the
/// last tab, the remaining records keep the history they have.
pub open spec fn assign_from(
    prs: Seq<PersonalBestView>,
    tabs: Seq<Seq<HistoryEntryView>>,
    next: int,
    given: Set<int>,
) -> Seq<PersonalBestView>
    decreases prs.len(),
{
    if prs.len() == 0 {
        Seq::empty()
    } else if next < 0 || next >= tabs.len() {
        prs
    } else {
        let pb = prs[0];
        let c = chosen_tab(tabs, pb, next, given);
        let pb2 = match c {
            Some(t) => with_history_view(pb, tabs[t]),
            None => pb,
        };
        let next2 = if c == Some(next) {
            next + 1
        } else {
            next
        };
        let given2 = match c {
            Some(t) => given.insert(t),
            None => given,
        };
        seq![pb2] + assign_from(prs.drop_first(), tabs, next2, given2)
    }
}

/// The personal records with the histories that the tabs give them.
pub open spec fn assign_histories(prs: Seq<PersonalBestView>, tabs: Seq<Seq<HistoryEntryView>>) -> Seq<
    PersonalBestView,
> {
    assign_from(prs, tabs, 0, Set::empty())
}

/// The tabs marked as given out.
pub open spec fn marked(marks: Seq<bool>) -> Set<int> {
    Set::new(|k: int| 0 <= k < marks.len() && marks[k])
}

/// Whether a tab holds the performance of `pb` on its date.
pub fn tab_has_match(tab: &Vec<PerformanceHistoryEntry>, pb: &MobilePersonalBest) -> (r: bool)
    ensures
        r == tab_matches(entries_view(tab@), pb@),
{
    let ghost t = entries_view(tab@);
    let mut k: usize = 0;
    while k < tab.len()
        invariant
            t == entries_view(tab@),
            0 <= k <= tab@.len(),
            forall|j: int|
                0 <= j < k ==> !((#[trigger] t[j]).performance == pb@.performance && t[j].date
                    == pb@.date),
        decreases tab.len() - k,
    {
        let e = &tab[k];
        assert(t[k as int] == e@);
        if same(e.performance.as_str(), pb.performance.as_str()) && same(
            e.date.as_str(),
            pb.date.as_str(),
        ) {
            return true;
        }
        k += 1;
    }
    false
}

fn look_ahead_exec(
    tabs: &Vec<Vec<PerformanceHistoryEntry>>,
    pb: &MobilePersonalBest,
    from: usize,
    to: usize,
    marks: &Vec<bool>,
) -> (r: Option<usize>)
    requires
        to <= tabs.len(),
        marks.len() == tabs.len(),
    ensures
        match r {
            Some(t) => look_ahead(tabs_view(tabs@), pb@, from as int, to as int, marked(marks@))
                == Some(t as int),
            None => look_ahead(tabs_view(tabs@), pb@, from as int, to as int, marked(marks@))
                is None,
        },
{
    let ghost tv = tabs_view(tabs@);
    let ghost given = marked(marks@);
    let mut k = from;
    while k < to
        invariant
            to <= tabs.len(),
            marks.len() == tabs.len(),
            tv == tabs_view(tabs@),
            given == marked(marks@),
            from <= k || to <= from,
            look_ahead(tv, pb@, from as int, to as int, given) == look_ahead(
                tv,
                pb@,
                k as int,
                to as int,
                given,
            ),
        decreases to - k,
    {
        assert(tv[k as int] == entries_view(tabs@[k as int]@));
        assert(given.contains(k as int) == marks@[k as int]);
        if !marks[k] && tab_has_match(&tabs[k], pb) {
            return Some(k);
        }
        k += 1;
    }
    None
}

proof fn lemma_look_ahead_result(
    tabs: Seq<Seq<HistoryEntryView>>,
    pb: PersonalBestView,
    from: int,
    to: int,
    given: Set<int>,
)
    requires
        0 <= from,
        to <= tabs.len(),
    ensures
        look_ahead(tabs, pb, from, to, given) matches Some(t) ==> from <= t < to
            && !given.contains(t) && tab_matches(tabs[t], pb),
    decreases to - from,
{
    if from < to {
        lemma_look_ahead_result(tabs, pb, from + 1, to, given);
    }
}

proof fn lemma_chosen_tab(
    tabs: Seq<Seq<HistoryEntryView>>,
    pb: PersonalBestView,
    next: int,
    given: Set<int>,
)
    requires
        0 <= next < tabs.len(),
    ensures
        chosen_tab(tabs, pb, next, given) matches Some(t) ==> next <= t < tabs.len()
            && tab_matches(tabs[t], pb),
{
    let end = if next + 3 < tabs.len() {
        next + 3
    } else {
        tabs.len() as int
    };
    lemma_look_ahead_result(tabs, pb, next, end, given);
}

/// Gives each personal record the history tab that belongs to it (the
/// matching step of `parse`): the tabs are taken in line, a tab belongs to
/// a record when it holds the record's performance on the record's date,
/// and when the tab in line does not, the next two tabs are tried too.
pub fn assign_history_tabs(
    prs: &Vec<MobilePersonalBest>,
    tabs: &Vec<Vec<PerformanceHistoryEntry>>,
) -> (r: Vec<MobilePersonalBest>)
    ensures
        bests_view(r@) == assign_histories(bests_view(prs@), tabs_view(tabs@)),
{
    let ghost pv = bests_view(prs@);
    let ghost tv = tabs_view(tabs@);
    let mut out: Vec<MobilePersonalBest> = Vec::new();
    let mut marks: Vec<bool> = Vec::new();
    let mut m: usize = 0;
    while m < tabs.len()
        invariant
            0 <= m <= tabs@.len(),
            marks@.len() == m,
            forall|j: int| 0 <= j < m ==> !marks@[j],
        decreases tabs.len() - m,
    {
        marks.push(false);
        m += 1;
    }
    assert(marked(marks@) =~= Set::<int>::empty());
    let mut next: usize = 0;
    let mut i: usize = 0;
    assert(pv.skip(0) =~= pv);
    assert(bests_view(out@) + pv =~= pv);
    while i < prs.len()
        invariant
            pv == bests_view(prs@),
            tv == tabs_view(tabs@),
            0 <= i <= prs@.len(),
            marks@.len() == tabs@.len(),
            assign_histories(pv, tv) == bests_view(out@) + assign_from(
                pv.skip(i as int),
                tv,
                next as int,
                marked(marks@),
            ),
        decreases prs.len() - i,
    {
        let ghost rest = pv.skip(i as int);
        let ghost given = marked(marks@);
        assert(rest[0] == prs@[i as int]@);
        assert(rest.drop_first() =~= pv.skip(i + 1));
        let pb = &prs[i];
        if next >= tabs.len() {
            // The tabs ran out: every remaining record keeps its history.
            let ghost before = bests_view(out@);
            let mut j: usize = i;
            while j < prs.len()
                invariant
                    pv == bests_view(prs@),
                    i <= j <= prs@.len(),
                    bests_view(out@) == before + pv.subrange(i as int, j as int),
                decreases prs.len() - j,
            {
                let b = with_history(&prs[j], copy_history(&prs[j].history));
                assert(b@ == prs@[j as int]@);
                let ghost o = bests_view(out@);
                out.push(b);
                assert(bests_view(out@) =~= o.push(b@));
                assert(pv.subrange(i as int, j + 1) =~= pv.subrange(i as int, j as int).push(
                    pv[j as int],
                ));
                j += 1;
            }
            assert(pv.subrange(i as int, prs@.len() as int) =~= rest);
            return out;
        }
        assert(tv[next as int] == entries_view(tabs@[next as int]@));
        let direct = tab_has_match(&tabs[next], pb);
        let choice: Option<usize> = if direct {
            Some(next)
        } else {
            let end = if tabs.len() >= 3 && next < tabs.len() - 3 {
                next + 3
            } else {
                tabs.len()
            };
            look_ahead_exec(tabs, pb, next, end, &marks)
        };
        assert(match choice {
            Some(t) => chosen_tab(tv, rest[0], next as int, given) == Some(t as int),
            None => chosen_tab(tv, rest[0], next as int, given) is None,
        });
        let ghost o = bests_view(out@);
        let ghost next0 = next as int;
        proof {
            lemma_chosen_tab(tv, rest[0], next as int, given);
        }
        match choice {
            Some(t) => {
                assert(t < tabs.len());
                let b = with_history(pb, copy_history(&tabs[t]));
                assert(tv[t as int] == entries_view(tabs@[t as int]@));
                out.push(b);
                assert(bests_view(out@) =~= o.push(b@));
                marks.set(t, true);
                assert(marked(marks@) =~= given.insert(t as int));
                if t == next {
                    next = next + 1;
                }
            },
            None => {
                let b = with_history(pb, copy_history(&pb.history));
                out.push(b);
                assert(bests_view(out@) =~= o.push(b@));
            },
        }
        assert(bests_view(out@) + assign_from(pv.skip(i + 1), tv, next as int, marked(marks@))
            =~= o + assign_from(rest, tv, next0, given));
        i += 1;
    }
    assert(pv.skip(prs@.len() as int) =~= Seq::<PersonalBestView>::empty());
    assert(bests_view(out@) + Seq::<PersonalBestView>::empty() =~= bests_view(out@));
    out
}


/// Whether `b` is `a` except, perhaps, for its history.
pub open spec fn same_but_history(a: PersonalBestView, b: PersonalBestView) -> bool {
    b == with_history_view(a, b.history)
}

proof fn lemma_assign_from_keeps_records(
    prs: Seq<PersonalBestView>,
    tabs: Seq<Seq<HistoryEntryView>>,
    next: int,
    given: Set<int>,
)
    ensures
        assign_from(prs, tabs, next, given).len() == prs.len(),
        forall|i: int|
            0 <= i < prs.len() ==> {
                let out = #[trigger] assign_from(prs, tabs, next, given)[i];
                &&& same_but_history(prs[i], out)
                &&& (out.history == prs[i].history || exists|t: int|
                    0 <= t < tabs.len() && out.history == tabs[t] && tab_matches(tabs[t], prs[i]))
            },
    decreases prs.len(),
{
    if prs.len() == 0 || next < 0 || next >= tabs.len() {
    } else {
        let pb = prs[0];
        let c = chosen_tab(tabs, pb, next, given);
        lemma_chosen_tab(tabs, pb, next, given);
        let next2 = if c == Some(next) {
            next + 1
        } else {
            next
        };
        let given2 = match c {
            Some(t) => given.insert(t),
            None => given,
        };
        lemma_assign_from_keeps_records(prs.drop_first(), tabs, next2, given2);
        let out = assign_from(prs, tabs, next, given);
        assert forall|i: int| 0 <= i < prs.len() implies {
            let o = #[trigger] out[i];
            &&& same_but_history(prs[i], o)
            &&& (o.history == prs[i].history || exists|t: int|
                0 <= t < tabs.len() && o.history == tabs[t] && tab_matches(tabs[t], prs[i]))
        } by {
            if i == 0 {
                match c {
                    Some(t) => {
                        assert(out[0].history == tabs[t]);
                    },
                    None => {},
                }
            } else {
                assert(out[i] == assign_from(prs.drop_first(), tabs, next2, given2)[i - 1]);
                assert(prs.drop_first()[i - 1] == prs[i]);
            }
        }
    }
}

/// Matching history tabs keeps the personal records, their number and
/// order, and everything in them but their history; and a record only ever
/// receives a tab that holds the record's own performance on its own date.
pub proof fn law_history_only_from_matching_tab(
    prs: Seq<PersonalBestView>,
    tabs: Seq<Seq<HistoryEntryView>>,
)
    ensures
        assign_histories(prs, tabs).len() == prs.len(),
        forall|i: int|
            0 <= i < prs.len() ==> {
                let out = #[trigger] assign_histories(prs, tabs)[i];
                &&& same_but_history(prs[i], out)
                &&& (out.history == prs[i].history || exists|t: int|
                    0 <= t < tabs.len() && out.history == tabs[t] && tab_matches(tabs[t], prs[i]))
            },
{
    lemma_assign_from_keeps_records(prs, tabs, 0, Set::empty());
}

proof fn lemma_assign_from_in_line(
    prs: Seq<PersonalBestView>,
    tabs: Seq<Seq<HistoryEntryView>>,
    next: int,
    given: Set<int>,
)
    requires
        0 <= next,
        forall|i: int|
            0 <= i < prs.len() && next + i < tabs.len() ==> tab_matches(
                #[trigger] tabs[next + i],
                prs[i],
            ),
    ensures
        forall|i: int|
            0 <= i < prs.len() && next + i < tabs.len() ==> (#[trigger] assign_from(
                prs,
                tabs,
                next,
                given,
            )[i]).history == tabs[next + i],
    decreases prs.len(),
{
    if prs.len() == 0 || next >= tabs.len() {
    } else {
        assert(tab_matches(tabs[next + 0], prs[0]));
        let rest = prs.drop_first();
        assert forall|i: int|
            0 <= i < rest.len() && (next + 1) + i < tabs.len() implies tab_matches(
            #[trigger] tabs[(next + 1) + i],
            rest[i],
        ) by {
            assert(tabs[next + (i + 1)] == tabs[(next + 1) + i]);
            assert(rest[i] == prs[i + 1]);
        }
        lemma_assign_from_in_line(rest, tabs, next + 1, given.insert(next));
        lemma_assign_from_keeps_records(rest, tabs, next + 1, given.insert(next));
        assert(chosen_tab(tabs, prs[0], next, given) == Some(next));
        let out = assign_from(prs, tabs, next, given);
        assert forall|i: int| 0 <= i < prs.len() && next + i < tabs.len() implies (
        #[trigger] out[i]).history == tabs[next + i] by {
            if i > 0 {
                assert(out[i] == assign_from(rest, tabs, next + 1, given.insert(next))[i - 1]);
                assert(tabs[(next + 1) + (i - 1)] == tabs[next + i]);
            }
        }
    }
}

/// When the tabs stand in the order of the records, each holding its
/// record's performance, each record receives the tab in its own place.
pub proof fn law_tabs_in_order_go_to_records_in_order(
    prs: Seq<PersonalBestView>,
    tabs: Seq<Seq<HistoryEntryView>>,
)
    requires
        forall|i: int| 0 <= i < prs.len() && i < tabs.len() ==> tab_matches(#[trigger] tabs[i], prs[i]),
    ensures
        forall|i: int|
            0 <= i < prs.len() && i < tabs.len() ==> (#[trigger] assign_histories(prs, tabs)[i]).history
                == tabs[i],
{
    assert forall|i: int| 0 <= i < prs.len() && 0 + i < tabs.len() implies tab_matches(
        #[trigger] tabs[0 + i],
        prs[i],
    ) by {
        assert(tabs[0 + i] == tabs[i]);
    }
    lemma_assign_from_in_line(prs, tabs, 0, Set::empty());
    assert forall|i: int| 0 <= i < prs.len() && i < tabs.len() implies (#[trigger] assign_histories(
        prs,
        tabs,
    )[i]).history == tabs[i] by {
        assert(tabs[0 + i] == tabs[i]);
    }
}


// ---------------------------------------------------------------------------
// The athlete's name
// ---------------------------------------------------------------------------

/// The athlete's name: the text of `h3.no-margin-bottom`, trimmed, with
/// double spaces made single; when that is empty, the trimmed text of
/// `.title`; an error when that is missing too.
pub open spec fn athlete_name_of(
    heading: Option<Seq<Seq<char>>>,
    title: Option<Seq<Seq<char>>>,
) -> Result<Seq<char>, ParseError> {
    let name = match heading {
        Some(t) => replaced(trimmed(joined(t)), "  "@, " "@),
        None => Seq::empty(),
    };
    if name.len() == 0 {
        match title {
            Some(t) => Ok(trimmed(joined(t))),
            None => Err(ParseError::MissingAthleteName),
        }
    } else {
        Ok(name)
    }
}

/// A result whose value is a string, taken by its view.
pub open spec fn result_view(r: Result<String, ParseError>) -> Result<Seq<char>, ParseError> {
    match r {
        Ok(s) => Ok(s@),
        Err(e) => Err(e),
    }
}

/// The athlete's name from the text nodes of `h3.no-margin-bottom` and of
/// `.title`, each when the page has one.
pub fn name_from_texts(heading: &Option<Vec<String>>, title: &Option<Vec<String>>) -> (r: Result<
    String,
    ParseError,
>)
    ensures
        result_view(r) == athlete_name_of(
            crate::text::opt_seq_view(*heading),
            crate::text::opt_seq_view(*title),
        ),
{
    proof {
        reveal_strlit("  ");
    }
    let name = match heading {
        Some(t) => replace(trim(join_texts(t).as_str()).as_str(), "  ", " "),
        None => String::new(),
    };
    if name.as_str().unicode_len() == 0 {
        match title {
            Some(t) => Ok(trim(join_texts(t).as_str())),
            None => Err(ParseError::MissingAthleteName),
        }
    } else {
        Ok(name)
    }
}

/// The text nodes of the first element of the page that `css` picks, when
/// the page has one.
pub open spec fn first_texts_in_document(page: Seq<char>, css: Seq<char>) -> Option<
    Seq<Seq<char>>,
> {
    match first_in_document(page, css) {
        Some(e) => Some(texts_of(e)),
        None => None,
    }
}

/// The text nodes of the first element of `page` that `c` picks.
fn page_texts_of_first(page: &Page, c: &Css) -> (r: Option<Vec<String>>)
    ensures
        opt_seq_view(r) == first_texts_in_document(page@, c@),
{
    match first_in_page(page, c) {
        Some(e) => Some(texts(&e)),
        None => None,
    }
}

/// The athlete's name, from the page of the `do=get` mobile endpoint: fails
/// with `ParseError::InvalidSelector` when a selector does not compile, and
/// otherwise as `athlete_name_of` says of the texts of the page's first
/// `h3.no-margin-bottom` and first `.title`.
pub fn parse_name(html: &Page) -> (r: Result<String, ParseError>)
    ensures
        !name_selectors_compile() ==> r == Err::<String, ParseError>(ParseError::InvalidSelector),
        name_selectors_compile() ==> result_view(r) == athlete_name_of(
            first_texts_in_document(html@, HEADING_SELECTOR@),
            first_texts_in_document(html@, TITLE_SELECTOR@),
        ),
{
    let heading_css = css(HEADING_SELECTOR)?;
    let title_css = css(TITLE_SELECTOR)?;
    let heading = page_texts_of_first(html, &heading_css);
    let title = page_texts_of_first(html, &title_css);
    name_from_texts(&heading, &title)
}

// ---------------------------------------------------------------------------
// Reading the page
// ---------------------------------------------------------------------------

/// The compiled selectors of the records parser.
struct Selectors {
    list: Css,
    record_item: Css,
    tab: Css,
    tab_item: Css,
    event: Css,
    item_title: Css,
    footer: Css,
    footer_span: Css,
    result_footer: Css,
    location: Css,
    badge: Css,
    flag: Css,
}

impl Selectors {
    spec fn wf(&self) -> bool {
        &&& self.list@ == LIST_SELECTOR@
        &&& self.record_item@ == RECORD_ITEM_SELECTOR@
        &&& self.tab@ == TAB_SELECTOR@
        &&& self.tab_item@ == TAB_ITEM_SELECTOR@
        &&& self.event@ == EVENT_SELECTOR@
        &&& self.item_title@ == ITEM_TITLE_SELECTOR@
        &&& self.footer@ == FOOTER_SELECTOR@
        &&& self.footer_span@ == FOOTER_SPAN_SELECTOR@
        &&& self.result_footer@ == RESULT_FOOTER_SELECTOR@
        &&& self.location@ == LOCATION_SELECTOR@
        &&& self.badge@ == BADGE_SELECTOR@
        &&& self.flag@ == FLAG_SELECTOR@
    }
}

/// Compiles the selectors of the records parser.
fn selectors() -> (r: Result<Selectors, ParseError>)
    ensures
        match r {
            Ok(s) => selectors_compile() && s.wf(),
            Err(e) => e == ParseError::InvalidSelector && !selectors_compile(),
        },
{
    Ok(
        Selectors {
            list: css(LIST_SELECTOR)?,
            record_item: css(RECORD_ITEM_SELECTOR)?,
            tab: css(TAB_SELECTOR)?,
            tab_item: css(TAB_ITEM_SELECTOR)?,
            event: css(EVENT_SELECTOR)?,
            item_title: css(ITEM_TITLE_SELECTOR)?,
            footer: css(FOOTER_SELECTOR)?,
            footer_span: css(FOOTER_SPAN_SELECTOR)?,
            result_footer: css(RESULT_FOOTER_SELECTOR)?,
            location: css(LOCATION_SELECTOR)?,
            badge: css(BADGE_SELECTOR)?,
            flag: css(FLAG_SELECTOR)?,
        },
    )
}

/// Reads what the parser needs of one `<li>` of a results list.
fn read_item(li: &Element, sel: &Selectors) -> (r: ItemSource)
    requires
        sel.wf(),
    ensures
        r@ == item_at(li@),
{
    let class_attr = attr(li, "class");
    let event = match first_in(li, &sel.event) {
        Some(ev) => Some(
            EventSource {
                texts: texts(&ev),
                badge_texts: texts_of_first(&ev, &sel.badge),
                footer_texts: texts_of_first(&ev, &sel.footer),
            },
        ),
        None => None,
    };
    let performance = match first_in(li, &sel.item_title) {
        Some(pf) => {
            let wind = match first_in(&pf, &sel.footer_span) {
                Some(e) => Some(e),
                None => match first_in(&pf, &sel.result_footer) {
                    Some(e) => Some(e),
                    None => first_in(&pf, &sel.footer),
                },
            };
            let wind_texts = match wind {
                Some(w) => Some(texts(&w)),
                None => None,
            };
            Some(PerformanceSource { texts: texts(&pf), wind_texts })
        },
        None => None,
    };
    let location = match first_in(li, &sel.location) {
        Some(loc) => {
            let footer = match first_in(&loc, &sel.result_footer) {
                Some(f) => {
                    let flag_src = match first_in(&f, &sel.flag) {
                        Some(img) => attr(&img, "src"),
                        None => None,
                    };
                    Some(LocationFooterSource { texts: texts(&f), flag_src })
                },
                None => None,
            };
            Some(LocationSource { texts: texts(&loc), footer })
        },
        None => None,
    };
    ItemSource { class_attr, event, performance, location }
}

/// Reads what the parser needs of each `<li>` that `c` picks under `el`.
fn read_items(el: &Element, c: &Css, sel: &Selectors) -> (r: Vec<ItemSource>)
    requires
        sel.wf(),
    ensures
        items_view(r@) == items_at(el@, c@),
{
    let lis = select_from(el, c);
    let mut items: Vec<ItemSource> = Vec::new();
    let mut i: usize = 0;
    while i < lis.len()
        invariant
            0 <= i <= lis@.len(),
            sel.wf(),
            items@.len() == i,
            spots(lis@) == picked_spots(el@, c@),
            forall|j: int| 0 <= j < i ==> (#[trigger] items@[j])@ == item_at(lis@[j]@),
        decreases lis.len() - i,
    {
        items.push(read_item(&lis[i], sel));
        i += 1;
    }
    proof {
        assert forall|j: int| 0 <= j < items@.len() implies items_view(items@)[j] == items_at(
            el@,
            c@,
        )[j] by {
            assert(spots(lis@)[j] == lis@[j]@);
        }
        assert(items_view(items@) =~= items_at(el@, c@));
    }
    items
}

/// The histories that the tabs give, tab by tab.
pub open spec fn tab_histories(tabs: Seq<Seq<ItemView>>) -> Seq<Seq<HistoryEntryView>> {
    tabs.map_values(|t: Seq<ItemView>| history_of(t))
}

/// The profile that the records list and the history tabs give.
pub open spec fn profile_of(
    name: Seq<char>,
    records: Seq<ItemView>,
    tabs: Seq<Seq<ItemView>>,
) -> AthleteProfileView {
    AthleteProfileView {
        name,
        personal_bests: assign_histories(personal_bests_of(records), tab_histories(tabs)),
    }
}

/// The profile from what was read of the page: the items of the records
/// list, and the items of each history tab.
pub fn profile_from_items(
    name: String,
    records: &Vec<ItemSource>,
    tabs: &Vec<Vec<ItemSource>>,
) -> (r: MobileAthleteProfile)
    ensures
        r@ == profile_of(name@, items_view(records@), tabs_items_view(tabs@)),
{
    let ghost th = tab_histories(tabs_items_view(tabs@));
    let bests = personal_bests_from_items(records);
    let mut histories: Vec<Vec<PerformanceHistoryEntry>> = Vec::new();
    let mut i: usize = 0;
    while i < tabs.len()
        invariant
            0 <= i <= tabs@.len(),
            th == tab_histories(tabs_items_view(tabs@)),
            tabs_view(histories@) == th.take(i as int),
        decreases tabs.len() - i,
    {
        let h = history_from_items(&tabs[i]);
        let ghost before = tabs_view(histories@);
        histories.push(h);
        assert(tabs_view(histories@) =~= before.push(entries_view(h@)));
        assert(th.take(i + 1) =~= th.take(i as int).push(history_of(items_view(tabs@[i as int]@))));
        i += 1;
    }
    assert(th.take(tabs@.len() as int) =~= th);
    let personal_bests = assign_history_tabs(&bests, &histories);
    MobileAthleteProfile { name, personal_bests }
}

/// Parses the mobile records page of an athlete: fails with
/// `ParseError::InvalidSelector` when a selector does not compile, and with
/// `ParseError::MissingResultsList` when the page has no records list;
/// otherwise gives the profile that the records list and the history tabs
/// give. The `name` is fetched separately from the `do=get` endpoint (see
/// `parse_name`) and is kept as it is.
pub fn parse(html: &Page, name: String) -> (r: Result<MobileAthleteProfile, ParseError>)
    ensures
        match r {
            Ok(p) => {
                &&& selectors_compile()
                &&& first_in_document(html@, LIST_SELECTOR@) is Some
                &&& p@ == profile_of(name@, page_records(html@), page_tabs(html@))
            },
            Err(e) => (e == ParseError::InvalidSelector && !selectors_compile()) || (e
                == ParseError::MissingResultsList && selectors_compile() && first_in_document(
                html@,
                LIST_SELECTOR@,
            ) is None),
        },
{
    let sel = selectors()?;
    let container = match first_in_page(html, &sel.list) {
        Some(c) => c,
        None => return Err(ParseError::MissingResultsList),
    };
    let records = read_items(&container, &sel.record_item, &sel);
    let tab_elements = select_page(html, &sel.tab);
    let mut tabs: Vec<Vec<ItemSource>> = Vec::new();
    let mut i: usize = 0;
    while i < tab_elements.len()
        invariant
            0 <= i <= tab_elements@.len(),
            sel.wf(),
            tabs@.len() == i,
            spots(tab_elements@) == document_spots(html@, TAB_SELECTOR@),
            forall|j: int|
                0 <= j < i ==> items_view((#[trigger] tabs@[j])@) == items_at(
                    tab_elements@[j]@,
                    TAB_ITEM_SELECTOR@,
                ),
        decreases tab_elements.len() - i,
    {
        tabs.push(read_items(&tab_elements[i], &sel.tab_item, &sel));
        i += 1;
    }
    proof {
        assert forall|j: int| 0 <= j < tabs@.len() implies tabs_items_view(tabs@)[j] == page_tabs(
            html@,
        )[j] by {
            assert(spots(tab_elements@)[j] == tab_elements@[j]@);
        }
        assert(tabs_items_view(tabs@) =~= page_tabs(html@));
    }
    let p = profile_from_items(name, &records, &tabs);
    Ok(p)
}

/// A personal record only ever receives a history tab that holds an entry
/// with both the record's performance and the record's date; a tab that
/// only shares the date, or only the performance, is never given to it.
/// A record that receives no tab keeps the history it had.
pub proof fn law_received_tab_holds_the_record(
    prs: Seq<PersonalBestView>,
    tabs: Seq<Seq<HistoryEntryView>>,
)
    ensures
        forall|i: int|
            0 <= i < prs.len() && (#[trigger] assign_histories(prs, tabs)[i]).history
                != prs[i].history ==> exists|t: int, k: int|
                0 <= t < tabs.len() && 0 <= k < tabs[t].len() && assign_histories(prs, tabs)[i].history
                    == tabs[t] && (#[trigger] tabs[t][k]).performance == prs[i].performance
                    && tabs[t][k].date == prs[i].date,
{
    law_history_only_from_matching_tab(prs, tabs);
    let out = assign_histories(prs, tabs);
    assert forall|i: int|
        0 <= i < prs.len() && (#[trigger] assign_histories(prs, tabs)[i]).history
            != prs[i].history implies exists|t: int, k: int|
        0 <= t < tabs.len() && 0 <= k < tabs[t].len() && assign_histories(prs, tabs)[i].history
            == tabs[t] && (#[trigger] tabs[t][k]).performance == prs[i].performance
            && tabs[t][k].date == prs[i].date by {
        let t = choose|t: int|
            0 <= t < tabs.len() && out[i].history == tabs[t] && tab_matches(tabs[t], prs[i]);
        let k = choose|k: int|
            0 <= k < tabs[t].len() && (#[trigger] tabs[t][k]).performance == prs[i].performance
                && tabs[t][k].date == prs[i].date;
        assert(tabs[t][k].performance == prs[i].performance);
    }
}

/// When every tab stands in the place of its record and holds an entry with
/// that record's performance and date, each record receives the tab in its
/// own place.
pub proof fn law_record_gets_its_own_tab(prs: Seq<PersonalBestView>, tabs: Seq<Seq<HistoryEntryView>>)
    requires
        forall|i: int|
            0 <= i < prs.len() && i < tabs.len() ==> exists|k: int|
                0 <= k < tabs[i].len() && (#[trigger] tabs[i][k]).performance == (
                #[trigger] prs[i]).performance && tabs[i][k].date == prs[i].date,
    ensures
        forall|i: int|
            0 <= i < prs.len() && i < tabs.len() ==> (#[trigger] assign_histories(prs, tabs)[i]).history
                == tabs[i],
{
    assert forall|i: int| 0 <= i < prs.len() && i < tabs.len() implies tab_matches(
        #[trigger] tabs[i],
        prs[i],
    ) by {
        let k = choose|k: int|
            0 <= k < tabs[i].len() && (#[trigger] tabs[i][k]).performance == prs[i].performance
                && tabs[i][k].date == prs[i].date;
        assert(tabs[i][k].performance == prs[i].performance);
    }
    law_tabs_in_order_go_to_records_in_order(prs, tabs);
}

/// A first record that no tab holds (no tab has an entry with both its
/// performance and its date) keeps its history, takes no tab, and the other
/// records receive the tabs as if it were not there.
pub proof fn law_unmatched_first_record_takes_nothing(
    prs: Seq<PersonalBestView>,
    tabs: Seq<Seq<HistoryEntryView>>,
)
    requires
        prs.len() > 0,
        forall|t: int, k: int|
            0 <= t < tabs.len() && 0 <= k < tabs[t].len() ==> !((#[trigger] tabs[t][k]).performance
                == prs[0].performance && tabs[t][k].date == prs[0].date),
    ensures
        assign_histories(prs, tabs) == seq![prs[0]] + assign_histories(prs.drop_first(), tabs),
{
    if tabs.len() == 0 {
        assert(prs =~= seq![prs[0]] + prs.drop_first());
    } else {
        lemma_chosen_tab(tabs, prs[0], 0, Set::empty());
        let c = chosen_tab(tabs, prs[0], 0, Set::empty());
        if c is Some {
            let t = c->Some_0;
            let k = choose|k: int|
                0 <= k < tabs[t].len() && (#[trigger] tabs[t][k]).performance == prs[0].performance
                    && tabs[t][k].date == prs[0].date;
            assert(!(tabs[t][k].performance == prs[0].performance && tabs[t][k].date
                == prs[0].date));
        }
    }
}

/// The history entries of a tab are read exactly as records are read from
/// the same items: as many, in the same order, each with the record's
/// performance, its value, wind, hand timing, location, country and date;
/// the record's event text, when there is one, is the entry's progression.
pub proof fn law_history_entries_read_as_records(items: Seq<ItemView>)
    ensures
        history_of(items).len() == personal_bests_of(items).len(),
        forall|k: int|
            0 <= k < history_of(items).len() ==> {
                let h = #[trigger] history_of(items)[k];
                let b = personal_bests_of(items)[k];
                &&& h.performance == b.performance
                &&& h.performance_value == b.performance_value
                &&& h.wind_speed == b.wind_speed
                &&& h.hand_measured == b.hand_measured
                &&& h.location == b.location
                &&& h.country_code == b.country_code
                &&& h.date == b.date
                &&& h.delta == (if b.event.len() == 0 {
                    None
                } else {
                    Some(b.event)
                })
            },
    decreases items.len(),
{
    if items.len() > 0 {
        law_history_entries_read_as_records(items.drop_last());
        let hi = history_of(items.drop_last());
        let bi = personal_bests_of(items.drop_last());
        let h = history_of(items);
        let b = personal_bests_of(items);
        assert forall|k: int| 0 <= k < h.len() implies {
            let x = #[trigger] h[k];
            let y = b[k];
            &&& x.performance == y.performance
            &&& x.performance_value == y.performance_value
            &&& x.wind_speed == y.wind_speed
            &&& x.hand_measured == y.hand_measured
            &&& x.location == y.location
            &&& x.country_code == y.country_code
            &&& x.date == y.date
            &&& x.delta == (if y.event.len() == 0 {
                None
            } else {
                Some(y.event)
            })
        } by {
            if k < hi.len() {
                assert(h[k] == hi[k]);
                assert(b[k] == bi[k]);
            }
        }
    }
}

/// Every history entry of a tab comes from an item of the tab that is not
/// the list's header and has an event and a performance: its location is
/// the trimmed text of that item's `.location > .result-footer-details`
/// (empty without one), its date the first text of the item's `.location`
/// that is not blank, and its performance the first text of the item's
/// `.item-title` that is not blank.
pub proof fn law_history_entry_comes_from_an_item(items: Seq<ItemView>)
    ensures
        forall|k: int|
            0 <= k < history_of(items).len() ==> exists|j: int|
                0 <= j < items.len() && !is_list_header(#[trigger] items[j]) && items[j].event is Some
                    && items[j].performance is Some && (#[trigger] history_of(items)[k]).location
                    == match items[j].location {
                    Some(loc) => match loc.footer {
                        Some(f) => trimmed(joined(f.texts)),
                        None => Seq::<char>::empty(),
                    },
                    None => Seq::<char>::empty(),
                } && history_of(items)[k].date == match items[j].location {
                    Some(loc) => first_text(loc.texts),
                    None => Seq::<char>::empty(),
                } && history_of(items)[k].performance == first_text(
                    items[j].performance->Some_0.texts,
                ),
    decreases items.len(),
{
    if items.len() > 0 {
        let init = items.drop_last();
        law_history_entry_comes_from_an_item(init);
        let hi = history_of(init);
        let h = history_of(items);
        assert forall|k: int| 0 <= k < h.len() implies exists|j: int|
            0 <= j < items.len() && !is_list_header(#[trigger] items[j]) && items[j].event is Some
                && items[j].performance is Some && (#[trigger] h[k]).location == match items[j].location {
                Some(loc) => match loc.footer {
                    Some(f) => trimmed(joined(f.texts)),
                    None => Seq::<char>::empty(),
                },
                None => Seq::<char>::empty(),
            } && h[k].date == match items[j].location {
                Some(loc) => first_text(loc.texts),
                None => Seq::<char>::empty(),
            } && h[k].performance == first_text(items[j].performance->Some_0.texts) by {
            if k < hi.len() {
                assert(h[k] == hi[k]);
                let j = choose|j: int|
                    0 <= j < init.len() && !is_list_header(#[trigger] init[j]) && init[j].event is Some
                        && init[j].performance is Some && hi[k].location == match init[j].location {
                        Some(loc) => match loc.footer {
                            Some(f) => trimmed(joined(f.texts)),
                            None => Seq::<char>::empty(),
                        },
                        None => Seq::<char>::empty(),
                    } && hi[k].date == match init[j].location {
                        Some(loc) => first_text(loc.texts),
                        None => Seq::<char>::empty(),
                    } && hi[k].performance == first_text(init[j].performance->Some_0.texts);
                assert(init[j] == items[j]);
            } else {
                let j = items.len() - 1;
                assert(items[j] == items.last());
            }
        }
    }
}

/// An item gives a parsed result exactly when it has an `.onderdeel` and an
/// `.item-title`. The performance is the first text of the `.item-title`
/// that is not blank, trimmed; it is hand-timed exactly when it ends with
/// `h`; the result is indoor exactly when a text of the event's badge,
/// lowercased, holds `indoor`; it is of lesser importance exactly when the
/// item's `class` holds `notThatImportant`; the attribute is the event
/// footer's text unless blank; the date is the first text of `.location`
/// that is not blank, and the location the trimmed text of its
/// `.result-footer-details`.
pub proof fn law_parsed_item_fields(src: ItemView)
    ensures
        parsed_item(src) is Some <==> (src.event is Some && src.performance is Some),
        parsed_item(src) matches Some(p) ==> {
            let ev = src.event->Some_0;
            let pf = src.performance->Some_0;
            &&& p.performance == first_text(pf.texts)
            &&& p.hand_measured == (p.performance.len() > 0 && p.performance.last() == 'h')
            &&& p.indoor == match ev.badge_texts {
                Some(b) => exists|i: int|
                    0 <= i < b.len() && has_sub(lowercase(#[trigger] b[i]), "indoor"@),
                None => false,
            }
            &&& p.not_important == match src.class_attr {
                Some(c) => has_sub(c, "notThatImportant"@),
                None => false,
            }
            &&& p.attribute == match ev.footer_texts {
                Some(f) => if trimmed(joined(f)).len() > 0 {
                    Some(trimmed(joined(f)))
                } else {
                    None
                },
                None => None,
            }
            &&& p.date == match src.location {
                Some(loc) => first_text(loc.texts),
                None => Seq::<char>::empty(),
            }
            &&& p.location == match src.location {
                Some(loc) => match loc.footer {
                    Some(f) => trimmed(joined(f.texts)),
                    None => Seq::<char>::empty(),
                },
                None => Seq::<char>::empty(),
            }
            &&& p.country_code == match src.location {
                Some(loc) => match loc.footer {
                    Some(f) => match f.flag_src {
                        Some(fs) => country_code_in(fs),
                        None => Seq::<char>::empty(),
                    },
                    None => Seq::<char>::empty(),
                },
                None => Seq::<char>::empty(),
            }
            &&& p.performance_value == performance_value_of(p.performance)
        },
{
}

/// The personal records are, in order, the record of every item that is
/// not the list's header and gives a parsed result; each record carries
/// that result's fields and no history yet.
pub proof fn law_records_keep_every_item(items: Seq<ItemView>)
    ensures
        personal_bests_of(items) == items.filter_map(
            |it: ItemView|
                if is_list_header(it) {
                    None
                } else {
                    match parsed_item(it) {
                        Some(p) => Some(personal_best_of(p)),
                        None => None,
                    }
                },
        ),
        history_of(items) == items.filter_map(
            |it: ItemView|
                if is_list_header(it) {
                    None
                } else {
                    match parsed_item(it) {
                        Some(p) => Some(history_entry_of(p)),
                        None => None,
                    }
                },
        ),
        forall|k: int|
            0 <= k < personal_bests_of(items).len() ==> (#[trigger] personal_bests_of(
                items,
            )[k]).history.len() == 0,
    decreases items.len(),
{
    if items.len() > 0 {
        let init = items.drop_last();
        law_records_keep_every_item(init);
        let f = |it: ItemView|
            if is_list_header(it) {
                None
            } else {
                match parsed_item(it) {
                    Some(p) => Some(personal_best_of(p)),
                    None => None,
                }
            };
        let g = |it: ItemView|
            if is_list_header(it) {
                None
            } else {
                match parsed_item(it) {
                    Some(p) => Some(history_entry_of(p)),
                    None => None,
                }
            };
        match f(items.last()) {
            Some(b) => {
                assert(personal_bests_of(items) =~= init.filter_map(f) + seq![b]);
            },
            None => {},
        }
        match g(items.last()) {
            Some(h) => {
                assert(history_of(items) =~= init.filter_map(g) + seq![h]);
            },
            None => {},
        }
        let r = personal_bests_of(items);
        let ri = personal_bests_of(init);
        assert forall|k: int| 0 <= k < r.len() implies (#[trigger] r[k]).history.len() == 0 by {
            if k < ri.len() {
                assert(r[k] == ri[k]);
            }
        }
    }
}

proof fn lemma_look_ahead_first(
    tabs: Seq<Seq<HistoryEntryView>>,
    pb: PersonalBestView,
    from: int,
    to: int,
    given: Set<int>,
)
    ensures
        look_ahead(tabs, pb, from, to, given) matches Some(t) ==> from <= t < to && !given.contains(
            t,
        ) && tab_matches(tabs[t], pb) && forall|s: int|
            from <= s < t ==> given.contains(s) || !tab_matches(#[trigger] tabs[s], pb),
        look_ahead(tabs, pb, from, to, given) is None ==> forall|s: int|
            from <= s < to ==> given.contains(s) || !tab_matches(#[trigger] tabs[s], pb),
    decreases to - from,
{
    if from < to {
        lemma_look_ahead_first(tabs, pb, from + 1, to, given);
    }
}

/// The first record receives the first of the first three tabs that holds
/// an entry with both its performance and its date, and keeps its history
/// when none of them does.
pub proof fn law_first_record_takes_first_holding_tab(
    prs: Seq<PersonalBestView>,
    tabs: Seq<Seq<HistoryEntryView>>,
    t: int,
)
    requires
        prs.len() > 0,
        0 <= t < tabs.len(),
        t < 3,
    ensures
        (exists|k: int|
            0 <= k < tabs[t].len() && (#[trigger] tabs[t][k]).performance == prs[0].performance
                && tabs[t][k].date == prs[0].date) && (forall|s: int, k: int|
            0 <= s < t && 0 <= k < tabs[s].len() ==> !((#[trigger] tabs[s][k]).performance
                == prs[0].performance && tabs[s][k].date == prs[0].date)) ==> assign_histories(
            prs,
            tabs,
        )[0].history == tabs[t],
        (forall|s: int, k: int|
            0 <= s < tabs.len() && s < 3 && 0 <= k < tabs[s].len() ==> !((#[trigger] tabs[s][k]).performance
                == prs[0].performance && tabs[s][k].date == prs[0].date)) ==> assign_histories(
            prs,
            tabs,
        )[0].history == prs[0].history,
{
    let pb = prs[0];
    let end = if 0 + 3 < tabs.len() {
        3
    } else {
        tabs.len() as int
    };
    lemma_look_ahead_first(tabs, pb, 0, end, Set::empty());
    let c = chosen_tab(tabs, pb, 0, Set::empty());
    let out = assign_histories(prs, tabs);
    assert(out[0] == match c {
        Some(x) => with_history_view(pb, tabs[x]),
        None => pb,
    });
    if (exists|k: int|
        0 <= k < tabs[t].len() && (#[trigger] tabs[t][k]).performance == pb.performance
            && tabs[t][k].date == pb.date) && (forall|s: int, k: int|
        0 <= s < t && 0 <= k < tabs[s].len() ==> !((#[trigger] tabs[s][k]).performance
            == pb.performance && tabs[s][k].date == pb.date)) {
        assert(tab_matches(tabs[t], pb));
        assert forall|s: int| 0 <= s < t implies !tab_matches(#[trigger] tabs[s], pb) by {
            if tab_matches(tabs[s], pb) {
                let k = choose|k: int|
                    0 <= k < tabs[s].len() && (#[trigger] tabs[s][k]).performance == pb.performance
                        && tabs[s][k].date == pb.date;
                assert(!(tabs[s][k].performance == pb.performance && tabs[s][k].date == pb.date));
            }
        }
        if tab_matches(tabs[0], pb) {
            assert(t == 0);
        } else {
            assert(c == look_ahead(tabs, pb, 0, end, Set::empty()));
            match c {
                Some(x) => {
                    assert(x == t);
                },
                None => {
                    assert(!tab_matches(tabs[t], pb));
                },
            }
        }
    }
    if forall|s: int, k: int|
        0 <= s < tabs.len() && s < 3 && 0 <= k < tabs[s].len() ==> !((#[trigger] tabs[s][k]).performance
            == pb.performance && tabs[s][k].date == pb.date) {
        assert forall|s: int| 0 <= s < end implies !tab_matches(#[trigger] tabs[s], pb) by {
            if tab_matches(tabs[s], pb) {
                let k = choose|k: int|
                    0 <= k < tabs[s].len() && (#[trigger] tabs[s][k]).performance == pb.performance
                        && tabs[s][k].date == pb.date;
                assert(!(tabs[s][k].performance == pb.performance && tabs[s][k].date == pb.date));
            }
        }
        assert(!tab_matches(tabs[0], pb));
        match c {
            Some(x) => {
                assert(tab_matches(tabs[x], pb));
            },
            None => {},
        }
    }
}

} // verus!
