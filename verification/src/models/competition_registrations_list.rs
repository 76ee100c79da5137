//! The competitions an athlete registered for, from the table
//! `div#wedstrijden > table#persoonlijkerecords` of the athlete's page.

use vstd::prelude::*;
use crate::calendar::{date_of_triple, parsed_date, read_date, CalendarDate};
use crate::error::ParseError;
use crate::html::{
    attr, attribute_of, css, css_compiles, first_in, first_picked, picked_spots, select_from,
    spots, texts, texts_of, Css, Element, Spot,
};
use crate::pattern::{captured, captured_group, regex_captures, group};
use crate::text::{
    first_nonblank, first_nonblank_trimmed, digits_of, only_digits, opt_seq_view, opt_view,
    parse_u32, seq_view, trim, trimmed, unsigned_value,
};

verus! {

/// The pattern of a participant's id in the address of their page.
pub const PARTICIPANT_ID_PATTERN: &'static str = r#"https://www.athletics.app/atleet/main/([\d]{0,})/"#;

/// The pattern of the title of a flag: country, then continent.
pub const LOCATION_PATTERN: &'static str = r#"([\w ]{0,})<br><span class="subtext">([\w ]{0,})</span>"#;

/// The format of the sort key of a date.
pub const DATE_FORMAT: &'static str = "%Y%m%d";

/// A competition that an athlete registered for.
#[derive(Debug)]
pub struct CompetitionRegistration {
    pub participant_id: u32,
    pub name: String,
    pub location: CompetitionLocation,
    pub date: CalendarDate,
}

/// Where a competition takes place.
#[derive(Debug)]
pub struct CompetitionLocation {
    pub country: String,
    pub continent: String,
    pub place: String,
    pub flag_img_url: String,
}

/// The registrations of an athlete.
pub type CompetitionRegistrationList = Vec<CompetitionRegistration>;

/// A `CompetitionLocation` taken by its texts.
pub struct LocationView {
    pub country: Seq<char>,
    pub continent: Seq<char>,
    pub place: Seq<char>,
    pub flag_img_url: Seq<char>,
}

/// A `CompetitionRegistration` taken by its texts.
pub struct RegistrationView {
    pub participant_id: u32,
    pub name: Seq<char>,
    pub location: LocationView,
    pub date: CalendarDate,
}

impl View for CompetitionLocation {
    type V = LocationView;

    open spec fn view(&self) -> LocationView {
        LocationView {
            country: self.country@,
            continent: self.continent@,
            place: self.place@,
            flag_img_url: self.flag_img_url@,
        }
    }
}

impl View for CompetitionRegistration {
    type V = RegistrationView;

    open spec fn view(&self) -> RegistrationView {
        RegistrationView {
            participant_id: self.participant_id,
            name: self.name@,
            location: self.location@,
            date: self.date,
        }
    }
}

/// Registrations taken by their views.
pub open spec fn registrations_view(v: Seq<CompetitionRegistration>) -> Seq<RegistrationView> {
    v.map_values(|r: CompetitionRegistration| r@)
}

/// The CSS selector of the registrations table.
pub const TABLE_SELECTOR: &'static str = "div#wedstrijden > table#persoonlijkerecords";

/// The CSS selector of the rows of the table.
pub const ROW_SELECTOR: &'static str = "tbody > tr";

/// The CSS selector of the cell with the competition's name.
pub const CELL_SELECTOR: &'static str = "td";

/// The CSS selector of a row's sort key.
pub const SORT_DATA_SELECTOR: &'static str = "td > span.sortData";

/// The CSS selector of a row's location.
pub const LOCATION_SELECTOR: &'static str = "td > span.subtext > span.hidden-xs";

/// The CSS selector of a location's flag.
pub const FLAG_SELECTOR: &'static str = "img";

/// The CSS selector of the link in the name's cell.
pub const LINK_SELECTOR: &'static str = "a";

/// Whether every selector of the parser compiles.
pub open spec fn selectors_compile() -> bool {
    &&& css_compiles(TABLE_SELECTOR@)
    &&& css_compiles(ROW_SELECTOR@)
    &&& css_compiles(CELL_SELECTOR@)
    &&& css_compiles(SORT_DATA_SELECTOR@)
    &&& css_compiles(LOCATION_SELECTOR@)
    &&& css_compiles(FLAG_SELECTOR@)
    &&& css_compiles(LINK_SELECTOR@)
}

/// What the parser reads of the flag image of a location.
pub struct FlagSource {
    /// Its `src` attribute.
    pub src: Option<String>,
    /// Its `title` attribute.
    pub title: Option<String>,
}

/// A `FlagSource` taken by its texts.
pub ghost struct FlagView {
    pub src: Option<Seq<char>>,
    pub title: Option<Seq<char>>,
}

impl View for FlagSource {
    type V = FlagView;

    open spec fn view(&self) -> FlagView {
        FlagView { src: opt_view(self.src), title: opt_view(self.title) }
    }
}

/// What the parser reads of the location (`td > span.subtext > span.hidden-xs`).
pub struct LocationSource {
    /// Its text nodes.
    pub texts: Vec<String>,
    /// Its first `img`.
    pub flag: Option<FlagSource>,
}

/// A `LocationSource` taken by its texts.
pub ghost struct LocationElementView {
    pub texts: Seq<Seq<char>>,
    pub flag: Option<FlagView>,
}

impl View for LocationSource {
    type V = LocationElementView;

    open spec fn view(&self) -> LocationElementView {
        LocationElementView {
            texts: seq_view(self.texts@),
            flag: match self.flag {
                Some(f) => Some(f@),
                None => None,
            },
        }
    }
}

/// What the parser reads of a row (`tbody > tr`) of the table.
pub struct RowSource {
    /// The text nodes of its first `td`, when it has one.
    pub first_cell_texts: Option<Vec<String>>,
    /// The `href` of the first `a` in that cell.
    pub link_href: Option<String>,
    /// The `data` attribute of its first `td > span.sortData`.
    pub sort_data: Option<String>,
    /// Its first location element.
    pub location: Option<LocationSource>,
}

/// A `RowSource` taken by its texts.
pub ghost struct RowView {
    pub first_cell_texts: Option<Seq<Seq<char>>>,
    pub link_href: Option<Seq<char>>,
    pub sort_data: Option<Seq<char>>,
    pub location: Option<LocationElementView>,
}

impl View for RowSource {
    type V = RowView;

    open spec fn view(&self) -> RowView {
        RowView {
            first_cell_texts: opt_seq_view(self.first_cell_texts),
            link_href: opt_view(self.link_href),
            sort_data: opt_view(self.sort_data),
            location: match self.location {
                Some(l) => Some(l@),
                None => None,
            },
        }
    }
}

/// Rows taken by their views.
pub open spec fn rows_view(rows: Seq<RowSource>) -> Seq<RowView> {
    rows.map_values(|r: RowSource| r@)
}

/// What the parser reads of the flag at `img`.
pub open spec fn flag_at(img: Spot) -> FlagView {
    FlagView { src: attribute_of(img, "src"@), title: attribute_of(img, "title"@) }
}

/// What the parser reads of the location element at `l`.
pub open spec fn location_at(l: Spot) -> LocationElementView {
    LocationElementView {
        texts: texts_of(l),
        flag: match first_picked(l, FLAG_SELECTOR@) {
            Some(img) => Some(flag_at(img)),
            None => None,
        },
    }
}

/// What the parser reads of the row at `tr`.
pub open spec fn row_at(tr: Spot) -> RowView {
    RowView {
        first_cell_texts: match first_picked(tr, CELL_SELECTOR@) {
            Some(td) => Some(texts_of(td)),
            None => None,
        },
        link_href: match first_picked(tr, CELL_SELECTOR@) {
            Some(td) => match first_picked(td, LINK_SELECTOR@) {
                Some(a) => attribute_of(a, "href"@),
                None => None,
            },
            None => None,
        },
        sort_data: match first_picked(tr, SORT_DATA_SELECTOR@) {
            Some(sd) => attribute_of(sd, "data"@),
            None => None,
        },
        location: match first_picked(tr, LOCATION_SELECTOR@) {
            Some(l) => Some(location_at(l)),
            None => None,
        },
    }
}

/// What the parser reads of each row of the first registrations table under
/// the element at `e`, in document order; none without a table.
pub open spec fn element_rows(e: Spot) -> Seq<RowView> {
    match first_picked(e, TABLE_SELECTOR@) {
        Some(t) => picked_spots(t, ROW_SELECTOR@).map_values(|tr: Spot| row_at(tr)),
        None => Seq::empty(),
    }
}

/// The id that the digits of the participant-id pattern give; zero when
/// there are none or they do not read as a `u32`.
pub open spec fn id_or_zero(d: Option<Seq<char>>) -> u32 {
    match d {
        Some(d) => match unsigned_value(d, u32::MAX as int) {
            Some(v) => v as u32,
            None => 0,
        },
        None => 0,
    }
}

/// The participant's id in a link, zero when there is none.
pub open spec fn participant_id_of(href: Option<Seq<char>>) -> u32 {
    match href {
        Some(h) => id_or_zero(captured(PARTICIPANT_ID_PATTERN@, h, 1)),
        None => 0,
    }
}

/// Country and continent that a flag's title gives, each trimmed; both
/// empty when the title does not have the form.
pub open spec fn country_continent(title: Seq<char>) -> (Seq<char>, Seq<char>) {
    country_continent_from(regex_captures(LOCATION_PATTERN@, title))
}

/// Country and continent that the captures of the location pattern give,
/// groups 1 and 2, each trimmed; both empty without a match.
pub open spec fn country_continent_from(caps: Option<Seq<Option<Seq<char>>>>) -> (Seq<char>, Seq<char>) {
    match caps {
        Some(caps) => (
            match group(caps, 1) {
                Some(c) => trimmed(c),
                None => Seq::empty(),
            },
            match group(caps, 2) {
                Some(c) => trimmed(c),
                None => Seq::empty(),
            },
        ),
        None => (Seq::empty(), Seq::empty()),
    }
}

/// The location that the location element gives: the place is its first
/// text node, trimmed; the flag gives its address, and its title the
/// country and continent.
pub open spec fn location_of(loc: LocationElementView) -> LocationView {
    let place = if loc.texts.len() > 0 {
        trimmed(loc.texts[0])
    } else {
        Seq::empty()
    };
    match loc.flag {
        Some(f) => {
            let title = match f.title {
                Some(t) => t,
                None => Seq::empty(),
            };
            let (country, continent) = country_continent(title);
            LocationView {
                country,
                continent,
                place,
                flag_img_url: match f.src {
                    Some(s) => s,
                    None => Seq::empty(),
                },
            }
        },
        None => LocationView {
            country: Seq::empty(),
            continent: Seq::empty(),
            place,
            flag_img_url: Seq::empty(),
        },
    }
}

/// The registration that a row gives once its date is read (or not): none
/// without a first cell, a date, a name (the first text of the first cell
/// that is not blank) or a location.
pub open spec fn registration_with(row: RowView, date: Option<CalendarDate>) -> Option<
    RegistrationView,
> {
    match (row.first_cell_texts, row.location, date) {
        (Some(cell), Some(loc), Some(date)) => match first_nonblank(cell) {
            Some(name) => Some(
                RegistrationView {
                    participant_id: participant_id_of(row.link_href),
                    name: trimmed(name),
                    location: location_of(loc),
                    date,
                },
            ),
            None => None,
        },
        _ => None,
    }
}

/// The registration that a row gives: its date is the digits of its sort
/// key, read as `%Y%m%d`; none without a sort key (see `registration_with`).
pub open spec fn registration_of(row: RowView) -> Option<RegistrationView> {
    match row.sort_data {
        Some(data) => registration_with(
            row,
            date_of_triple(parsed_date(digits_of(data), DATE_FORMAT@)),
        ),
        None => None,
    }
}

/// The registrations that the rows give, in order.
pub open spec fn registrations_of(rows: Seq<RowView>) -> Seq<RegistrationView>
    decreases rows.len(),
{
    if rows.len() == 0 {
        Seq::empty()
    } else {
        let init = registrations_of(rows.drop_last());
        match registration_of(rows.last()) {
            Some(r) => init.push(r),
            None => init,
        }
    }
}

/// The id that the digits of the participant-id pattern give.
pub fn id_from_capture(d: &Option<String>) -> (r: u32)
    ensures
        r == id_or_zero(opt_view(*d)),
{
    match d {
        Some(d) => match parse_u32(d.as_str()) {
            Some(v) => v,
            None => 0,
        },
        None => 0,
    }
}

/// The participant's id in a link, zero when there is none.
pub fn participant_id(href: &Option<String>) -> (r: u32)
    ensures
        r == participant_id_of(opt_view(*href)),
{
    match href {
        Some(h) => id_from_capture(&captured_group(PARTICIPANT_ID_PATTERN, h.as_str(), 1)),
        None => 0,
    }
}

/// Country and continent that the captures of the location pattern give.
pub fn country_continent_of(caps: &Option<Vec<Option<String>>>) -> (r: (String, String))
    ensures
        (r.0@, r.1@) == country_continent_from(crate::pattern::captures_view(*caps)),
{
    match caps {
        Some(caps) => {
            let ghost cv = crate::pattern::groups_view(*caps);
            let country = if caps.len() > 1 {
                assert(cv[1] == opt_view(caps@[1]));
                match &caps[1] {
                    Some(c) => trim(c.as_str()),
                    None => String::new(),
                }
            } else {
                String::new()
            };
            let continent = if caps.len() > 2 {
                assert(cv[2] == opt_view(caps@[2]));
                match &caps[2] {
                    Some(c) => trim(c.as_str()),
                    None => String::new(),
                }
            } else {
                String::new()
            };
            (country, continent)
        },
        None => (String::new(), String::new()),
    }
}

/// The location that the location element gives.
pub fn location(loc: &LocationSource) -> (r: CompetitionLocation)
    ensures
        r@ == location_of(loc@),
{
    let place = if loc.texts.len() > 0 {
        trim(loc.texts[0].as_str())
    } else {
        String::new()
    };
    match &loc.flag {
        Some(f) => {
            let flag_img_url = match &f.src {
                Some(s) => s.clone(),
                None => String::new(),
            };
            let title = match &f.title {
                Some(t) => t.clone(),
                None => String::new(),
            };
            let (country, continent) = country_continent_of(
                &crate::pattern::captures(LOCATION_PATTERN, title.as_str()),
            );
            CompetitionLocation { country, continent, place, flag_img_url }
        },
        None => CompetitionLocation {
            country: String::new(),
            continent: String::new(),
            place,
            flag_img_url: String::new(),
        },
    }
}

/// The registration that a row gives once its date is read.
pub fn registration_with_date(row: &RowSource, date: Option<CalendarDate>) -> (r: Option<
    CompetitionRegistration,
>)
    ensures
        match r {
            Some(x) => registration_with(row@, date) == Some(x@),
            None => registration_with(row@, date) is None,
        },
        r matches Some(x) ==> date == Some(x.date),
{
    let cell = match &row.first_cell_texts {
        Some(c) => c,
        None => return None,
    };
    let loc = match &row.location {
        Some(l) => l,
        None => return None,
    };
    let date = match date {
        Some(d) => d,
        None => return None,
    };
    let name = match first_nonblank_trimmed(cell) {
        Some(n) => n,
        None => return None,
    };
    let participant_id = participant_id(&row.link_href);
    let location = location(loc);
    Some(CompetitionRegistration { participant_id, name, location, date })
}

/// The registration that a row gives.
pub fn registration(row: &RowSource) -> (r: Option<CompetitionRegistration>)
    ensures
        match r {
            Some(x) => registration_of(row@) == Some(x@),
            None => registration_of(row@) is None,
        },
        r matches Some(x) ==> 1 <= x.date.month <= 12 && 1 <= x.date.day <= 31,
{
    let data = match &row.sort_data {
        Some(d) => d,
        None => return None,
    };
    let date_str = only_digits(data.as_str());
    let date = read_date(date_str.as_str(), DATE_FORMAT);
    registration_with_date(row, date)
}

/// The registrations that what was read of the rows gives.
pub fn registrations_from_rows(rows: &Vec<RowSource>) -> (r: Vec<CompetitionRegistration>)
    ensures
        registrations_view(r@) == registrations_of(rows_view(rows@)),
        forall|k: int|
            0 <= k < r@.len() ==> 1 <= (#[trigger] r@[k]).date.month <= 12 && 1 <= r@[k].date.day
                <= 31,
{
    let ghost rv = rows_view(rows@);
    let mut out: Vec<CompetitionRegistration> = Vec::new();
    let mut i: usize = 0;
    while i < rows.len()
        invariant
            0 <= i <= rows@.len(),
            rv == rows_view(rows@),
            registrations_view(out@) == registrations_of(rv.take(i as int)),
            forall|k: int|
                0 <= k < out@.len() ==> 1 <= (#[trigger] out@[k]).date.month <= 12 && 1
                    <= out@[k].date.day <= 31,
        decreases rows.len() - i,
    {
        assert(rv.take(i + 1).drop_last() =~= rv.take(i as int));
        assert(rv.take(i + 1).last() == rows@[i as int]@);
        match registration(&rows[i]) {
            Some(x) => {
                let ghost before = registrations_view(out@);
                out.push(x);
                assert(registrations_view(out@) =~= before.push(x@));
            },
            None => {},
        }
        i += 1;
    }
    assert(rv.take(rows@.len() as int) =~= rv);
    out
}

/// The compiled selectors of the parser.
struct Selectors {
    table: Css,
    row: Css,
    cell: Css,
    sort_data: Css,
    location: Css,
    flag: Css,
    link: Css,
}

impl Selectors {
    spec fn wf(&self) -> bool {
        &&& self.table@ == TABLE_SELECTOR@
        &&& self.row@ == ROW_SELECTOR@
        &&& self.cell@ == CELL_SELECTOR@
        &&& self.sort_data@ == SORT_DATA_SELECTOR@
        &&& self.location@ == LOCATION_SELECTOR@
        &&& self.flag@ == FLAG_SELECTOR@
        &&& self.link@ == LINK_SELECTOR@
    }
}

/// Compiles the selectors of the parser.
fn selectors() -> (r: Result<Selectors, ParseError>)
    ensures
        match r {
            Ok(s) => selectors_compile() && s.wf(),
            Err(e) => e == ParseError::InvalidSelector && !selectors_compile(),
        },
{
    Ok(
        Selectors {
            table: css(TABLE_SELECTOR)?,
            row: css(ROW_SELECTOR)?,
            cell: css(CELL_SELECTOR)?,
            sort_data: css(SORT_DATA_SELECTOR)?,
            location: css(LOCATION_SELECTOR)?,
            flag: css(FLAG_SELECTOR)?,
            link: css(LINK_SELECTOR)?,
        },
    )
}

/// Reads what the parser needs of a row of the table.
fn read_row(tr: &Element, sel: &Selectors) -> (r: RowSource)
    requires
        sel.wf(),
    ensures
        r@ == row_at(tr@),
{
    let (first_cell_texts, link_href) = match first_in(tr, &sel.cell) {
        Some(td) => {
            let href = match first_in(&td, &sel.link) {
                Some(a) => attr(&a, "href"),
                None => None,
            };
            (Some(texts(&td)), href)
        },
        None => (None, None),
    };
    let sort_data = match first_in(tr, &sel.sort_data) {
        Some(sd) => attr(&sd, "data"),
        None => None,
    };
    let location = match first_in(tr, &sel.location) {
        Some(l) => {
            let flag = match first_in(&l, &sel.flag) {
                Some(img) => Some(FlagSource { src: attr(&img, "src"), title: attr(&img, "title") }),
                None => None,
            };
            Some(LocationSource { texts: texts(&l), flag })
        },
        None => None,
    };
    RowSource { first_cell_texts, link_href, sort_data, location }
}

/// Parses the first registrations table under `element`: fails only when a
/// selector does not compile, and otherwise gives the registrations that
/// the rows of the table give, in document order; no table gives no
/// registrations. Every date has a month in 1..=12 and a day in 1..=31.
pub fn parse(element: &Element) -> (r: Result<CompetitionRegistrationList, ParseError>)
    ensures
        match r {
            Ok(v) => selectors_compile() && registrations_view(v@) == registrations_of(
                element_rows(element@),
            ),
            Err(e) => e == ParseError::InvalidSelector && !selectors_compile(),
        },
        r matches Ok(v) ==> forall|k: int|
            0 <= k < v@.len() ==> 1 <= (#[trigger] v@[k]).date.month <= 12 && 1 <= v@[k].date.day
                <= 31,
{
    let sel = selectors()?;
    let mut rows: Vec<RowSource> = Vec::new();
    match first_in(element, &sel.table) {
        Some(table) => {
            let trs = select_from(&table, &sel.row);
            let mut i: usize = 0;
            while i < trs.len()
                invariant
                    0 <= i <= trs@.len(),
                    sel.wf(),
                    rows@.len() == i,
                    spots(trs@) == picked_spots(table@, ROW_SELECTOR@),
                    forall|j: int| 0 <= j < i ==> (#[trigger] rows@[j])@ == row_at(trs@[j]@),
                decreases trs.len() - i,
            {
                rows.push(read_row(&trs[i], &sel));
                i += 1;
            }
            proof {
                let want = picked_spots(table@, ROW_SELECTOR@).map_values(|tr: Spot| row_at(tr));
                assert forall|j: int| 0 <= j < rows@.len() implies rows_view(rows@)[j]
                    == want[j] by {
                    assert(spots(trs@)[j] == trs@[j]@);
                }
                assert(rows_view(rows@) =~= element_rows(element@));
            }
        },
        None => {
            assert(rows_view(rows@) =~= element_rows(element@));
        },
    }
    let v = registrations_from_rows(&rows);
    Ok(v)
}

/// Every registration of the table has a name that is not empty.
pub proof fn law_registrations_are_named(rows: Seq<RowView>)
    ensures
        forall|k: int|
            0 <= k < registrations_of(rows).len() ==> (#[trigger] registrations_of(
                rows,
            )[k]).name.len() > 0,
    decreases rows.len(),
{
    if rows.len() > 0 {
        law_registrations_are_named(rows.drop_last());
        match rows.last().first_cell_texts {
            Some(cell) => crate::text::lemma_first_nonblank_not_blank(cell),
            None => {},
        }
        let init = registrations_of(rows.drop_last());
        let r = registrations_of(rows);
        assert forall|k: int| 0 <= k < r.len() implies (#[trigger] r[k]).name.len() > 0 by {
            if k < init.len() {
                assert(r[k] == init[k]);
            } else {
                assert(registration_of(rows.last()) == Some(r[k]));
            }
        }
    }
}

/// A row gives a registration exactly when it has a sort key whose digits
/// read as a `%Y%m%d` date, a first cell with a text that is not blank,
/// and a location element. The name is that text, trimmed; the date is
/// the one read; the participant's id is the number in the link's address
/// (zero without one); the place is the location's first text, trimmed;
/// the flag's address is its `src`, and country and continent are the
/// trimmed groups of its title (all empty without a flag).
pub proof fn law_registration_fields(row: RowView)
    ensures
        registration_of(row) is Some <==> {
            &&& row.sort_data is Some
            &&& parsed_date(digits_of(row.sort_data->Some_0), DATE_FORMAT@) is Some
            &&& row.first_cell_texts is Some
            &&& first_nonblank(row.first_cell_texts->Some_0) is Some
            &&& row.location is Some
        },
        registration_of(row) matches Some(r) ==> {
            let (y, m, d) = parsed_date(digits_of(row.sort_data->Some_0), DATE_FORMAT@)->Some_0;
            let loc = row.location->Some_0;
            &&& r.name == trimmed(first_nonblank(row.first_cell_texts->Some_0)->Some_0)
            &&& r.date == CalendarDate { year: y, month: m, day: d }
            &&& r.participant_id as int == match row.link_href {
                Some(h) => match captured(PARTICIPANT_ID_PATTERN@, h, 1) {
                    Some(g) => match unsigned_value(g, u32::MAX as int) {
                        Some(v) => v,
                        None => 0,
                    },
                    None => 0,
                },
                None => 0,
            }
            &&& r.location.place == if loc.texts.len() > 0 {
                trimmed(loc.texts[0])
            } else {
                Seq::<char>::empty()
            }
            &&& r.location.flag_img_url == match loc.flag {
                Some(f) => match f.src {
                    Some(src) => src,
                    None => Seq::<char>::empty(),
                },
                None => Seq::<char>::empty(),
            }
            &&& loc.flag is None ==> r.location.country.len() == 0 && r.location.continent.len()
                == 0
            &&& loc.flag matches Some(f) ==> {
                let caps = regex_captures(
                    LOCATION_PATTERN@,
                    match f.title {
                        Some(t) => t,
                        None => Seq::<char>::empty(),
                    },
                );
                &&& r.location.country == match caps {
                    Some(c) => match group(c, 1) {
                        Some(x) => trimmed(x),
                        None => Seq::<char>::empty(),
                    },
                    None => Seq::<char>::empty(),
                }
                &&& r.location.continent == match caps {
                    Some(c) => match group(c, 2) {
                        Some(x) => trimmed(x),
                        None => Seq::<char>::empty(),
                    },
                    None => Seq::<char>::empty(),
                }
            }
        },
{
    match row.link_href {
        Some(h) => match captured(PARTICIPANT_ID_PATTERN@, h, 1) {
            Some(g) => crate::text::lemma_unsigned_value_in_range(g, u32::MAX as int),
            None => {},
        },
        None => {},
    }
}

/// The registrations are, in order, the registration of every row that
/// gives one.
pub proof fn law_registrations_keep_every_row(rows: Seq<RowView>)
    ensures
        registrations_of(rows) == rows.filter_map(|r: RowView| registration_of(r)),
    decreases rows.len(),
{
    if rows.len() > 0 {
        law_registrations_keep_every_row(rows.drop_last());
        match registration_of(rows.last()) {
            Some(x) => {
                assert(registrations_of(rows) =~= rows.drop_last().filter_map(
                    |r: RowView| registration_of(r),
                ) + seq![x]);
            },
            None => {},
        }
    }
}

} // verus!
