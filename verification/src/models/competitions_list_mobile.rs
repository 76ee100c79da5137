//! The competition search results of the mobile endpoint
//! (`athleteapp.php?page=events&do=searchresults`): one `<li>` per
//! competition, `li > a[onclick] > div.item-inner > div.item-title > h6`
//! holding its name.

use vstd::prelude::*;
use crate::error::ParseError;
use crate::html::{
    attr, attribute_of, css, css_compiles, document_spots, first_in, first_picked, first_texts,
    picked_spots, select_from, select_page, spots, texts, texts_of, texts_of_first, Css, Element,
    Page, Spot,
};
use crate::models::athlete_profile_mobile::{class_contains, class_has};
use crate::pattern::{captured, captured_group, regex_captures, replace_first, regex_replace, group};
use crate::text::{
    has_sub,
    join_texts, first_text, first_text_of, joined, opt_seq_view, opt_view, parse_u32, seq_view,
    strip_trailing, trim, trim_end_matches, trimmed, unsigned_value,
};

verus! {

/// The pattern of a competition's id in the `onclick` of its link.
pub const EVENT_ID_PATTERN: &'static str = r#"event_id=(\d+)"#;

/// The pattern of the number of registrations in a subtitle.
pub const REGISTRATIONS_PATTERN: &'static str = r#"(\d+)\s*(?:registrations|athletes|deelnemers)"#;

/// One competition of the search results.
#[derive(Debug)]
pub struct MobileCompetitionsListElement {
    pub id: u32,
    pub name: String,
    pub location: String,
    pub date_display: String,
    pub registrations: u32,
    pub club_only: bool,
    pub world_athletics_recognized: bool,
    pub cancelled: bool,
}

/// The competitions of a search.
pub type MobileCompetitionsList = Vec<MobileCompetitionsListElement>;

/// A `MobileCompetitionsListElement` taken by its texts.
pub struct CompetitionView {
    pub id: u32,
    pub name: Seq<char>,
    pub location: Seq<char>,
    pub date_display: Seq<char>,
    pub registrations: u32,
    pub club_only: bool,
    pub world_athletics_recognized: bool,
    pub cancelled: bool,
}

impl View for MobileCompetitionsListElement {
    type V = CompetitionView;

    open spec fn view(&self) -> CompetitionView {
        CompetitionView {
            id: self.id,
            name: self.name@,
            location: self.location@,
            date_display: self.date_display@,
            registrations: self.registrations,
            club_only: self.club_only,
            world_athletics_recognized: self.world_athletics_recognized,
            cancelled: self.cancelled,
        }
    }
}

/// Competitions taken by their views.
pub open spec fn list_view(v: Seq<MobileCompetitionsListElement>) -> Seq<CompetitionView> {
    v.map_values(|e: MobileCompetitionsListElement| e@)
}

/// The CSS selector of the results.
pub const ITEM_SELECTOR: &'static str = "li";

/// The CSS selector of a result's link.
pub const LINK_SELECTOR: &'static str = "a";

/// The CSS selector of a competition's name.
pub const TITLE_SELECTOR: &'static str = "div.item-title > h6";

/// The CSS selector of a competition's subtitles.
pub const SUBTITLE_SELECTOR: &'static str = "div.subtitle, div.item-footer";

/// The CSS selector of the mark of a competition for club members only.
pub const CLUB_ONLY_SELECTOR: &'static str = "span.clubmembersonly";

/// The CSS selector of the World Athletics label.
pub const WA_LABEL_SELECTOR: &'static str = "img.WA-label";

/// The CSS selector of the day of week in the mini calendar.
pub const CALENDAR_HEADER_SELECTOR: &'static str = ".mini-calendar-header";

/// The CSS selector of the day number in the mini calendar.
pub const CALENDAR_FOOTER_SELECTOR: &'static str = ".mini-calendar-footer";

/// Whether every selector of the parser compiles.
pub open spec fn selectors_compile() -> bool {
    &&& css_compiles(ITEM_SELECTOR@)
    &&& css_compiles(LINK_SELECTOR@)
    &&& css_compiles(TITLE_SELECTOR@)
    &&& css_compiles(SUBTITLE_SELECTOR@)
    &&& css_compiles(CLUB_ONLY_SELECTOR@)
    &&& css_compiles(WA_LABEL_SELECTOR@)
    &&& css_compiles(CALENDAR_HEADER_SELECTOR@)
    &&& css_compiles(CALENDAR_FOOTER_SELECTOR@)
}

/// What the parser reads of the first `<a>` of an `<li>`.
pub struct LinkSource {
    /// Its `onclick` attribute.
    pub onclick: Option<String>,
    /// Its `class` attribute.
    pub class_attr: Option<String>,
    /// The text nodes of its first `div.item-title > h6`.
    pub title_texts: Option<Vec<String>>,
    /// Whether it holds an `img.WA-label`.
    pub wa_label: bool,
    /// Whether it holds a `span.clubmembersonly`.
    pub club_only: bool,
    /// The text nodes of each of its `div.subtitle` and `div.item-footer`.
    pub subtitles: Vec<Vec<String>>,
    /// The text nodes of its first `.mini-calendar-header` (day of week).
    pub calendar_header: Option<Vec<String>>,
    /// The text nodes of its first `.mini-calendar-footer` (day number).
    pub calendar_footer: Option<Vec<String>>,
}

/// A `LinkSource` taken by its texts.
pub ghost struct LinkView {
    pub onclick: Option<Seq<char>>,
    pub class_attr: Option<Seq<char>>,
    pub title_texts: Option<Seq<Seq<char>>>,
    pub wa_label: bool,
    pub club_only: bool,
    pub subtitles: Seq<Seq<Seq<char>>>,
    pub calendar_header: Option<Seq<Seq<char>>>,
    pub calendar_footer: Option<Seq<Seq<char>>>,
}

impl View for LinkSource {
    type V = LinkView;

    open spec fn view(&self) -> LinkView {
        LinkView {
            onclick: opt_view(self.onclick),
            class_attr: opt_view(self.class_attr),
            title_texts: opt_seq_view(self.title_texts),
            wa_label: self.wa_label,
            club_only: self.club_only,
            subtitles: self.subtitles@.map_values(|t: Vec<String>| seq_view(t@)),
            calendar_header: opt_seq_view(self.calendar_header),
            calendar_footer: opt_seq_view(self.calendar_footer),
        }
    }
}

/// What the parser reads of one `<li>` of the results.
pub struct ListItemSource {
    /// Its `data-header-name` attribute: the month of a group of results.
    pub header_name: Option<String>,
    /// Its first `<a>`.
    pub link: Option<LinkSource>,
}

/// A `ListItemSource` taken by its texts.
pub ghost struct ListItemView {
    pub header_name: Option<Seq<char>>,
    pub link: Option<LinkView>,
}

impl View for ListItemSource {
    type V = ListItemView;

    open spec fn view(&self) -> ListItemView {
        ListItemView {
            header_name: opt_view(self.header_name),
            link: match self.link {
                Some(l) => Some(l@),
                None => None,
            },
        }
    }
}

/// Results taken by their views.
pub open spec fn items_view(items: Seq<ListItemSource>) -> Seq<ListItemView> {
    items.map_values(|it: ListItemSource| it@)
}

/// What the parser reads of the link at `a`.
pub open spec fn link_at(a: Spot) -> LinkView {
    LinkView {
        onclick: attribute_of(a, "onclick"@),
        class_attr: attribute_of(a, "class"@),
        title_texts: first_texts(a, TITLE_SELECTOR@),
        wa_label: first_picked(a, WA_LABEL_SELECTOR@) is Some,
        club_only: first_picked(a, CLUB_ONLY_SELECTOR@) is Some,
        subtitles: picked_spots(a, SUBTITLE_SELECTOR@).map_values(|t: Spot| texts_of(t)),
        calendar_header: first_texts(a, CALENDAR_HEADER_SELECTOR@),
        calendar_footer: first_texts(a, CALENDAR_FOOTER_SELECTOR@),
    }
}

/// What the parser reads of the `<li>` at `li`.
pub open spec fn item_at(li: Spot) -> ListItemView {
    ListItemView {
        header_name: attribute_of(li, "data-header-name"@),
        link: match first_picked(li, LINK_SELECTOR@) {
            Some(a) => Some(link_at(a)),
            None => None,
        },
    }
}

/// What the parser reads of each `<li>` of the page, in document order.
pub open spec fn page_items(page: Seq<char>) -> Seq<ListItemView> {
    document_spots(page, ITEM_SELECTOR@).map_values(|li: Spot| item_at(li))
}

/// The number that a text gives, as `str::parse::<u32>().unwrap_or(0)`.
pub open spec fn u32_or_zero(t: Seq<char>) -> u32 {
    match unsigned_value(t, u32::MAX as int) {
        Some(v) => v as u32,
        None => 0,
    }
}

/// The id that the digits of the id pattern give, when they read as a
/// `u32`.
pub open spec fn id_from_digits(d: Option<Seq<char>>) -> Option<u32> {
    match d {
        Some(d) => match unsigned_value(d, u32::MAX as int) {
            Some(v) => Some(v as u32),
            None => None,
        },
        None => None,
    }
}

/// The competition's id in the `onclick` of its link.
pub open spec fn event_id_of(onclick: Seq<char>) -> Option<u32> {
    id_from_digits(captured(EVENT_ID_PATTERN@, onclick, 1))
}

/// The place that a subtitle gives once its registrations are taken out:
/// trimmed, less trailing separators, trimmed again.
pub open spec fn place_from(without_registrations: Seq<char>) -> Seq<char> {
    trimmed(strip_trailing(trimmed(without_registrations), '|'))
}

/// The place that a subtitle gives: its text less the registrations, and
/// less trailing separators.
pub open spec fn place_of(t: Seq<char>) -> Seq<char> {
    place_from(regex_replace(REGISTRATIONS_PATTERN@, t, Seq::empty()))
}

/// Location and registrations after reading the subtitles in order: each
/// subtitle that mentions registrations sets their number; the first one
/// that is not blank gives the location.
pub open spec fn subtitles_state(subs: Seq<Seq<Seq<char>>>) -> (Seq<char>, u32)
    decreases subs.len(),
{
    if subs.len() == 0 {
        (Seq::empty(), 0)
    } else {
        let (loc, reg) = subtitles_state(subs.drop_last());
        let t = trimmed(joined(subs.last()));
        let reg2 = match regex_captures(REGISTRATIONS_PATTERN@, t) {
            Some(caps) => match group(caps, 1) {
                Some(g) => u32_or_zero(g),
                None => 0,
            },
            None => reg,
        };
        let loc2 = if loc.len() == 0 && t.len() > 0 {
            place_of(t)
        } else {
            loc
        };
        (loc2, reg2)
    }
}

/// The subtitles of a link, each taken by its texts.
pub open spec fn subtitles_view(l: LinkSource) -> Seq<Seq<Seq<char>>> {
    l@.subtitles
}

/// The date shown in the mini calendar: day of week, day number and month,
/// when both the day of week and the day number are there.
pub open spec fn date_display_of(header: Option<Seq<char>>, l: LinkView) -> Seq<char> {
    let dow = match l.calendar_header {
        Some(t) => trimmed(joined(t)),
        None => Seq::empty(),
    };
    let day = match l.calendar_footer {
        Some(t) => trimmed(joined(t)),
        None => Seq::empty(),
    };
    if dow.len() > 0 && day.len() > 0 {
        let month = match header {
            Some(m) => m,
            None => Seq::empty(),
        };
        dow + " "@ + day + " "@ + month
    } else {
        Seq::empty()
    }
}

/// The competition that an `<li>` gives: none without a link, without an
/// id that reads as a `u32`, or with an empty name.
pub open spec fn competition_of(it: ListItemView) -> Option<CompetitionView> {
    match it.link {
        Some(l) => {
            let onclick = match l.onclick {
                Some(o) => o,
                None => Seq::empty(),
            };
            let name = match l.title_texts {
                Some(t) => first_text(t),
                None => Seq::empty(),
            };
            match event_id_of(onclick) {
                Some(id) => if name.len() == 0 {
                    None
                } else {
                    let (location, registrations) = subtitles_state(l.subtitles);
                    Some(
                        CompetitionView {
                            id,
                            name,
                            location,
                            date_display: date_display_of(it.header_name, l),
                            registrations,
                            club_only: l.club_only,
                            world_athletics_recognized: l.wa_label,
                            cancelled: class_has(l.class_attr, "cancelled"@),
                        },
                    )
                },
                None => None,
            }
        },
        None => None,
    }
}

/// The competitions that the `<li>`s give, in order.
pub open spec fn competitions_of(items: Seq<ListItemView>) -> Seq<CompetitionView>
    decreases items.len(),
{
    if items.len() == 0 {
        Seq::empty()
    } else {
        let init = competitions_of(items.drop_last());
        match competition_of(items.last()) {
            Some(c) => init.push(c),
            None => init,
        }
    }
}

/// The id that the digits of the id pattern give.
pub fn id_from_capture(d: &Option<String>) -> (r: Option<u32>)
    ensures
        r == id_from_digits(opt_view(*d)),
{
    match d {
        Some(d) => parse_u32(d.as_str()),
        None => None,
    }
}

/// The competition's id in the `onclick` of its link.
pub fn event_id(onclick: &str) -> (r: Option<u32>)
    ensures
        r == event_id_of(onclick@),
{
    id_from_capture(&captured_group(EVENT_ID_PATTERN, onclick, 1))
}

/// The place that a subtitle gives once its registrations are taken out.
pub fn place_from_text(without_registrations: &str) -> (r: String)
    ensures
        r@ == place_from(without_registrations@),
{
    let stripped = trim_end_matches(trim(without_registrations).as_str(), '|');
    trim(stripped.as_str())
}

/// Location and registrations after reading the subtitles.
pub fn location_and_registrations(l: &LinkSource) -> (r: (String, u32))
    ensures
        (r.0@, r.1) == subtitles_state(subtitles_view(*l)),
{
    let ghost subs = subtitles_view(*l);
    let mut location = String::new();
    let mut registrations: u32 = 0;
    let mut i: usize = 0;
    proof {
        reveal_strlit("");
    }
    assert(subs.take(0) =~= Seq::<Seq<Seq<char>>>::empty());
    while i < l.subtitles.len()
        invariant
            subs == subtitles_view(*l),
            0 <= i <= l.subtitles@.len(),
            (location@, registrations) == subtitles_state(subs.take(i as int)),
        decreases l.subtitles.len() - i,
    {
        assert(subs.take(i + 1).drop_last() =~= subs.take(i as int));
        assert(subs.take(i + 1).last() == seq_view(l.subtitles@[i as int]@));
        let t = trim(join_texts(&l.subtitles[i]).as_str());
        assert(t@ == trimmed(joined(subs.take(i + 1).last())));
        proof {
            reveal_strlit("");
        }
        assert(""@ =~= Seq::<char>::empty());
        match crate::pattern::captures(REGISTRATIONS_PATTERN, t.as_str()) {
            Some(caps) => {
                let ghost cv = crate::pattern::groups_view(caps);
                registrations = if caps.len() > 1 {
                    assert(cv[1] == opt_view(caps@[1]));
                    match &caps[1] {
                        Some(g) => match parse_u32(g.as_str()) {
                            Some(v) => v,
                            None => 0,
                        },
                        None => 0,
                    }
                } else {
                    0
                };
            },
            None => {},
        }
        if location.as_str().unicode_len() == 0 && t.as_str().unicode_len() > 0 {
            let replaced = replace_first(REGISTRATIONS_PATTERN, t.as_str(), "");
            location = place_from_text(replaced.as_str());
        }
        assert(location@ == subtitles_state(subs.take(i + 1)).0);
        assert(registrations == subtitles_state(subs.take(i + 1)).1);
        i += 1;
    }
    assert(subs.take(l.subtitles@.len() as int) =~= subs);
    (location, registrations)
}

/// The date shown in the mini calendar.
pub fn date_display(header: &Option<String>, l: &LinkSource) -> (r: String)
    ensures
        r@ == date_display_of(opt_view(*header), l@),
{
    let dow = match &l.calendar_header {
        Some(t) => trim(join_texts(t).as_str()),
        None => String::new(),
    };
    let day = match &l.calendar_footer {
        Some(t) => trim(join_texts(t).as_str()),
        None => String::new(),
    };
    if dow.as_str().unicode_len() > 0 && day.as_str().unicode_len() > 0 {
        let month = match header {
            Some(m) => m.clone(),
            None => String::new(),
        };
        let mut out: Vec<char> = crate::text::chars_of(dow.as_str());
        out.push(' ');
        crate::text::append_chars(&mut out, &crate::text::chars_of(day.as_str()));
        out.push(' ');
        crate::text::append_chars(&mut out, &crate::text::chars_of(month.as_str()));
        proof {
            reveal_strlit(" ");
        }
        assert(out@ =~= dow@ + " "@ + day@ + " "@ + month@);
        crate::text::string_of(out.as_slice())
    } else {
        String::new()
    }
}

/// The competition that an `<li>` gives.
pub fn competition(it: &ListItemSource) -> (r: Option<MobileCompetitionsListElement>)
    ensures
        match r {
            Some(c) => competition_of(it@) == Some(c@),
            None => competition_of(it@) is None,
        },
{
    let l = match &it.link {
        Some(l) => l,
        None => return None,
    };
    let onclick = match &l.onclick {
        Some(o) => o.clone(),
        None => String::new(),
    };
    let id = match event_id(onclick.as_str()) {
        Some(id) => id,
        None => return None,
    };
    let cancelled = class_contains(&l.class_attr, "cancelled");
    let name = match &l.title_texts {
        Some(t) => first_text_of(t),
        None => String::new(),
    };
    if name.as_str().unicode_len() == 0 {
        return None;
    }
    let (location, registrations) = location_and_registrations(l);
    let date_display = date_display(&it.header_name, l);
    Some(
        MobileCompetitionsListElement {
            id,
            name,
            location,
            date_display,
            registrations,
            club_only: l.club_only,
            world_athletics_recognized: l.wa_label,
            cancelled,
        },
    )
}

/// The competitions that what was read of the `<li>`s gives.
pub fn competitions_from_items(items: &Vec<ListItemSource>) -> (r: Vec<
    MobileCompetitionsListElement,
>)
    ensures
        list_view(r@) == competitions_of(items_view(items@)),
{
    let ghost iv = items_view(items@);
    let mut out: Vec<MobileCompetitionsListElement> = Vec::new();
    let mut i: usize = 0;
    while i < items.len()
        invariant
            0 <= i <= items@.len(),
            iv == items_view(items@),
            list_view(out@) == competitions_of(iv.take(i as int)),
        decreases items.len() - i,
    {
        assert(iv.take(i + 1).drop_last() =~= iv.take(i as int));
        assert(iv.take(i + 1).last() == items@[i as int]@);
        match competition(&items[i]) {
            Some(c) => {
                let ghost before = list_view(out@);
                out.push(c);
                assert(list_view(out@) =~= before.push(c@));
            },
            None => {},
        }
        i += 1;
    }
    assert(iv.take(items@.len() as int) =~= iv);
    out
}

/// The compiled selectors of the parser.
struct Selectors {
    item: Css,
    link: Css,
    title: Css,
    subtitle: Css,
    club_only: Css,
    wa_label: Css,
    calendar_header: Css,
    calendar_footer: Css,
}

impl Selectors {
    spec fn wf(&self) -> bool {
        &&& self.item@ == ITEM_SELECTOR@
        &&& self.link@ == LINK_SELECTOR@
        &&& self.title@ == TITLE_SELECTOR@
        &&& self.subtitle@ == SUBTITLE_SELECTOR@
        &&& self.club_only@ == CLUB_ONLY_SELECTOR@
        &&& self.wa_label@ == WA_LABEL_SELECTOR@
        &&& self.calendar_header@ == CALENDAR_HEADER_SELECTOR@
        &&& self.calendar_footer@ == CALENDAR_FOOTER_SELECTOR@
    }
}

/// Compiles the selectors of the parser.
fn selectors() -> (r: Result<Selectors, ParseError>)
    ensures
        match r {
            Ok(s) => selectors_compile() && s.wf(),
            Err(e) => e == ParseError::InvalidSelector && !selectors_compile(),
        },
{
    Ok(
        Selectors {
            item: css(ITEM_SELECTOR)?,
            link: css(LINK_SELECTOR)?,
            title: css(TITLE_SELECTOR)?,
            subtitle: css(SUBTITLE_SELECTOR)?,
            club_only: css(CLUB_ONLY_SELECTOR)?,
            wa_label: css(WA_LABEL_SELECTOR)?,
            calendar_header: css(CALENDAR_HEADER_SELECTOR)?,
            calendar_footer: css(CALENDAR_FOOTER_SELECTOR)?,
        },
    )
}

/// Reads what the parser needs of an `<a>`.
fn read_link(a: &Element, sel: &Selectors) -> (r: LinkSource)
    requires
        sel.wf(),
    ensures
        r@ == link_at(a@),
{
    let subs = select_from(a, &sel.subtitle);
    let mut subtitles: Vec<Vec<String>> = Vec::new();
    let mut i: usize = 0;
    while i < subs.len()
        invariant
            0 <= i <= subs@.len(),
            subtitles@.len() == i,
            spots(subs@) == picked_spots(a@, SUBTITLE_SELECTOR@),
            forall|j: int|
                0 <= j < i ==> seq_view((#[trigger] subtitles@[j])@) == texts_of(subs@[j]@),
        decreases subs.len() - i,
    {
        subtitles.push(texts(&subs[i]));
        i += 1;
    }
    let r = LinkSource {
        onclick: attr(a, "onclick"),
        class_attr: attr(a, "class"),
        title_texts: texts_of_first(a, &sel.title),
        wa_label: first_in(a, &sel.wa_label).is_some(),
        club_only: first_in(a, &sel.club_only).is_some(),
        subtitles,
        calendar_header: texts_of_first(a, &sel.calendar_header),
        calendar_footer: texts_of_first(a, &sel.calendar_footer),
    };
    proof {
        let want = picked_spots(a@, SUBTITLE_SELECTOR@).map_values(|t: Spot| texts_of(t));
        assert forall|j: int| 0 <= j < want.len() implies r@.subtitles[j] == want[j] by {
            assert(spots(subs@)[j] == subs@[j]@);
        }
        assert(r@.subtitles =~= want);
    }
    r
}

/// Parses the mobile competition search results: fails only when a
/// selector does not compile, and otherwise gives the competitions that
/// the `<li>`s of the page give, in document order.
pub fn parse(html: &Page) -> (r: Result<MobileCompetitionsList, ParseError>)
    ensures
        match r {
            Ok(v) => selectors_compile() && list_view(v@) == competitions_of(page_items(html@)),
            Err(e) => e == ParseError::InvalidSelector && !selectors_compile(),
        },
{
    let sel = selectors()?;
    let lis = select_page(html, &sel.item);
    let mut items: Vec<ListItemSource> = Vec::new();
    let mut i: usize = 0;
    while i < lis.len()
        invariant
            0 <= i <= lis@.len(),
            sel.wf(),
            items@.len() == i,
            spots(lis@) == document_spots(html@, ITEM_SELECTOR@),
            forall|j: int| 0 <= j < i ==> (#[trigger] items@[j])@ == item_at(lis@[j]@),
        decreases lis.len() - i,
    {
        let li = &lis[i];
        let link = match first_in(li, &sel.link) {
            Some(a) => Some(read_link(&a, &sel)),
            None => None,
        };
        items.push(ListItemSource { header_name: attr(li, "data-header-name"), link });
        i += 1;
    }
    proof {
        assert forall|j: int| 0 <= j < items@.len() implies items_view(items@)[j] == page_items(
            html@,
        )[j] by {
            assert(spots(lis@)[j] == lis@[j]@);
        }
        assert(items_view(items@) =~= page_items(html@));
    }
    let v = competitions_from_items(&items);
    Ok(v)
}

/// Every competition of the results has a name that is not empty.
pub proof fn law_competitions_are_named(items: Seq<ListItemView>)
    ensures
        forall|k: int|
            0 <= k < competitions_of(items).len() ==> (#[trigger] competitions_of(items)[k]).name.len()
                > 0,
    decreases items.len(),
{
    if items.len() > 0 {
        law_competitions_are_named(items.drop_last());
        let init = competitions_of(items.drop_last());
        let r = competitions_of(items);
        assert forall|k: int| 0 <= k < r.len() implies (#[trigger] r[k]).name.len() > 0 by {
            if k < init.len() {
                assert(r[k] == init[k]);
            } else {
                assert(competition_of(items.last()) == Some(r[k]));
            }
        }
    }
}

/// A competition read from an `<li>` of the page is marked club-only
/// exactly when the `<li>`'s first link holds a `span.clubmembersonly`,
/// recognised by World Athletics exactly when that link holds an
/// `img.WA-label`, and cancelled exactly when the link's `class` holds
/// `cancelled`.
pub proof fn law_competition_marks(li: Spot)
    ensures
        competition_of(item_at(li)) matches Some(c) ==> {
            &&& first_picked(li, LINK_SELECTOR@) is Some
            &&& c.club_only == (first_picked(
                first_picked(li, LINK_SELECTOR@)->Some_0,
                CLUB_ONLY_SELECTOR@,
            ) is Some)
            &&& c.world_athletics_recognized == (first_picked(
                first_picked(li, LINK_SELECTOR@)->Some_0,
                WA_LABEL_SELECTOR@,
            ) is Some)
            &&& c.cancelled == match attribute_of(
                first_picked(li, LINK_SELECTOR@)->Some_0,
                "class"@,
            ) {
                Some(cl) => has_sub(cl, "cancelled"@),
                None => false,
            }
        },
{
}

/// The same marks over what was read of an `<li>`: a competition keeps the
/// club-only mark, the World Athletics label and the `cancelled` class of
/// its link, each for what it is.
pub proof fn law_competition_keeps_link_marks(it: ListItemView)
    ensures
        competition_of(it) matches Some(c) ==> {
            &&& it.link is Some
            &&& c.club_only == it.link->Some_0.club_only
            &&& c.world_athletics_recognized == it.link->Some_0.wa_label
            &&& c.cancelled == match it.link->Some_0.class_attr {
                Some(cl) => has_sub(cl, "cancelled"@),
                None => false,
            }
        },
{
}

/// The competitions are, in order, the competition of every `<li>` that
/// gives one.
pub proof fn law_competitions_keep_every_item(items: Seq<ListItemView>)
    ensures
        competitions_of(items) == items.filter_map(|it: ListItemView| competition_of(it)),
    decreases items.len(),
{
    if items.len() > 0 {
        law_competitions_keep_every_item(items.drop_last());
        match competition_of(items.last()) {
            Some(c) => {
                assert(competitions_of(items) =~= items.drop_last().filter_map(
                    |it: ListItemView| competition_of(it),
                ) + seq![c]);
            },
            None => {},
        }
    }
}

/// An `<li>` gives a competition exactly when it has a link whose `onclick`
/// carries an event id that reads as a `u32`, and whose title has a text
/// that is not blank. The id is that number; the name is that text,
/// trimmed; the date shown joins the day of week, the day number and the
/// `<li>`'s month with spaces when the first two are there, and is empty
/// otherwise.
pub proof fn law_competition_fields(it: ListItemView)
    ensures
        competition_of(it) is Some <==> {
            &&& it.link is Some
            &&& captured(
                EVENT_ID_PATTERN@,
                match it.link->Some_0.onclick {
                    Some(o) => o,
                    None => Seq::<char>::empty(),
                },
                1,
            ) is Some
            &&& unsigned_value(
                captured(
                    EVENT_ID_PATTERN@,
                    match it.link->Some_0.onclick {
                        Some(o) => o,
                        None => Seq::<char>::empty(),
                    },
                    1,
                )->Some_0,
                u32::MAX as int,
            ) is Some
            &&& match it.link->Some_0.title_texts {
                Some(t) => first_text(t).len() > 0,
                None => false,
            }
        },
        competition_of(it) matches Some(c) ==> {
            let l = it.link->Some_0;
            let onclick = match l.onclick {
                Some(o) => o,
                None => Seq::<char>::empty(),
            };
            let dow = match l.calendar_header {
                Some(t) => trimmed(joined(t)),
                None => Seq::<char>::empty(),
            };
            let day = match l.calendar_footer {
                Some(t) => trimmed(joined(t)),
                None => Seq::<char>::empty(),
            };
            &&& c.id as int == unsigned_value(
                captured(EVENT_ID_PATTERN@, onclick, 1)->Some_0,
                u32::MAX as int,
            )->Some_0
            &&& c.name == first_text(l.title_texts->Some_0)
            &&& c.date_display == if dow.len() > 0 && day.len() > 0 {
                dow + " "@ + day + " "@ + match it.header_name {
                    Some(m) => m,
                    None => Seq::<char>::empty(),
                }
            } else {
                Seq::<char>::empty()
            }
        },
{
    match it.link {
        Some(l) => {
            let onclick = match l.onclick {
                Some(o) => o,
                None => Seq::<char>::empty(),
            };
            match captured(EVENT_ID_PATTERN@, onclick, 1) {
                Some(d) => crate::text::lemma_unsigned_value_in_range(d, u32::MAX as int),
                None => {},
            }
        },
        None => {},
    }
}

/// Each subtitle that mentions registrations sets their number, so the
/// last such subtitle gives it; the location is what the first subtitle
/// that is not blank gives, once its registrations are taken out.
pub proof fn law_registrations_from_last_mention(
    subs: Seq<Seq<Seq<char>>>,
    t: Seq<Seq<char>>,
)
    requires
        regex_captures(REGISTRATIONS_PATTERN@, trimmed(joined(t))) is Some,
    ensures
        subtitles_state(subs.push(t)).1 == match group(
            regex_captures(REGISTRATIONS_PATTERN@, trimmed(joined(t)))->Some_0,
            1,
        ) {
            Some(g) => u32_or_zero(g),
            None => 0,
        },
{
    assert(subs.push(t).drop_last() =~= subs);
}

/// Reading one more subtitle: once a location is found it stays; while
/// there is none, a subtitle that is not blank gives it (less its
/// registrations and trailing separators); a subtitle that does not
/// mention registrations leaves their number as it was.
pub proof fn law_subtitle_step(subs: Seq<Seq<Seq<char>>>, t: Seq<Seq<char>>)
    ensures
        subtitles_state(subs).0.len() > 0 ==> subtitles_state(subs.push(t)).0 == subtitles_state(
            subs,
        ).0,
        subtitles_state(subs).0.len() == 0 && trimmed(joined(t)).len() > 0 ==> subtitles_state(
            subs.push(t),
        ).0 == place_of(trimmed(joined(t))),
        regex_captures(REGISTRATIONS_PATTERN@, trimmed(joined(t))) is None ==> subtitles_state(
            subs.push(t),
        ).1 == subtitles_state(subs).1,
{
    assert(subs.push(t).drop_last() =~= subs);
}

} // verus!
