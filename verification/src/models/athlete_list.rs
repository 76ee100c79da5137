//! The athlete search results: one
//! `div.list-athletes > ul > li > a > div.item-inner > div.item-title` per
//! athlete, holding the name and a line with age and club.

use vstd::prelude::*;
use crate::error::ParseError;
use crate::html::{
    css, css_compiles, document_spots, grandparent_attr, grandparent_attribute, select_page,
    spots, texts, texts_of, Page, Spot,
};
use crate::pattern::{captured, captured_group, group, regex_captures};
use crate::text::{
    keep_nonempty_trimmed, nonempty_trimmed, opt_view, parse_u32, parse_u8, replace, replaced,
    seq_view, unsigned_value,
};

verus! {

/// The pattern of the line with age and club: the age's digits first, the
/// club's name second.
pub const AGE_AND_CLUB_PATTERN: &'static str = r#"([\d]{1,3}) years \| ([\s\S]{1,})"#;

/// The pattern of an athlete's id in the `onclick` of the result.
pub const ATHLETE_ID_PATTERN: &'static str = r#"koppel_id=([\d]{1,})"#;

/// One athlete of the search results.
#[derive(Debug)]
pub struct AthleteListElement {
    pub id: u32,
    pub name: String,
    pub club_name: String,
    pub age: u8,
}

/// The athletes of a search.
pub type AthleteList = Vec<AthleteListElement>;

/// An `AthleteListElement` taken by its texts.
pub struct AthleteView {
    pub id: u32,
    pub name: Seq<char>,
    pub club_name: Seq<char>,
    pub age: u8,
}

impl View for AthleteListElement {
    type V = AthleteView;

    open spec fn view(&self) -> AthleteView {
        AthleteView { id: self.id, name: self.name@, club_name: self.club_name@, age: self.age }
    }
}

/// Athletes taken by their views.
pub open spec fn athletes_view(v: Seq<AthleteListElement>) -> Seq<AthleteView> {
    v.map_values(|a: AthleteListElement| a@)
}

/// The CSS selector of a result's `div.item-title`.
pub const TITLE_SELECTOR: &'static str =
    "div.list-athletes > ul > li > a > div.item-inner > div.item-title";

/// What the parser reads of one result.
pub struct AthleteRowSource {
    /// The text nodes of the `div.item-title`.
    pub texts: Vec<String>,
    /// The `onclick` of the element two levels up (the link), when that is
    /// an element and has one.
    pub onclick: Option<String>,
}

/// An `AthleteRowSource` taken by its texts.
pub ghost struct AthleteRowView {
    pub texts: Seq<Seq<char>>,
    pub onclick: Option<Seq<char>>,
}

impl View for AthleteRowSource {
    type V = AthleteRowView;

    open spec fn view(&self) -> AthleteRowView {
        AthleteRowView { texts: seq_view(self.texts@), onclick: opt_view(self.onclick) }
    }
}

/// Results taken by their views.
pub open spec fn rows_view(rows: Seq<AthleteRowSource>) -> Seq<AthleteRowView> {
    rows.map_values(|r: AthleteRowSource| r@)
}

/// What the parser reads of the result whose `div.item-title` is at `s`.
pub open spec fn row_at(s: Spot) -> AthleteRowView {
    AthleteRowView { texts: texts_of(s), onclick: grandparent_attribute(s, "onclick"@) }
}

/// What the parser reads of each result of the page, in document order.
pub open spec fn page_rows(page: Seq<char>) -> Seq<AthleteRowView> {
    document_spots(page, TITLE_SELECTOR@).map_values(|s: Spot| row_at(s))
}

/// The age that a group of digits gives, as `parse::<u8>().unwrap_or(0)`.
pub open spec fn age_of(digits: Option<Seq<char>>) -> u8 {
    match digits {
        Some(d) => match unsigned_value(d, u8::MAX as int) {
            Some(v) => v as u8,
            None => 0,
        },
        None => 0,
    }
}

/// The athlete that a result's texts give (trimmed, without blanks), with
/// the captures of the age-and-club pattern on the second text and the id
/// group of the athlete-id pattern on the link's `onclick`: the first text
/// is the name (double spaces made single), group 2 the club, group 1 the
/// age; the id must read as a `u32`.
pub open spec fn athlete_from(
    ts: Seq<Seq<char>>,
    caps: Option<Seq<Option<Seq<char>>>>,
    id_digits: Option<Seq<char>>,
) -> Option<AthleteView> {
    if ts.len() < 2 {
        None
    } else {
        match (caps, id_digits) {
            (Some(caps), Some(d)) => match unsigned_value(d, u32::MAX as int) {
                Some(id) => Some(
                    AthleteView {
                        id: id as u32,
                        name: replaced(ts[0], "  "@, " "@),
                        club_name: match group(caps, 2) {
                            Some(c) => c,
                            None => Seq::empty(),
                        },
                        age: age_of(group(caps, 1)),
                    },
                ),
                None => None,
            },
            _ => None,
        }
    }
}

/// The athlete that a result gives: its texts, trimmed and without blanks,
/// must be two or more, the second must match the age-and-club pattern,
/// and the link's `onclick` must carry an id (see `athlete_from`).
pub open spec fn athlete_of(row: AthleteRowView) -> Option<AthleteView> {
    let ts = nonempty_trimmed(row.texts);
    if ts.len() < 2 {
        None
    } else {
        match row.onclick {
            Some(oc) => athlete_from(
                ts,
                regex_captures(AGE_AND_CLUB_PATTERN@, ts[1]),
                captured(ATHLETE_ID_PATTERN@, oc, 1),
            ),
            None => None,
        }
    }
}

/// The athletes that the results give, in order.
pub open spec fn athletes_of(rows: Seq<AthleteRowView>) -> Seq<AthleteView>
    decreases rows.len(),
{
    if rows.len() == 0 {
        Seq::empty()
    } else {
        let init = athletes_of(rows.drop_last());
        match athlete_of(rows.last()) {
            Some(a) => init.push(a),
            None => init,
        }
    }
}

/// The athlete that a result's texts give, with the captures of the two
/// patterns (see `athlete_from`).
pub fn athlete_from_captures(
    texts: &Vec<String>,
    caps: &Option<Vec<Option<String>>>,
    id_digits: &Option<String>,
) -> (r: Option<AthleteListElement>)
    ensures
        match r {
            Some(a) => athlete_from(
                seq_view(texts@),
                crate::pattern::captures_view(*caps),
                opt_view(*id_digits),
            ) == Some(a@),
            None => athlete_from(
                seq_view(texts@),
                crate::pattern::captures_view(*caps),
                opt_view(*id_digits),
            ) is None,
        },
{
    proof {
        reveal_strlit("  ");
    }
    if texts.len() < 2 {
        return None;
    }
    let caps = match caps {
        Some(c) => c,
        None => return None,
    };
    let id = match id_digits {
        Some(d) => match parse_u32(d.as_str()) {
            Some(id) => id,
            None => return None,
        },
        None => return None,
    };
    let ghost ts = seq_view(texts@);
    assert(ts[0] == texts@[0]@);
    let name = replace(texts[0].as_str(), "  ", " ");
    let ghost cv = crate::pattern::groups_view(*caps);
    let club_name = if caps.len() > 2 {
        assert(cv[2] == opt_view(caps@[2]));
        match &caps[2] {
            Some(c) => c.clone(),
            None => String::new(),
        }
    } else {
        String::new()
    };
    let age = if caps.len() > 1 {
        assert(cv[1] == opt_view(caps@[1]));
        match &caps[1] {
            Some(d) => match parse_u8(d.as_str()) {
                Some(a) => a,
                None => 0,
            },
            None => 0,
        }
    } else {
        0
    };
    Some(AthleteListElement { id, name, club_name, age })
}

/// The athlete that a result gives.
pub fn athlete(row: &AthleteRowSource) -> (r: Option<AthleteListElement>)
    ensures
        match r {
            Some(a) => athlete_of(row@) == Some(a@),
            None => athlete_of(row@) is None,
        },
{
    let texts = keep_nonempty_trimmed(&row.texts);
    if texts.len() < 2 {
        return None;
    }
    let ghost ts = seq_view(texts@);
    assert(ts[1] == texts@[1]@);
    let onclick = match &row.onclick {
        Some(o) => o,
        None => return None,
    };
    let caps = crate::pattern::captures(AGE_AND_CLUB_PATTERN, texts[1].as_str());
    let id_digits = captured_group(ATHLETE_ID_PATTERN, onclick.as_str(), 1);
    athlete_from_captures(&texts, &caps, &id_digits)
}

/// The athletes that what was read of the results gives.
pub fn athletes_from_rows(rows: &Vec<AthleteRowSource>) -> (r: AthleteList)
    ensures
        athletes_view(r@) == athletes_of(rows_view(rows@)),
{
    let ghost rv = rows_view(rows@);
    let mut out: Vec<AthleteListElement> = Vec::new();
    let mut i: usize = 0;
    while i < rows.len()
        invariant
            0 <= i <= rows@.len(),
            rv == rows_view(rows@),
            athletes_view(out@) == athletes_of(rv.take(i as int)),
        decreases rows.len() - i,
    {
        assert(rv.take(i + 1).drop_last() =~= rv.take(i as int));
        assert(rv.take(i + 1).last() == rows@[i as int]@);
        match athlete(&rows[i]) {
            Some(a) => {
                let ghost before = athletes_view(out@);
                out.push(a);
                assert(athletes_view(out@) =~= before.push(a@));
            },
            None => {},
        }
        i += 1;
    }
    assert(rv.take(rows@.len() as int) =~= rv);
    out
}

/// Parses the athlete search results: fails only when the selector of the
/// results does not compile, and otherwise gives the athletes that the
/// results of the page give, in document order.
pub fn parse(html: &Page) -> (r: Result<AthleteList, ParseError>)
    ensures
        match r {
            Ok(v) => css_compiles(TITLE_SELECTOR@) && athletes_view(v@) == athletes_of(
                page_rows(html@),
            ),
            Err(e) => e == ParseError::InvalidSelector && !css_compiles(TITLE_SELECTOR@),
        },
{
    let title = css(TITLE_SELECTOR)?;
    let titles = select_page(html, &title);
    let mut rows: Vec<AthleteRowSource> = Vec::new();
    let mut i: usize = 0;
    while i < titles.len()
        invariant
            0 <= i <= titles@.len(),
            rows@.len() == i,
            spots(titles@) == document_spots(html@, TITLE_SELECTOR@),
            forall|j: int| 0 <= j < i ==> (#[trigger] rows@[j])@ == row_at(titles@[j]@),
        decreases titles.len() - i,
    {
        let el = &titles[i];
        let onclick = grandparent_attr(el, "onclick");
        rows.push(AthleteRowSource { texts: texts(el), onclick });
        i += 1;
    }
    proof {
        assert forall|j: int| 0 <= j < rows@.len() implies rows_view(rows@)[j] == page_rows(
            html@,
        )[j] by {
            assert(spots(titles@)[j] == titles@[j]@);
        }
        assert(rows_view(rows@) =~= page_rows(html@));
    }
    let v = athletes_from_rows(&rows);
    Ok(v)
}

proof fn lemma_replaced_nonempty(s: Seq<char>, pat: Seq<char>, rep: Seq<char>)
    requires
        s.len() > 0,
        rep.len() > 0,
    ensures
        replaced(s, pat, rep).len() > 0,
{
}

proof fn lemma_nonempty_trimmed_first(pieces: Seq<Seq<char>>)
    ensures
        forall|k: int|
            0 <= k < nonempty_trimmed(pieces).len() ==> (#[trigger] nonempty_trimmed(
                pieces,
            )[k]).len() > 0,
    decreases pieces.len(),
{
    if pieces.len() > 0 {
        lemma_nonempty_trimmed_first(pieces.drop_last());
        let init = nonempty_trimmed(pieces.drop_last());
        let r = nonempty_trimmed(pieces);
        assert forall|k: int| 0 <= k < r.len() implies (#[trigger] r[k]).len() > 0 by {
            if k < init.len() {
                assert(r[k] == init[k]);
            }
        }
    }
}

/// Every athlete of the results has a name that is not empty.
pub proof fn law_athletes_are_named(rows: Seq<AthleteRowView>)
    ensures
        forall|k: int|
            0 <= k < athletes_of(rows).len() ==> (#[trigger] athletes_of(rows)[k]).name.len() > 0,
    decreases rows.len(),
{
    if rows.len() > 0 {
        law_athletes_are_named(rows.drop_last());
        let last = rows.last();
        let ts = nonempty_trimmed(last.texts);
        lemma_nonempty_trimmed_first(last.texts);
        if ts.len() >= 2 {
            assert(ts[0].len() > 0);
            assert(" "@.len() > 0) by {
                reveal_strlit(" ");
            }
            lemma_replaced_nonempty(ts[0], "  "@, " "@);
        }
        let init = athletes_of(rows.drop_last());
        let r = athletes_of(rows);
        assert forall|k: int| 0 <= k < r.len() implies (#[trigger] r[k]).name.len() > 0 by {
            if k < init.len() {
                assert(r[k] == init[k]);
            } else {
                assert(athlete_of(last) == Some(r[k]));
            }
        }
    }
}

/// A search result gives an athlete exactly when its texts (trimmed, less
/// blanks) are two or more, the second one matches the age-and-club
/// pattern, and the link's `onclick` carries an id that reads as a `u32`.
/// The athlete's id is that number; its name is the first text with double
/// spaces made single; its club is the pattern's second group and its age
/// the first group read as a `u8` (zero when it does not read as one).
pub proof fn law_athlete_fields(row: AthleteRowView)
    ensures
        athlete_of(row) is Some <==> {
            let ts = nonempty_trimmed(row.texts);
            &&& ts.len() >= 2
            &&& row.onclick is Some
            &&& regex_captures(AGE_AND_CLUB_PATTERN@, ts[1]) is Some
            &&& captured(ATHLETE_ID_PATTERN@, row.onclick->Some_0, 1) is Some
            &&& unsigned_value(
                captured(ATHLETE_ID_PATTERN@, row.onclick->Some_0, 1)->Some_0,
                u32::MAX as int,
            ) is Some
        },
        athlete_of(row) matches Some(a) ==> {
            let ts = nonempty_trimmed(row.texts);
            let caps = regex_captures(AGE_AND_CLUB_PATTERN@, ts[1])->Some_0;
            &&& a.id as int == unsigned_value(
                captured(ATHLETE_ID_PATTERN@, row.onclick->Some_0, 1)->Some_0,
                u32::MAX as int,
            )->Some_0
            &&& a.name == replaced(ts[0], "  "@, " "@)
            &&& a.club_name == match group(caps, 2) {
                Some(c) => c,
                None => Seq::<char>::empty(),
            }
            &&& a.age as int == match group(caps, 1) {
                Some(d) => match unsigned_value(d, u8::MAX as int) {
                    Some(v) => v,
                    None => 0,
                },
                None => 0,
            }
        },
{
    let ts = nonempty_trimmed(row.texts);
    if ts.len() >= 2 && row.onclick is Some {
        match captured(ATHLETE_ID_PATTERN@, row.onclick->Some_0, 1) {
            Some(d) => crate::text::lemma_unsigned_value_in_range(d, u32::MAX as int),
            None => {},
        }
        match regex_captures(AGE_AND_CLUB_PATTERN@, ts[1]) {
            Some(caps) => match group(caps, 1) {
                Some(d) => crate::text::lemma_unsigned_value_in_range(d, u8::MAX as int),
                None => {},
            },
            None => {},
        }
    }
}

/// The athletes are, in order, the athlete of every result that gives one.
pub proof fn law_athletes_keep_every_result(rows: Seq<AthleteRowView>)
    ensures
        athletes_of(rows) == rows.filter_map(|r: AthleteRowView| athlete_of(r)),
    decreases rows.len(),
{
    if rows.len() > 0 {
        law_athletes_keep_every_result(rows.drop_last());
        match athlete_of(rows.last()) {
            Some(a) => {
                assert(athletes_of(rows) =~= rows.drop_last().filter_map(
                    |r: AthleteRowView| athlete_of(r),
                ) + seq![a]);
            },
            None => {},
        }
    }
}

/// A result's `onclick` is read from the element two levels above its
/// `div.item-title`, when both levels are elements.
pub proof fn law_row_reads_grandparent_onclick(s: Spot)
    ensures
        row_at(s).texts == texts_of(s),
        row_at(s).onclick == match crate::html::parent_of(s) {
            Some(p) => match crate::html::parent_of(p) {
                Some(g) => crate::html::attribute_of(g, "onclick"@),
                None => None,
            },
            None => None,
        },
{
}

} // verus!
