//! The competition detail page of the mobile endpoint
//! (`athleteapp.php?page=event&do=get&event_id=<id>`): the competition's
//! name, date, place and description, and a table of the categories that
//! may take part, with their events and prices.

use vstd::prelude::*;
use crate::error::ParseError;
use crate::html::{
    attr, attribute_of, css, css_compiles, first_in, first_in_document, first_in_page,
    first_picked, picked_spots, select_from, spots, texts, texts_of, Css, Element, Page, Spot,
};
use crate::models::athlete_profile_mobile::{country_code_in, extract_country_code};
use crate::text::{
    join_texts, contains, contains_char, first_text, first_text_of, has_sub, joined,
    keep_nonempty_trimmed, nonempty_trimmed, opt_seq_view, opt_view, parse_usize, replace, replaced, seq_view,
    split_char, split_on, strip_trailing, trim, trim_end_matches, trimmed, unsigned_value,
};

verus! {

/// A competition, as its detail page describes it.
#[derive(Debug)]
pub struct MobileCompetitionDetail {
    pub name: String,
    pub date: String,
    pub location: String,
    pub country_code: String,
    pub description: Option<String>,
    pub federation_recognized: bool,
    pub categories: Vec<CompetitionCategoryGroup>,
}

/// Age groups that share their events.
#[derive(Debug)]
pub struct CompetitionCategoryGroup {
    /// Age group names, e.g. "Senior Men", "U20 Men".
    pub age_groups: Vec<String>,
    /// The event groups open to these age groups.
    pub event_groups: Vec<CompetitionEventGroup>,
}

/// A group of events, such as the sprints.
#[derive(Debug)]
pub struct CompetitionEventGroup {
    /// e.g. "Sprint", "Mid. dist.", "Throw".
    pub label: String,
    /// Event names, e.g. "100m", "200m".
    pub events: Vec<String>,
    /// Price per event, e.g. "€5.00".
    pub price: Option<String>,
    /// What the tooltips say of starting places and reserves.
    pub capacity_info: Vec<String>,
}

/// A `CompetitionEventGroup` taken by its texts.
pub struct EventGroupView {
    pub label: Seq<char>,
    pub events: Seq<Seq<char>>,
    pub price: Option<Seq<char>>,
    pub capacity_info: Seq<Seq<char>>,
}

/// A `CompetitionCategoryGroup` taken by its texts.
pub struct CategoryGroupView {
    pub age_groups: Seq<Seq<char>>,
    pub event_groups: Seq<EventGroupView>,
}

/// A `MobileCompetitionDetail` taken by its texts.
pub struct CompetitionDetailView {
    pub name: Seq<char>,
    pub date: Seq<char>,
    pub location: Seq<char>,
    pub country_code: Seq<char>,
    pub description: Option<Seq<char>>,
    pub federation_recognized: bool,
    pub categories: Seq<CategoryGroupView>,
}

impl View for CompetitionEventGroup {
    type V = EventGroupView;

    open spec fn view(&self) -> EventGroupView {
        EventGroupView {
            label: self.label@,
            events: seq_view(self.events@),
            price: opt_view(self.price),
            capacity_info: seq_view(self.capacity_info@),
        }
    }
}

/// Event groups taken by their views.
pub open spec fn groups_view(v: Seq<CompetitionEventGroup>) -> Seq<EventGroupView> {
    v.map_values(|g: CompetitionEventGroup| g@)
}

impl View for CompetitionCategoryGroup {
    type V = CategoryGroupView;

    open spec fn view(&self) -> CategoryGroupView {
        CategoryGroupView {
            age_groups: seq_view(self.age_groups@),
            event_groups: groups_view(self.event_groups@),
        }
    }
}

/// Category groups taken by their views.
pub open spec fn categories_view(v: Seq<CompetitionCategoryGroup>) -> Seq<CategoryGroupView> {
    v.map_values(|c: CompetitionCategoryGroup| c@)
}

impl View for MobileCompetitionDetail {
    type V = CompetitionDetailView;

    open spec fn view(&self) -> CompetitionDetailView {
        CompetitionDetailView {
            name: self.name@,
            date: self.date@,
            location: self.location@,
            country_code: self.country_code@,
            description: opt_view(self.description),
            federation_recognized: self.federation_recognized,
            categories: categories_view(self.categories@),
        }
    }
}

// ---------------------------------------------------------------------------
// One row of the categories table
// ---------------------------------------------------------------------------

/// What the parser reads of one `<td>` of the categories table.
pub struct CellSource {
    /// Its text nodes.
    pub texts: Vec<String>,
    /// The `title` of each `span.tipped` in it, in order.
    pub tipped_titles: Vec<Option<String>>,
    /// Its `rowspan` attribute.
    pub rowspan: Option<String>,
}

/// A `CellSource` taken by its texts.
pub ghost struct CellView {
    pub texts: Seq<Seq<char>>,
    pub tipped_titles: Seq<Option<Seq<char>>>,
    pub rowspan: Option<Seq<char>>,
}

impl View for CellSource {
    type V = CellView;

    open spec fn view(&self) -> CellView {
        CellView {
            texts: seq_view(self.texts@),
            tipped_titles: self.tipped_titles@.map_values(|o: Option<String>| opt_view(o)),
            rowspan: opt_view(self.rowspan),
        }
    }
}

/// Cells taken by their views.
pub open spec fn cells_view(cells: Seq<CellSource>) -> Seq<CellView> {
    cells.map_values(|c: CellSource| c@)
}

/// The titles of the tooltips of a cell, each trimmed (a missing title is
/// empty).
pub open spec fn titles_of(cell: CellView) -> Seq<Seq<char>> {
    cell.tipped_titles.map_values(
        |o: Option<Seq<char>>|
            match o {
                Some(t) => trimmed(t),
                None => Seq::empty(),
            },
    )
}

/// A tooltip that speaks of starting places or reserves.
pub open spec fn is_capacity(t: Seq<char>) -> bool {
    has_sub(t, "starting places"@) || has_sub(t, "reserve"@)
}

/// The titles that speak of starting places or reserves.
pub open spec fn capacity_titles(titles: Seq<Seq<char>>) -> Seq<Seq<char>>
    decreases titles.len(),
{
    if titles.len() == 0 {
        Seq::empty()
    } else {
        let init = capacity_titles(titles.drop_last());
        if is_capacity(titles.last()) {
            init.push(titles.last())
        } else {
            init
        }
    }
}

/// The titles that name events: the others, when not empty.
pub open spec fn event_titles(titles: Seq<Seq<char>>) -> Seq<Seq<char>>
    decreases titles.len(),
{
    if titles.len() == 0 {
        Seq::empty()
    } else {
        let init = event_titles(titles.drop_last());
        if !is_capacity(titles.last()) && titles.last().len() > 0 {
            init.push(titles.last())
        } else {
            init
        }
    }
}

/// The events of the second cell of a row: the event titles of its
/// tooltips; when there are none, the comma-separated parts of its text,
/// unless that text is blank or speaks of capacity.
pub open spec fn row_events(cell: CellView) -> Seq<Seq<char>> {
    let from_titles = event_titles(titles_of(cell));
    if from_titles.len() == 0 {
        let text = trimmed(joined(cell.texts));
        if text.len() > 0 && !is_capacity(text) {
            nonempty_trimmed(split_char(text, ','))
        } else {
            Seq::empty()
        }
    } else {
        from_titles
    }
}

/// The price in the text of a row's last cell, when it names one
/// (a euro sign, `free` or `gratis`).
pub open spec fn price_of(cell: CellView) -> Option<Seq<char>> {
    let t = trimmed(joined(cell.texts));
    if t.contains('€') || has_sub(t, "free"@) || has_sub(t, "gratis"@) {
        Some(t)
    } else {
        None
    }
}

/// The event group of a row of cells (`parse_event_row`): the first cell is
/// the label (less a trailing colon), the second holds the events and the
/// capacity, the last the price. None for no cells, or when both label and
/// events are empty.
pub open spec fn event_row(cells: Seq<CellView>) -> Option<EventGroupView> {
    if cells.len() == 0 {
        None
    } else {
        let label = strip_trailing(trimmed(joined(cells[0].texts)), ':');
        let events = if cells.len() > 1 {
            row_events(cells[1])
        } else {
            Seq::empty()
        };
        let capacity = if cells.len() > 1 {
            capacity_titles(titles_of(cells[1]))
        } else {
            Seq::empty()
        };
        if label.len() > 0 || events.len() > 0 {
            Some(
                EventGroupView {
                    label,
                    events,
                    price: price_of(cells.last()),
                    capacity_info: capacity,
                },
            )
        } else {
            None
        }
    }
}

/// The trimmed titles of a cell's tooltips.
pub fn cell_titles(cell: &CellSource) -> (r: Vec<String>)
    ensures
        seq_view(r@) == titles_of(cell@),
{
    let mut out: Vec<String> = Vec::new();
    let mut i: usize = 0;
    while i < cell.tipped_titles.len()
        invariant
            0 <= i <= cell.tipped_titles@.len(),
            seq_view(out@) == titles_of(cell@).take(i as int),
        decreases cell.tipped_titles.len() - i,
    {
        let t = match &cell.tipped_titles[i] {
            Some(t) => trim(t.as_str()),
            None => String::new(),
        };
        let ghost before = seq_view(out@);
        out.push(t);
        assert(seq_view(out@) =~= before.push(t@));
        assert(titles_of(cell@).take(i + 1) =~= titles_of(cell@).take(i as int).push(t@));
        i += 1;
    }
    assert(titles_of(cell@).take(cell.tipped_titles@.len() as int) =~= titles_of(cell@));
    out
}

/// Whether a text speaks of starting places or reserves.
pub fn speaks_of_capacity(t: &str) -> (r: bool)
    ensures
        r == is_capacity(t@),
{
    contains(t, "starting places") || contains(t, "reserve")
}

/// The titles that speak of capacity.
pub fn capacity_from_titles(titles: &Vec<String>) -> (r: Vec<String>)
    ensures
        seq_view(r@) == capacity_titles(seq_view(titles@)),
{
    let ghost all = seq_view(titles@);
    let mut out: Vec<String> = Vec::new();
    let mut i: usize = 0;
    while i < titles.len()
        invariant
            all == seq_view(titles@),
            0 <= i <= titles@.len(),
            seq_view(out@) == capacity_titles(all.take(i as int)),
        decreases titles.len() - i,
    {
        assert(all.take(i + 1).drop_last() =~= all.take(i as int));
        assert(all.take(i + 1).last() == titles@[i as int]@);
        if speaks_of_capacity(titles[i].as_str()) {
            let t = titles[i].clone();
            let ghost before = seq_view(out@);
            out.push(t);
            assert(seq_view(out@) =~= before.push(t@));
        }
        i += 1;
    }
    assert(all.take(titles@.len() as int) =~= all);
    out
}

/// The titles that name events.
pub fn events_from_titles(titles: &Vec<String>) -> (r: Vec<String>)
    ensures
        seq_view(r@) == event_titles(seq_view(titles@)),
{
    let ghost all = seq_view(titles@);
    let mut out: Vec<String> = Vec::new();
    let mut i: usize = 0;
    while i < titles.len()
        invariant
            all == seq_view(titles@),
            0 <= i <= titles@.len(),
            seq_view(out@) == event_titles(all.take(i as int)),
        decreases titles.len() - i,
    {
        assert(all.take(i + 1).drop_last() =~= all.take(i as int));
        assert(all.take(i + 1).last() == titles@[i as int]@);
        if !speaks_of_capacity(titles[i].as_str()) && titles[i].as_str().unicode_len() > 0 {
            let t = titles[i].clone();
            let ghost before = seq_view(out@);
            out.push(t);
            assert(seq_view(out@) =~= before.push(t@));
        }
        i += 1;
    }
    assert(all.take(titles@.len() as int) =~= all);
    out
}

/// The events of the second cell of a row.
pub fn events_of_cell(cell: &CellSource) -> (r: Vec<String>)
    ensures
        seq_view(r@) == row_events(cell@),
{
    let titles = cell_titles(cell);
    let events = events_from_titles(&titles);
    if events.len() == 0 {
        let text = trim(join_texts(&cell.texts).as_str());
        if text.as_str().unicode_len() > 0 && !speaks_of_capacity(text.as_str()) {
            let parts = split_on(text.as_str(), ',');
            keep_nonempty_trimmed(&parts)
        } else {
            Vec::new()
        }
    } else {
        events
    }
}

/// The price named in a cell.
pub fn price_in(cell: &CellSource) -> (r: Option<String>)
    ensures
        opt_view(r) == price_of(cell@),
{
    let t = trim(join_texts(&cell.texts).as_str());
    if contains_char(t.as_str(), '€') || contains(t.as_str(), "free") || contains(
        t.as_str(),
        "gratis",
    ) {
        Some(t)
    } else {
        None
    }
}

/// The event group of the cells of a row from `from` on (`parse_event_row`).
pub fn parse_event_row(cells: &Vec<CellSource>, from: usize) -> (r: Option<CompetitionEventGroup>)
    requires
        from <= cells.len(),
    ensures
        match r {
            Some(g) => event_row(cells_view(cells@).skip(from as int)) == Some(g@),
            None => event_row(cells_view(cells@).skip(from as int)) is None,
        },
{
    let ghost cs = cells_view(cells@).skip(from as int);
    if from >= cells.len() {
        return None;
    }
    assert(cs[0] == cells@[from as int]@);
    let label = trim_end_matches(trim(join_texts(&cells[from].texts).as_str()).as_str(), ':');
    let mut events: Vec<String> = Vec::new();
    let mut capacity_info: Vec<String> = Vec::new();
    if cells.len() - from > 1 {
        assert(cs[1] == cells@[from + 1]@);
        let second = &cells[from + 1];
        let titles = cell_titles(second);
        capacity_info = capacity_from_titles(&titles);
        events = events_of_cell(second);
        if capacity_info.len() == 0 {
            // The tooltips are read once more for capacity; they are the
            // same tooltips, so this finds what the first reading found.
            capacity_info = capacity_from_titles(&titles);
        }
    } else {
        assert(seq_view(events@) =~= Seq::<Seq<char>>::empty());
        assert(seq_view(capacity_info@) =~= Seq::<Seq<char>>::empty());
    }
    assert(cs.last() == cells@[cells@.len() - 1]@);
    let price = price_in(&cells[cells.len() - 1]);
    if label.as_str().unicode_len() > 0 || events.len() > 0 {
        Some(CompetitionEventGroup { label, events, price, capacity_info })
    } else {
        None
    }
}


// ---------------------------------------------------------------------------
// The categories table
// ---------------------------------------------------------------------------

/// The rows of a table taken by their cells.
pub open spec fn rows_view(rows: Seq<Vec<CellSource>>) -> Seq<Seq<CellView>> {
    rows.map_values(|r: Vec<CellSource>| cells_view(r@))
}

/// Whether a cell has tooltips.
pub open spec fn has_tooltips(cell: CellView) -> bool {
    cell.tipped_titles.len() > 0
}

/// Whether a row opens a group of categories: its first cell has tooltips
/// (the age groups) and either spans rows or the row has four cells or more.
pub open spec fn starts_category(cells: Seq<CellView>) -> bool {
    cells.len() > 0 && has_tooltips(cells[0]) && (cells[0].rowspan is Some || cells.len() >= 4)
}

/// How many rows a cell spans: its `rowspan` when that reads as a number,
/// else one.
pub open spec fn rowspan_of(cell: CellView) -> int {
    match cell.rowspan {
        Some(r) => match unsigned_value(r, usize::MAX as int) {
            Some(v) => v,
            None => 1,
        },
        None => 1,
    }
}

/// The texts that are not empty.
pub open spec fn nonempty_texts(ts: Seq<Seq<char>>) -> Seq<Seq<char>>
    decreases ts.len(),
{
    if ts.len() == 0 {
        Seq::empty()
    } else {
        let init = nonempty_texts(ts.drop_last());
        if ts.last().len() > 0 {
            init.push(ts.last())
        } else {
            init
        }
    }
}

/// The event groups of the rows after row `i` that a group spanning `k` rows
/// covers: rows `i + 1` to `i + k - 1` that exist and have cells.
pub open spec fn sub_row_groups(rows: Seq<Seq<CellView>>, i: int, k: int) -> Seq<EventGroupView>
    decreases k,
{
    if k <= 1 {
        Seq::empty()
    } else {
        let init = sub_row_groups(rows, i, k - 1);
        let j = i + k - 1;
        if j < rows.len() && rows[j].len() > 0 {
            match event_row(rows[j]) {
                Some(g) => init.push(g),
                None => init,
            }
        } else {
            init
        }
    }
}

/// A present event group as a sequence of one, an absent one as none.
pub open spec fn opt_group(g: Option<EventGroupView>) -> Seq<EventGroupView> {
    match g {
        Some(x) => seq![x],
        None => Seq::empty(),
    }
}

/// The category group that row `i` opens.
pub open spec fn category_at(rows: Seq<Seq<CellView>>, i: int) -> CategoryGroupView {
    let cells = rows[i];
    CategoryGroupView {
        age_groups: nonempty_texts(titles_of(cells[0])),
        event_groups: opt_group(event_row(cells.skip(1))) + sub_row_groups(
            rows,
            i,
            rowspan_of(cells[0]),
        ),
    }
}

/// The category groups from row `i` on.
pub open spec fn categories_from(rows: Seq<Seq<CellView>>, i: int) -> Seq<CategoryGroupView>
    decreases rows.len() - i,
{
    if i < 0 || i >= rows.len() {
        Seq::empty()
    } else if rows[i].len() > 0 && starts_category(rows[i]) {
        let span = rowspan_of(rows[i][0]);
        let step = if span > 0 {
            span
        } else {
            1
        };
        let next = if i + step < rows.len() {
            i + step
        } else {
            rows.len() as int
        };
        seq![category_at(rows, i)] + categories_from(rows, next)
    } else {
        categories_from(rows, i + 1)
    }
}

/// Whether the walk from row `i` ends: it never meets a group that spans
/// zero rows (where the walk would stand still for ever).
pub open spec fn walk_ends(rows: Seq<Seq<CellView>>, i: int) -> bool
    decreases rows.len() - i,
{
    if i < 0 || i >= rows.len() {
        true
    } else if rows[i].len() > 0 && starts_category(rows[i]) {
        let span = rowspan_of(rows[i][0]);
        let next = if i + span < rows.len() {
            i + span
        } else {
            rows.len() as int
        };
        span > 0 && walk_ends(rows, next)
    } else {
        walk_ends(rows, i + 1)
    }
}

/// Where the walk starts: past the header row, when there is a row.
pub open spec fn first_row(rows: Seq<Seq<CellView>>) -> int {
    if rows.len() > 0 {
        1
    } else {
        0
    }
}

/// The category groups of the table.
pub open spec fn categories_of(rows: Seq<Seq<CellView>>) -> Seq<CategoryGroupView> {
    categories_from(rows, first_row(rows))
}

/// How many rows a cell spans.
pub fn rowspan(cell: &CellSource) -> (r: usize)
    ensures
        r as int == rowspan_of(cell@),
{
    match &cell.rowspan {
        Some(t) => match parse_usize(t.as_str()) {
            Some(v) => v,
            None => 1,
        },
        None => 1,
    }
}

/// Whether a row opens a group of categories.
pub fn opens_category(cells: &Vec<CellSource>) -> (r: bool)
    ensures
        r == starts_category(cells_view(cells@)),
{
    cells.len() > 0 && cells[0].tipped_titles.len() > 0 && (cells[0].rowspan.is_some()
        || cells.len() >= 4)
}

/// The texts that are not empty.
pub fn keep_nonempty(ts: &Vec<String>) -> (r: Vec<String>)
    ensures
        seq_view(r@) == nonempty_texts(seq_view(ts@)),
{
    let ghost all = seq_view(ts@);
    let mut out: Vec<String> = Vec::new();
    let mut i: usize = 0;
    while i < ts.len()
        invariant
            all == seq_view(ts@),
            0 <= i <= ts@.len(),
            seq_view(out@) == nonempty_texts(all.take(i as int)),
        decreases ts.len() - i,
    {
        assert(all.take(i + 1).drop_last() =~= all.take(i as int));
        assert(all.take(i + 1).last() == ts@[i as int]@);
        if ts[i].as_str().unicode_len() > 0 {
            let t = ts[i].clone();
            let ghost before = seq_view(out@);
            out.push(t);
            assert(seq_view(out@) =~= before.push(t@));
        }
        i += 1;
    }
    assert(all.take(ts@.len() as int) =~= all);
    out
}

proof fn lemma_sub_rows_past_end(rows: Seq<Seq<CellView>>, i: int, j: int, k: int)
    requires
        1 <= j <= k,
        i + j >= rows.len(),
    ensures
        sub_row_groups(rows, i, k) == sub_row_groups(rows, i, j),
    decreases k - j,
{
    if k > j {
        lemma_sub_rows_past_end(rows, i, j, k - 1);
    }
}

/// The category group that row `i` opens, with the event groups of the rows
/// it spans.
fn category_group_at(rows: &Vec<Vec<CellSource>>, i: usize) -> (r: CompetitionCategoryGroup)
    requires
        i < rows.len(),
        rows@[i as int].len() > 0,
    ensures
        r@ == category_at(rows_view(rows@), i as int),
{
    let ghost rv = rows_view(rows@);
    let cells = &rows[i];
    assert(rv[i as int] == cells_view(cells@));
    let titles = cell_titles(&cells[0]);
    let age_groups = keep_nonempty(&titles);
    let span = rowspan(&cells[0]);
    let mut event_groups: Vec<CompetitionEventGroup> = Vec::new();
    match parse_event_row(cells, 1) {
        Some(g) => {
            event_groups.push(g);
        },
        None => {},
    }
    let ghost head = groups_view(event_groups@);
    assert(head =~= opt_group(event_row(cells_view(cells@).skip(1))));
    let mut j: usize = 1;
    assert(head + Seq::<EventGroupView>::empty() =~= head);
    while j < span && j < rows.len() - i
        invariant
            rv == rows_view(rows@),
            i < rows@.len(),
            1 <= j,
            j <= span || span < 1,
            span < 1 ==> j == 1,
            groups_view(event_groups@) == head + sub_row_groups(rv, i as int, j as int),
        decreases span - j,
    {
        let ghost before = groups_view(event_groups@);
        let row = &rows[i + j];
        assert(rv[i + j] == cells_view(row@));
        if row.len() > 0 {
            match parse_event_row(row, 0) {
                Some(g) => {
                    assert(cells_view(row@).skip(0) =~= cells_view(row@));
                    event_groups.push(g);
                    assert(groups_view(event_groups@) =~= before.push(g@));
                },
                None => {
                    assert(cells_view(row@).skip(0) =~= cells_view(row@));
                },
            }
        }
        j += 1;
    }
    proof {
        if span >= 1 && j < span {
            lemma_sub_rows_past_end(rv, i as int, j as int, span as int);
        }
        if span < 1 {
            assert(sub_row_groups(rv, i as int, span as int) =~= Seq::<EventGroupView>::empty());
            assert(sub_row_groups(rv, i as int, j as int) =~= Seq::<EventGroupView>::empty());
        }
    }
    CompetitionCategoryGroup { age_groups, event_groups }
}

/// Whether the walk over the table's rows ends (see `walk_ends`).
pub fn walk_terminates(rows: &Vec<Vec<CellSource>>) -> (r: bool)
    ensures
        r == walk_ends(rows_view(rows@), first_row(rows_view(rows@))),
{
    let ghost rv = rows_view(rows@);
    let mut i: usize = if rows.len() > 0 {
        1
    } else {
        0
    };
    while i < rows.len()
        invariant
            rv == rows_view(rows@),
            i <= rows@.len(),
            walk_ends(rv, first_row(rv)) == walk_ends(rv, i as int),
        decreases rows.len() - i,
    {
        let cells = &rows[i];
        assert(rv[i as int] == cells_view(cells@));
        if cells.len() > 0 && opens_category(cells) {
            let span = rowspan(&cells[0]);
            if span == 0 {
                return false;
            }
            if span >= rows.len() - i {
                i = rows.len();
            } else {
                i = i + span;
            }
        } else {
            i += 1;
        }
    }
    true
}

/// The category groups of the table's rows, the first row being the header.
pub fn categories_from_rows(rows: &Vec<Vec<CellSource>>) -> (r: Vec<CompetitionCategoryGroup>)
    requires
        walk_ends(rows_view(rows@), first_row(rows_view(rows@))),
    ensures
        categories_view(r@) == categories_of(rows_view(rows@)),
{
    let ghost rv = rows_view(rows@);
    let mut out: Vec<CompetitionCategoryGroup> = Vec::new();
    let mut i: usize = if rows.len() > 0 {
        1
    } else {
        0
    };
    assert(categories_view(out@) + categories_of(rv) =~= categories_of(rv));
    while i < rows.len()
        invariant
            rv == rows_view(rows@),
            i <= rows@.len(),
            walk_ends(rv, i as int),
            categories_of(rv) == categories_view(out@) + categories_from(rv, i as int),
        decreases rows.len() - i,
    {
        let cells = &rows[i];
        assert(rv[i as int] == cells_view(cells@));
        if cells.len() > 0 && opens_category(cells) {
            let g = category_group_at(rows, i);
            let span = rowspan(&cells[0]);
            let ghost before = categories_view(out@);
            out.push(g);
            assert(categories_view(out@) =~= before.push(g@));
            if span >= rows.len() - i {
                i = rows.len();
            } else {
                i = i + span;
            }
        } else {
            i += 1;
        }
    }
    assert(categories_view(out@) + Seq::<CategoryGroupView>::empty() =~= categories_view(out@));
    out
}


// ---------------------------------------------------------------------------
// The page
// ---------------------------------------------------------------------------

/// The CSS selector of the competition's heading.
pub const NAME_SELECTOR: &'static str = "h2.no-margin";

/// The CSS selector of the page header.
pub const HEADER_SELECTOR: &'static str = ".event-header-container";

/// The CSS selector of the paragraphs of the header.
pub const PARAGRAPH_SELECTOR: &'static str = "p";

/// The CSS selector of the flag in a paragraph.
pub const FLAG_SELECTOR: &'static str = "img.flagicon";

/// The CSS selector of the description.
pub const DESCRIPTION_SELECTOR: &'static str = ".event-description";

/// The CSS selector of the federation's badge.
pub const BADGE_SELECTOR: &'static str = "i.atletiekunie";

/// The CSS selector of the categories table.
pub const TABLE_SELECTOR: &'static str = "table.categorieenonderdelenpakket";

/// The CSS selector of the rows of the table.
pub const ROW_SELECTOR: &'static str = "tr";

/// The CSS selector of the cells of a row.
pub const CELL_SELECTOR: &'static str = "td";

/// The CSS selector of the tooltips of a cell.
pub const TIPPED_SELECTOR: &'static str = "span.tipped";

/// Whether every selector of the parser compiles.
pub open spec fn selectors_compile() -> bool {
    &&& css_compiles(NAME_SELECTOR@)
    &&& css_compiles(HEADER_SELECTOR@)
    &&& css_compiles(PARAGRAPH_SELECTOR@)
    &&& css_compiles(FLAG_SELECTOR@)
    &&& css_compiles(DESCRIPTION_SELECTOR@)
    &&& css_compiles(BADGE_SELECTOR@)
    &&& css_compiles(TABLE_SELECTOR@)
    &&& css_compiles(ROW_SELECTOR@)
    &&& css_compiles(CELL_SELECTOR@)
    &&& css_compiles(TIPPED_SELECTOR@)
}

/// What the parser reads of a paragraph of the page header.
pub struct ParagraphSource {
    /// Its text nodes.
    pub texts: Vec<String>,
    /// The `src` of its first `img.flagicon`, if it has one.
    pub flag_src: Option<String>,
}

/// A `ParagraphSource` taken by its texts.
pub ghost struct ParagraphView {
    pub texts: Seq<Seq<char>>,
    pub flag_src: Option<Seq<char>>,
}

impl View for ParagraphSource {
    type V = ParagraphView;

    open spec fn view(&self) -> ParagraphView {
        ParagraphView { texts: seq_view(self.texts@), flag_src: opt_view(self.flag_src) }
    }
}

/// Paragraphs taken by their views.
pub open spec fn paragraphs_view(ps: Seq<ParagraphSource>) -> Seq<ParagraphView> {
    ps.map_values(|p: ParagraphSource| p@)
}

/// What the parser reads of the detail page.
pub struct DetailSource {
    /// The text nodes of the first `h2.no-margin`.
    pub name_texts: Option<Vec<String>>,
    /// The paragraphs of the first `.event-header-container`.
    pub header: Option<Vec<ParagraphSource>>,
    /// The text nodes of the first `.event-description`.
    pub description_texts: Option<Vec<String>>,
    /// Whether the page has an `i.atletiekunie` badge.
    pub federation_badge: bool,
    /// The rows (`tr`), each as its cells (`td`), of the first
    /// `table.categorieenonderdelenpakket`.
    pub table: Option<Vec<Vec<CellSource>>>,
}

/// A `DetailSource` taken by its texts.
pub ghost struct DetailView {
    pub name_texts: Option<Seq<Seq<char>>>,
    pub header: Option<Seq<ParagraphView>>,
    pub description_texts: Option<Seq<Seq<char>>>,
    pub federation_badge: bool,
    pub table: Option<Seq<Seq<CellView>>>,
}

impl View for DetailSource {
    type V = DetailView;

    open spec fn view(&self) -> DetailView {
        DetailView {
            name_texts: opt_seq_view(self.name_texts),
            header: match self.header {
                Some(ps) => Some(paragraphs_view(ps@)),
                None => None,
            },
            description_texts: opt_seq_view(self.description_texts),
            federation_badge: self.federation_badge,
            table: match self.table {
                Some(rows) => Some(rows_view(rows@)),
                None => None,
            },
        }
    }
}

/// What the parser reads of the cell at `td`.
pub open spec fn cell_at(td: Spot) -> CellView {
    CellView {
        texts: texts_of(td),
        tipped_titles: picked_spots(td, TIPPED_SELECTOR@).map_values(
            |t: Spot| attribute_of(t, "title"@),
        ),
        rowspan: attribute_of(td, "rowspan"@),
    }
}

/// What the parser reads of the row at `tr`: its cells.
pub open spec fn row_cells_at(tr: Spot) -> Seq<CellView> {
    picked_spots(tr, CELL_SELECTOR@).map_values(|td: Spot| cell_at(td))
}

/// What the parser reads of the table at `t`: its rows.
pub open spec fn table_at(t: Spot) -> Seq<Seq<CellView>> {
    picked_spots(t, ROW_SELECTOR@).map_values(|tr: Spot| row_cells_at(tr))
}

/// What the parser reads of the header paragraph at `p`.
pub open spec fn paragraph_at(p: Spot) -> ParagraphView {
    ParagraphView {
        texts: texts_of(p),
        flag_src: match first_picked(p, FLAG_SELECTOR@) {
            Some(img) => attribute_of(img, "src"@),
            None => None,
        },
    }
}

/// What the parser reads of the page.
pub open spec fn page_detail(page: Seq<char>) -> DetailView {
    DetailView {
        name_texts: match first_in_document(page, NAME_SELECTOR@) {
            Some(h) => Some(texts_of(h)),
            None => None,
        },
        header: match first_in_document(page, HEADER_SELECTOR@) {
            Some(h) => Some(picked_spots(h, PARAGRAPH_SELECTOR@).map_values(|p: Spot| paragraph_at(p))),
            None => None,
        },
        description_texts: match first_in_document(page, DESCRIPTION_SELECTOR@) {
            Some(d) => Some(texts_of(d)),
            None => None,
        },
        federation_badge: first_in_document(page, BADGE_SELECTOR@) is Some,
        table: match first_in_document(page, TABLE_SELECTOR@) {
            Some(t) => Some(table_at(t)),
            None => None,
        },
    }
}

/// The paragraphs of the header, when the page has one.
pub open spec fn header_paragraphs(src: DetailView) -> Seq<ParagraphView> {
    match src.header {
        Some(ps) => ps,
        None => Seq::empty(),
    }
}

/// The rows of the categories table, when the page has one.
pub open spec fn table_rows(src: DetailView) -> Seq<Seq<CellView>> {
    match src.table {
        Some(rows) => rows,
        None => Seq::empty(),
    }
}

/// The date of the second header paragraph, less the template marker
/// `{{_ "u"}}` that the page leaves in it.
pub open spec fn date_of(p: ParagraphView) -> Seq<char> {
    trimmed(replaced(trimmed(joined(p.texts)), "{{_ \"u\"}}"@, Seq::empty()))
}

/// The competition that the page describes: its name is the first text of
/// its heading; the first header paragraph gives place and flag, the second
/// the date; the description is kept unless blank; and the table gives the
/// category groups.
pub open spec fn detail_of(src: DetailView) -> CompetitionDetailView {
    let ps = header_paragraphs(src);
    CompetitionDetailView {
        name: match src.name_texts {
            Some(t) => first_text(t),
            None => Seq::empty(),
        },
        date: if ps.len() > 1 {
            date_of(ps[1])
        } else {
            Seq::empty()
        },
        location: if ps.len() > 0 {
            trimmed(joined(ps[0].texts))
        } else {
            Seq::empty()
        },
        country_code: if ps.len() > 0 {
            match ps[0].flag_src {
                Some(f) => country_code_in(f),
                None => Seq::empty(),
            }
        } else {
            Seq::empty()
        },
        description: match src.description_texts {
            Some(t) => {
                let d = trimmed(joined(t));
                if d.len() > 0 {
                    Some(d)
                } else {
                    None
                }
            },
            None => None,
        },
        federation_recognized: src.federation_badge,
        categories: categories_of(table_rows(src)),
    }
}

/// Whether the walk over the page's table ends (see `walk_ends`).
pub open spec fn table_walk_ends(src: DetailView) -> bool {
    walk_ends(table_rows(src), first_row(table_rows(src)))
}

/// The competition that what was read of the page describes.
pub fn detail_from_source(src: &DetailSource) -> (r: MobileCompetitionDetail)
    requires
        table_walk_ends(src@),
    ensures
        r@ == detail_of(src@),
{
    proof {
        reveal_strlit("{{_ \"u\"}}");
        reveal_strlit("");
    }
    let name = match &src.name_texts {
        Some(t) => first_text_of(t),
        None => String::new(),
    };
    let mut location = String::new();
    let mut date = String::new();
    let mut country_code = String::new();
    match &src.header {
        Some(ps) => {
            if ps.len() > 0 {
                location = trim(join_texts(&ps[0].texts).as_str());
                match &ps[0].flag_src {
                    Some(f) => {
                        country_code = extract_country_code(f.as_str());
                    },
                    None => {},
                }
            }
            if ps.len() > 1 {
                let t = trim(join_texts(&ps[1].texts).as_str());
                let u = replace(t.as_str(), "{{_ \"u\"}}", "");
                assert(""@ =~= Seq::<char>::empty());
                date = trim(u.as_str());
            }
        },
        None => {},
    }
    let description = match &src.description_texts {
        Some(t) => {
            let d = trim(join_texts(t).as_str());
            if d.as_str().unicode_len() > 0 {
                Some(d)
            } else {
                None
            }
        },
        None => None,
    };
    let categories = match &src.table {
        Some(rows) => categories_from_rows(rows),
        None => {
            let v: Vec<CompetitionCategoryGroup> = Vec::new();
            assert(categories_view(v@) =~= categories_of(Seq::<Seq<CellView>>::empty()));
            v
        },
    };
    MobileCompetitionDetail {
        name,
        date,
        location,
        country_code,
        description,
        federation_recognized: src.federation_badge,
        categories,
    }
}

/// The compiled selectors of the parser.
struct Selectors {
    name: Css,
    header: Css,
    paragraph: Css,
    flag: Css,
    description: Css,
    badge: Css,
    table: Css,
    row: Css,
    cell: Css,
    tipped: Css,
}

impl Selectors {
    spec fn wf(&self) -> bool {
        &&& self.name@ == NAME_SELECTOR@
        &&& self.header@ == HEADER_SELECTOR@
        &&& self.paragraph@ == PARAGRAPH_SELECTOR@
        &&& self.flag@ == FLAG_SELECTOR@
        &&& self.description@ == DESCRIPTION_SELECTOR@
        &&& self.badge@ == BADGE_SELECTOR@
        &&& self.table@ == TABLE_SELECTOR@
        &&& self.row@ == ROW_SELECTOR@
        &&& self.cell@ == CELL_SELECTOR@
        &&& self.tipped@ == TIPPED_SELECTOR@
    }
}

/// Compiles the selectors of the parser.
fn selectors() -> (r: Result<Selectors, ParseError>)
    ensures
        match r {
            Ok(s) => selectors_compile() && s.wf(),
            Err(e) => e == ParseError::InvalidSelector && !selectors_compile(),
        },
{
    Ok(
        Selectors {
            name: css(NAME_SELECTOR)?,
            header: css(HEADER_SELECTOR)?,
            paragraph: css(PARAGRAPH_SELECTOR)?,
            flag: css(FLAG_SELECTOR)?,
            description: css(DESCRIPTION_SELECTOR)?,
            badge: css(BADGE_SELECTOR)?,
            table: css(TABLE_SELECTOR)?,
            row: css(ROW_SELECTOR)?,
            cell: css(CELL_SELECTOR)?,
            tipped: css(TIPPED_SELECTOR)?,
        },
    )
}

/// Reads what the parser needs of a table cell.
fn read_cell(td: &Element, sel: &Selectors) -> (r: CellSource)
    requires
        sel.wf(),
    ensures
        r@ == cell_at(td@),
{
    let spans = select_from(td, &sel.tipped);
    let mut tipped_titles: Vec<Option<String>> = Vec::new();
    let mut i: usize = 0;
    while i < spans.len()
        invariant
            0 <= i <= spans@.len(),
            tipped_titles@.len() == i,
            spots(spans@) == picked_spots(td@, TIPPED_SELECTOR@),
            forall|j: int|
                0 <= j < i ==> opt_view(#[trigger] tipped_titles@[j]) == attribute_of(
                    spans@[j]@,
                    "title"@,
                ),
        decreases spans.len() - i,
    {
        tipped_titles.push(attr(&spans[i], "title"));
        i += 1;
    }
    let r = CellSource { texts: texts(td), tipped_titles, rowspan: attr(td, "rowspan") };
    proof {
        let want = picked_spots(td@, TIPPED_SELECTOR@).map_values(
            |t: Spot| attribute_of(t, "title"@),
        );
        assert forall|j: int| 0 <= j < want.len() implies r@.tipped_titles[j] == want[j] by {
            assert(spots(spans@)[j] == spans@[j]@);
        }
        assert(r@.tipped_titles =~= want);
    }
    r
}

/// Reads the cells of a table row.
fn read_row(tr: &Element, sel: &Selectors) -> (r: Vec<CellSource>)
    requires
        sel.wf(),
    ensures
        cells_view(r@) == row_cells_at(tr@),
{
    let tds = select_from(tr, &sel.cell);
    let mut cells: Vec<CellSource> = Vec::new();
    let mut k: usize = 0;
    while k < tds.len()
        invariant
            0 <= k <= tds@.len(),
            sel.wf(),
            cells@.len() == k,
            spots(tds@) == picked_spots(tr@, CELL_SELECTOR@),
            forall|j: int| 0 <= j < k ==> (#[trigger] cells@[j])@ == cell_at(tds@[j]@),
        decreases tds.len() - k,
    {
        cells.push(read_cell(&tds[k], sel));
        k += 1;
    }
    proof {
        assert forall|j: int| 0 <= j < cells@.len() implies cells_view(cells@)[j]
            == row_cells_at(tr@)[j] by {
            assert(spots(tds@)[j] == tds@[j]@);
        }
        assert(cells_view(cells@) =~= row_cells_at(tr@));
    }
    cells
}

/// Reads the rows of a table, each as its cells.
fn read_table(table: &Element, sel: &Selectors) -> (r: Vec<Vec<CellSource>>)
    requires
        sel.wf(),
    ensures
        rows_view(r@) == table_at(table@),
{
    let trs = select_from(table, &sel.row);
    let mut rows: Vec<Vec<CellSource>> = Vec::new();
    let mut i: usize = 0;
    while i < trs.len()
        invariant
            0 <= i <= trs@.len(),
            sel.wf(),
            rows@.len() == i,
            spots(trs@) == picked_spots(table@, ROW_SELECTOR@),
            forall|j: int|
                0 <= j < i ==> cells_view((#[trigger] rows@[j])@) == row_cells_at(trs@[j]@),
        decreases trs.len() - i,
    {
        rows.push(read_row(&trs[i], sel));
        i += 1;
    }
    proof {
        assert forall|j: int| 0 <= j < rows@.len() implies rows_view(rows@)[j] == table_at(
            table@,
        )[j] by {
            assert(spots(trs@)[j] == trs@[j]@);
        }
        assert(rows_view(rows@) =~= table_at(table@));
    }
    rows
}

/// Reads what the parser needs of the header paragraphs.
fn read_header(h: &Element, sel: &Selectors) -> (r: Vec<ParagraphSource>)
    requires
        sel.wf(),
    ensures
        paragraphs_view(r@) == picked_spots(h@, PARAGRAPH_SELECTOR@).map_values(
            |p: Spot| paragraph_at(p),
        ),
{
    let ps = select_from(h, &sel.paragraph);
    let mut paragraphs: Vec<ParagraphSource> = Vec::new();
    let mut i: usize = 0;
    while i < ps.len()
        invariant
            0 <= i <= ps@.len(),
            sel.wf(),
            paragraphs@.len() == i,
            spots(ps@) == picked_spots(h@, PARAGRAPH_SELECTOR@),
            forall|j: int| 0 <= j < i ==> (#[trigger] paragraphs@[j])@ == paragraph_at(ps@[j]@),
        decreases ps.len() - i,
    {
        let flag_src = match first_in(&ps[i], &sel.flag) {
            Some(img) => attr(&img, "src"),
            None => None,
        };
        paragraphs.push(ParagraphSource { texts: texts(&ps[i]), flag_src });
        i += 1;
    }
    proof {
        let want = picked_spots(h@, PARAGRAPH_SELECTOR@).map_values(|p: Spot| paragraph_at(p));
        assert forall|j: int| 0 <= j < want.len() implies paragraphs_view(paragraphs@)[j]
            == want[j] by {
            assert(spots(ps@)[j] == ps@[j]@);
        }
        assert(paragraphs_view(paragraphs@) =~= want);
    }
    paragraphs
}

/// Reads what the parser needs of the detail page.
fn read_detail(html: &Page, sel: &Selectors) -> (r: DetailSource)
    requires
        sel.wf(),
    ensures
        r@ == page_detail(html@),
{
    let name_texts = match first_in_page(html, &sel.name) {
        Some(h) => Some(texts(&h)),
        None => None,
    };
    let header = match first_in_page(html, &sel.header) {
        Some(h) => Some(read_header(&h, sel)),
        None => None,
    };
    let description_texts = match first_in_page(html, &sel.description) {
        Some(d) => Some(texts(&d)),
        None => None,
    };
    let federation_badge = first_in_page(html, &sel.badge).is_some();
    let table = match first_in_page(html, &sel.table) {
        Some(t) => Some(read_table(&t, sel)),
        None => None,
    };
    DetailSource { name_texts, header, description_texts, federation_badge, table }
}

/// Parses the mobile competition detail page: fails with
/// `ParseError::InvalidSelector` when a selector does not compile, and
/// with `ParseError::ZeroRowspan` when a category cell of the table spans
/// zero rows (the table cannot be walked then); otherwise gives the
/// competition that the page describes.
pub fn parse(html: &Page) -> (r: Result<MobileCompetitionDetail, ParseError>)
    ensures
        match r {
            Ok(d) => selectors_compile() && table_walk_ends(page_detail(html@)) && d@ == detail_of(
                page_detail(html@),
            ),
            Err(e) => (e == ParseError::InvalidSelector && !selectors_compile()) || (e
                == ParseError::ZeroRowspan && selectors_compile() && !table_walk_ends(
                page_detail(html@),
            )),
        },
{
    let sel = selectors()?;
    let src = read_detail(html, &sel);
    let ends = match &src.table {
        Some(rows) => walk_terminates(rows),
        None => true,
    };
    if !ends {
        return Err(ParseError::ZeroRowspan);
    }
    let d = detail_from_source(&src);
    Ok(d)
}


// ---------------------------------------------------------------------------
// What every parsed table keeps
// ---------------------------------------------------------------------------

/// An event group has a label or at least one event, and no event name is
/// empty.
pub open spec fn group_is_named(g: EventGroupView) -> bool {
    &&& (g.label.len() > 0 || g.events.len() > 0)
    &&& forall|k: int| 0 <= k < g.events.len() ==> (#[trigger] g.events[k]).len() > 0
}

/// No age group name is empty, and every event group is named.
pub open spec fn category_is_named(c: CategoryGroupView) -> bool {
    &&& forall|k: int| 0 <= k < c.age_groups.len() ==> (#[trigger] c.age_groups[k]).len() > 0
    &&& forall|k: int| 0 <= k < c.event_groups.len() ==> group_is_named(#[trigger] c.event_groups[k])
}

proof fn lemma_event_titles_nonempty(titles: Seq<Seq<char>>)
    ensures
        forall|k: int|
            0 <= k < event_titles(titles).len() ==> (#[trigger] event_titles(titles)[k]).len() > 0,
    decreases titles.len(),
{
    if titles.len() > 0 {
        lemma_event_titles_nonempty(titles.drop_last());
        let init = event_titles(titles.drop_last());
        let r = event_titles(titles);
        assert forall|k: int| 0 <= k < r.len() implies (#[trigger] r[k]).len() > 0 by {
            if k < init.len() {
                assert(r[k] == init[k]);
            }
        }
    }
}

proof fn lemma_nonempty_trimmed_nonempty(pieces: Seq<Seq<char>>)
    ensures
        forall|k: int|
            0 <= k < nonempty_trimmed(pieces).len() ==> (#[trigger] nonempty_trimmed(
                pieces,
            )[k]).len() > 0,
    decreases pieces.len(),
{
    if pieces.len() > 0 {
        lemma_nonempty_trimmed_nonempty(pieces.drop_last());
        let init = nonempty_trimmed(pieces.drop_last());
        let r = nonempty_trimmed(pieces);
        assert forall|k: int| 0 <= k < r.len() implies (#[trigger] r[k]).len() > 0 by {
            if k < init.len() {
                assert(r[k] == init[k]);
            }
        }
    }
}

proof fn lemma_nonempty_texts_nonempty(ts: Seq<Seq<char>>)
    ensures
        forall|k: int|
            0 <= k < nonempty_texts(ts).len() ==> (#[trigger] nonempty_texts(ts)[k]).len() > 0,
    decreases ts.len(),
{
    if ts.len() > 0 {
        lemma_nonempty_texts_nonempty(ts.drop_last());
        let init = nonempty_texts(ts.drop_last());
        let r = nonempty_texts(ts);
        assert forall|k: int| 0 <= k < r.len() implies (#[trigger] r[k]).len() > 0 by {
            if k < init.len() {
                assert(r[k] == init[k]);
            }
        }
    }
}

proof fn lemma_event_row_named(cells: Seq<CellView>)
    ensures
        event_row(cells) matches Some(g) ==> group_is_named(g),
{
    if cells.len() > 1 {
        let cell = cells[1];
        lemma_event_titles_nonempty(titles_of(cell));
        let text = trimmed(joined(cell.texts));
        lemma_nonempty_trimmed_nonempty(split_char(text, ','));
    }
}

proof fn lemma_sub_rows_named(rows: Seq<Seq<CellView>>, i: int, k: int)
    ensures
        forall|m: int|
            0 <= m < sub_row_groups(rows, i, k).len() ==> group_is_named(
                #[trigger] sub_row_groups(rows, i, k)[m],
            ),
    decreases k,
{
    if k > 1 {
        lemma_sub_rows_named(rows, i, k - 1);
        let j = i + k - 1;
        let init = sub_row_groups(rows, i, k - 1);
        let r = sub_row_groups(rows, i, k);
        if j < rows.len() && rows[j].len() > 0 {
            lemma_event_row_named(rows[j]);
        }
        assert forall|m: int| 0 <= m < r.len() implies group_is_named(#[trigger] r[m]) by {
            if m < init.len() {
                assert(r[m] == init[m]);
            } else {
                assert(event_row(rows[j]) == Some(r[m]));
            }
        }
    }
}

proof fn lemma_categories_named(rows: Seq<Seq<CellView>>, i: int)
    ensures
        forall|c: int|
            0 <= c < categories_from(rows, i).len() ==> category_is_named(
                #[trigger] categories_from(rows, i)[c],
            ),
    decreases rows.len() - i,
{
    if i < 0 || i >= rows.len() {
    } else if rows[i].len() > 0 && starts_category(rows[i]) {
        let span = rowspan_of(rows[i][0]);
        let step = if span > 0 {
            span
        } else {
            1
        };
        let next = if i + step < rows.len() {
            i + step
        } else {
            rows.len() as int
        };
        lemma_categories_named(rows, next);
        let cells = rows[i];
        lemma_nonempty_texts_nonempty(titles_of(cells[0]));
        lemma_event_row_named(cells.skip(1));
        lemma_sub_rows_named(rows, i, span);
        let cat = category_at(rows, i);
        let head = opt_group(event_row(cells.skip(1)));
        let tail = sub_row_groups(rows, i, span);
        assert forall|m: int| 0 <= m < cat.event_groups.len() implies group_is_named(
            #[trigger] cat.event_groups[m],
        ) by {
            if m < head.len() {
                assert(cat.event_groups[m] == head[m]);
                assert(event_row(cells.skip(1)) == Some(head[m]));
            } else {
                assert(cat.event_groups[m] == tail[m - head.len()]);
            }
        }
        let ages = nonempty_texts(titles_of(cells[0]));
        assert(cat.age_groups == ages);
        assert forall|k: int| 0 <= k < cat.age_groups.len() implies (
        #[trigger] cat.age_groups[k]).len() > 0 by {
            assert(cat.age_groups[k] == ages[k]);
        }
        assert(category_is_named(cat));
        let all = categories_from(rows, i);
        assert(all == seq![cat] + categories_from(rows, next));
        assert forall|c: int| 0 <= c < all.len() implies category_is_named(#[trigger] all[c]) by {
            if c == 0 {
                assert(all[0] == cat);
            } else {
                assert(all[c] == categories_from(rows, next)[c - 1]);
            }
        }
    } else {
        lemma_categories_named(rows, i + 1);
        assert(categories_from(rows, i) == categories_from(rows, i + 1));
    }
}

/// Every category group of a table has no empty age group name, and each
/// of its event groups has a label or at least one event, with no empty
/// event name.
pub proof fn law_categories_are_named(rows: Seq<Seq<CellView>>)
    ensures
        forall|c: int|
            0 <= c < categories_of(rows).len() ==> category_is_named(
                #[trigger] categories_of(rows)[c],
            ),
{
    lemma_categories_named(rows, first_row(rows));
}

/// A row that the walk over the table reaches opens a category group
/// exactly when its first cell holds tooltips and either spans rows (has a
/// `rowspan`) or the row has four cells or more; that group comes first
/// from there on. Any other row is passed over.
pub proof fn law_row_opens_category(rows: Seq<Seq<CellView>>, i: int)
    requires
        0 <= i < rows.len(),
    ensures
        (rows[i].len() > 0 && rows[i][0].tipped_titles.len() > 0 && (rows[i][0].rowspan is Some
            || rows[i].len() >= 4)) ==> categories_from(rows, i).len() >= 1 && categories_from(
            rows,
            i,
        )[0] == category_at(rows, i),
        !(rows[i].len() > 0 && rows[i][0].tipped_titles.len() > 0 && (rows[i][0].rowspan is Some
            || rows[i].len() >= 4)) ==> categories_from(rows, i) == categories_from(rows, i + 1),
{
}

/// The first row after the header opens the first category group of the
/// table whenever its first cell holds tooltips and either spans rows or
/// the row has four cells or more.
pub proof fn law_first_row_opens_first_category(rows: Seq<Seq<CellView>>)
    requires
        rows.len() >= 2,
        rows[1].len() > 0,
        rows[1][0].tipped_titles.len() > 0,
        rows[1][0].rowspan is Some || rows[1].len() >= 4,
    ensures
        categories_of(rows).len() >= 1,
        categories_of(rows)[0] == category_at(rows, 1),
{
    law_row_opens_category(rows, 1);
}

/// The age groups of a category group are the tooltip titles of the first
/// cell of the row that opens it, each trimmed, less the empty ones: every
/// one is such a title, and every such title that is not empty is one.
pub proof fn law_age_groups_are_tooltip_titles(rows: Seq<Seq<CellView>>, i: int)
    requires
        0 <= i < rows.len(),
        rows[i].len() > 0,
    ensures
        forall|k: int|
            0 <= k < category_at(rows, i).age_groups.len() ==> exists|m: int|
                0 <= m < rows[i][0].tipped_titles.len() && (#[trigger] rows[i][0].tipped_titles[m])
                    is Some && #[trigger] category_at(rows, i).age_groups[k] == trimmed(
                    rows[i][0].tipped_titles[m]->Some_0,
                ),
        forall|m: int|
            0 <= m < rows[i][0].tipped_titles.len() && (#[trigger] rows[i][0].tipped_titles[m])
                is Some && trimmed(rows[i][0].tipped_titles[m]->Some_0).len() > 0 ==> category_at(
                rows,
                i,
            ).age_groups.contains(trimmed(rows[i][0].tipped_titles[m]->Some_0)),
{
    let ts = titles_of(rows[i][0]);
    lemma_nonempty_texts_members(ts);
    let ages = category_at(rows, i).age_groups;
    assert(ages == nonempty_texts(ts));
    assert forall|k: int| 0 <= k < ages.len() implies exists|m: int|
        0 <= m < rows[i][0].tipped_titles.len() && (#[trigger] rows[i][0].tipped_titles[m]) is Some
            && #[trigger] ages[k] == trimmed(rows[i][0].tipped_titles[m]->Some_0) by {
        let m = choose|m: int| 0 <= m < ts.len() && ts[m] == ages[k] && ts[m].len() > 0;
        assert(ts[m] == ages[k]);
        if rows[i][0].tipped_titles[m] is None {
            assert(ts[m].len() == 0);
        }
    }
    assert forall|m: int|
        0 <= m < rows[i][0].tipped_titles.len() && (#[trigger] rows[i][0].tipped_titles[m]) is Some
            && trimmed(rows[i][0].tipped_titles[m]->Some_0).len() > 0 implies ages.contains(
        trimmed(rows[i][0].tipped_titles[m]->Some_0),
    ) by {
        assert(ts[m] == trimmed(rows[i][0].tipped_titles[m]->Some_0));
    }
}

proof fn lemma_nonempty_texts_members(ts: Seq<Seq<char>>)
    ensures
        forall|k: int|
            0 <= k < nonempty_texts(ts).len() ==> exists|m: int|
                0 <= m < ts.len() && ts[m] == #[trigger] nonempty_texts(ts)[k] && ts[m].len() > 0,
        forall|m: int|
            0 <= m < ts.len() && (#[trigger] ts[m]).len() > 0 ==> nonempty_texts(ts).contains(ts[m]),
    decreases ts.len(),
{
    if ts.len() > 0 {
        let init = ts.drop_last();
        lemma_nonempty_texts_members(init);
        let r = nonempty_texts(ts);
        let ri = nonempty_texts(init);
        assert forall|k: int| 0 <= k < r.len() implies exists|m: int|
            0 <= m < ts.len() && ts[m] == #[trigger] r[k] && ts[m].len() > 0 by {
            if k < ri.len() {
                assert(r[k] == ri[k]);
                let m = choose|m: int| 0 <= m < init.len() && init[m] == ri[k] && init[m].len() > 0;
                assert(ts[m] == init[m]);
            } else {
                assert(r[k] == ts.last());
                assert(ts[ts.len() - 1] == ts.last());
            }
        }
        assert forall|m: int| 0 <= m < ts.len() && (#[trigger] ts[m]).len() > 0 implies r.contains(
            ts[m],
        ) by {
            if m < init.len() {
                assert(init[m] == ts[m]);
                assert(ri.contains(init[m]));
                let k = choose|k: int| 0 <= k < ri.len() && ri[k] == init[m];
                assert(r[k] == ri[k]);
            } else {
                assert(r[r.len() - 1] == ts.last());
            }
        }
    }
}

/// What the page says of the competition: the name is the first text of
/// the first `h2.no-margin` that is not blank; the place is the text of the
/// header's first paragraph and the date that of its second (less the
/// template marker), each trimmed, and empty when missing; the description
/// is the trimmed text of `.event-description` unless blank; the
/// competition is recognised by the federation exactly when the page has
/// its badge; and the category groups are those of the first categories
/// table (none without one).
pub proof fn law_detail_fields(page: Seq<char>)
    ensures
        ({
            let d = detail_of(page_detail(page));
            &&& d.federation_recognized == (first_in_document(page, BADGE_SELECTOR@) is Some)
            &&& d.name == match first_in_document(page, NAME_SELECTOR@) {
                Some(h) => first_text(texts_of(h)),
                None => Seq::<char>::empty(),
            }
            &&& d.description == match first_in_document(page, DESCRIPTION_SELECTOR@) {
                Some(e) => if trimmed(joined(texts_of(e))).len() > 0 {
                    Some(trimmed(joined(texts_of(e))))
                } else {
                    None
                },
                None => None,
            }
            &&& d.location == match first_in_document(page, HEADER_SELECTOR@) {
                Some(h) => if picked_spots(h, PARAGRAPH_SELECTOR@).len() > 0 {
                    trimmed(joined(texts_of(picked_spots(h, PARAGRAPH_SELECTOR@)[0])))
                } else {
                    Seq::<char>::empty()
                },
                None => Seq::<char>::empty(),
            }
            &&& d.date == match first_in_document(page, HEADER_SELECTOR@) {
                Some(h) => if picked_spots(h, PARAGRAPH_SELECTOR@).len() > 1 {
                    trimmed(
                        replaced(
                            trimmed(joined(texts_of(picked_spots(h, PARAGRAPH_SELECTOR@)[1]))),
                            "{{_ \"u\"}}"@,
                            Seq::<char>::empty(),
                        ),
                    )
                } else {
                    Seq::<char>::empty()
                },
                None => Seq::<char>::empty(),
            }
            &&& d.categories == categories_of(
                match first_in_document(page, TABLE_SELECTOR@) {
                    Some(t) => table_at(t),
                    None => Seq::<Seq<CellView>>::empty(),
                },
            )
        }),
{
}

/// The event group of a row of cells has the first cell's text, trimmed and
/// less a trailing colon, as its label; the price is the trimmed text of
/// the last cell when it holds a euro sign, `free` or `gratis`, and none
/// otherwise; the capacity is what the second cell's tooltips say of
/// starting places or reserves.
pub proof fn law_event_row_fields(cells: Seq<CellView>)
    ensures
        event_row(cells) matches Some(g) ==> {
            let last = trimmed(joined(cells.last().texts));
            &&& cells.len() > 0
            &&& g.label == strip_trailing(trimmed(joined(cells[0].texts)), ':')
            &&& g.price == if last.contains('€') || has_sub(last, "free"@) || has_sub(
                last,
                "gratis"@,
            ) {
                Some(last)
            } else {
                None
            }
            &&& g.capacity_info == if cells.len() > 1 {
                capacity_titles(titles_of(cells[1]))
            } else {
                Seq::<Seq<char>>::empty()
            }
            &&& (g.label.len() > 0 || g.events.len() > 0)
        },
{
}

/// A category group that spans rows takes, after the event group of its
/// own row, the event group of every later row it covers, in order.
pub proof fn law_spanned_rows_join_category(rows: Seq<Seq<CellView>>, i: int, k: int)
    requires
        1 <= k,
    ensures
        sub_row_groups(rows, i, k + 1) == if i + k < rows.len() && rows[i + k].len() > 0 {
            match event_row(rows[i + k]) {
                Some(g) => sub_row_groups(rows, i, k).push(g),
                None => sub_row_groups(rows, i, k),
            }
        } else {
            sub_row_groups(rows, i, k)
        },
{
}

} // verus!
