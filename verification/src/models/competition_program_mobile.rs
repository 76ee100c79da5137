//! The competition program page of the mobile endpoint
//! (`athleteapp.php?page=event&do=program&event_id=<id>`): gender groups,
//! their age categories, and the event groups of each category.

use vstd::prelude::*;
use crate::error::ParseError;
use crate::html::{
    css, css_compiles, document_spots, first_in, first_in_document, first_in_page, first_picked,
    first_texts, picked_spots, select_from, select_page, spots, texts, texts_of, texts_of_first,
    Css, Element, Page, Spot,
};
use crate::text::{
    join_texts, joined, opt_seq_view, opt_view, seq_view, split_first, split_first_piece,
    split_second, split_second_piece, trim, trimmed, before_digit, up_to_digit,
};

verus! {

/// The program of a competition.
#[derive(Debug)]
pub struct MobileCompetitionProgram {
    pub gender_groups: Vec<GenderGroup>,
}

/// The categories of one gender.
#[derive(Debug)]
pub struct GenderGroup {
    /// "Men" or "Women".
    pub gender: String,
    pub categories: Vec<ProgramCategory>,
}

/// An age category and its event groups.
#[derive(Debug)]
pub struct ProgramCategory {
    /// e.g. "U18 Men", "Senior Women".
    pub name: String,
    pub event_groups: Vec<ProgramEventGroup>,
}

/// A group of events, such as the track events.
#[derive(Debug)]
pub struct ProgramEventGroup {
    /// e.g. "Track Events", "Field Events".
    pub label: String,
    pub price: Option<String>,
    pub capacity: Option<String>,
    pub events: Vec<String>,
}

/// A `ProgramEventGroup` taken by its texts.
pub struct ProgramEventGroupView {
    pub label: Seq<char>,
    pub price: Option<Seq<char>>,
    pub capacity: Option<Seq<char>>,
    pub events: Seq<Seq<char>>,
}

/// A `ProgramCategory` taken by its texts.
pub struct ProgramCategoryView {
    pub name: Seq<char>,
    pub event_groups: Seq<ProgramEventGroupView>,
}

/// A `GenderGroup` taken by its texts.
pub struct GenderGroupView {
    pub gender: Seq<char>,
    pub categories: Seq<ProgramCategoryView>,
}

impl View for ProgramEventGroup {
    type V = ProgramEventGroupView;

    open spec fn view(&self) -> ProgramEventGroupView {
        ProgramEventGroupView {
            label: self.label@,
            price: opt_view(self.price),
            capacity: opt_view(self.capacity),
            events: seq_view(self.events@),
        }
    }
}

/// Event groups taken by their views.
pub open spec fn event_groups_view(v: Seq<ProgramEventGroup>) -> Seq<ProgramEventGroupView> {
    v.map_values(|g: ProgramEventGroup| g@)
}

impl View for ProgramCategory {
    type V = ProgramCategoryView;

    open spec fn view(&self) -> ProgramCategoryView {
        ProgramCategoryView { name: self.name@, event_groups: event_groups_view(self.event_groups@) }
    }
}

/// Categories taken by their views.
pub open spec fn categories_view(v: Seq<ProgramCategory>) -> Seq<ProgramCategoryView> {
    v.map_values(|c: ProgramCategory| c@)
}

impl View for GenderGroup {
    type V = GenderGroupView;

    open spec fn view(&self) -> GenderGroupView {
        GenderGroupView { gender: self.gender@, categories: categories_view(self.categories@) }
    }
}

/// Gender groups taken by their views.
pub open spec fn genders_view(v: Seq<GenderGroup>) -> Seq<GenderGroupView> {
    v.map_values(|g: GenderGroup| g@)
}

impl View for MobileCompetitionProgram {
    type V = Seq<GenderGroupView>;

    open spec fn view(&self) -> Seq<GenderGroupView> {
        genders_view(self.gender_groups@)
    }
}

// ---------------------------------------------------------------------------
// What the parser reads
// ---------------------------------------------------------------------------

/// The CSS selector of the program's part of the page.
pub const PAGE_SELECTOR: &'static str = ".page-content.page-event-program";

/// The CSS selector of the top-level groups.
pub const GROUPS_SELECTOR: &'static str = "div.list:not(.inset) > .list-group";

/// The CSS selector of a top-level group's title.
pub const GROUP_TITLE_SELECTOR: &'static str = ":scope > ul > li.list-group-title";

/// The CSS selector of a top-level group's categories.
pub const ACCORDION_SELECTOR: &'static str = ":scope > ul > li.accordion-item";

/// The CSS selector of the title of a category or of an event.
pub const ITEM_TITLE_SELECTOR: &'static str = ".item-title";

/// The CSS selector of a category's content.
pub const CONTENT_SELECTOR: &'static str = ".accordion-item-content";

/// The CSS selector of the inner groups of a category's content.
pub const INNER_GROUP_SELECTOR: &'static str = ".list-group";

/// The CSS selector of an inner group's title.
pub const INNER_TITLE_SELECTOR: &'static str = "li.list-group-title";

/// The CSS selector of an inner group's events.
pub const INNER_ITEM_SELECTOR: &'static str = "li:not(.list-group-title)";

/// The CSS selector of the men's icon.
pub const MARS_SELECTOR: &'static str = "i.fa-mars";

/// The CSS selector of the women's icon.
pub const VENUS_SELECTOR: &'static str = "i.fa-venus";

/// The CSS selector of an event group's price.
pub const PRICE_SELECTOR: &'static str = ".meerkamp-kosten-label";

/// Whether every selector of the parser compiles.
pub open spec fn selectors_compile() -> bool {
    &&& css_compiles(PAGE_SELECTOR@)
    &&& css_compiles(GROUPS_SELECTOR@)
    &&& css_compiles(GROUP_TITLE_SELECTOR@)
    &&& css_compiles(ACCORDION_SELECTOR@)
    &&& css_compiles(ITEM_TITLE_SELECTOR@)
    &&& css_compiles(CONTENT_SELECTOR@)
    &&& css_compiles(INNER_GROUP_SELECTOR@)
    &&& css_compiles(INNER_TITLE_SELECTOR@)
    &&& css_compiles(INNER_ITEM_SELECTOR@)
    &&& css_compiles(MARS_SELECTOR@)
    &&& css_compiles(VENUS_SELECTOR@)
    &&& css_compiles(PRICE_SELECTOR@)
}

/// What the parser reads of the title (`li.list-group-title`) of an inner
/// group.
pub struct LabelSource {
    /// Its text nodes.
    pub texts: Vec<String>,
    /// The text nodes of its first `.meerkamp-kosten-label`, if it has one.
    pub price_texts: Option<Vec<String>>,
}

/// A `LabelSource` taken by its texts.
pub ghost struct LabelView {
    pub texts: Seq<Seq<char>>,
    pub price_texts: Option<Seq<Seq<char>>>,
}

impl View for LabelSource {
    type V = LabelView;

    open spec fn view(&self) -> LabelView {
        LabelView { texts: seq_view(self.texts@), price_texts: opt_seq_view(self.price_texts) }
    }
}

/// What the parser reads of an inner `.list-group` of a category.
pub struct InnerGroupSource {
    /// Its first `li.list-group-title`.
    pub label: Option<LabelSource>,
    /// For each of its other `li`, the text nodes of its first `.item-title`.
    pub items: Vec<Option<Vec<String>>>,
}

/// An `InnerGroupSource` taken by its texts.
pub ghost struct InnerGroupView {
    pub label: Option<LabelView>,
    pub items: Seq<Option<Seq<Seq<char>>>>,
}

/// The items of an inner group taken by their texts.
pub open spec fn items_view(items: Seq<Option<Vec<String>>>) -> Seq<Option<Seq<Seq<char>>>> {
    items.map_values(|t: Option<Vec<String>>| opt_seq_view(t))
}

impl View for InnerGroupSource {
    type V = InnerGroupView;

    open spec fn view(&self) -> InnerGroupView {
        InnerGroupView {
            label: match self.label {
                Some(l) => Some(l@),
                None => None,
            },
            items: items_view(self.items@),
        }
    }
}

/// Inner groups taken by their views.
pub open spec fn inner_groups_view(gs: Seq<InnerGroupSource>) -> Seq<InnerGroupView> {
    gs.map_values(|g: InnerGroupSource| g@)
}

/// What the parser reads of a category (`li.accordion-item`).
pub struct AccordionSource {
    /// The text nodes of its first `.item-title`.
    pub title_texts: Option<Vec<String>>,
    /// The inner groups of its first `.accordion-item-content`.
    pub content: Option<Vec<InnerGroupSource>>,
}

/// An `AccordionSource` taken by its texts.
pub ghost struct AccordionView {
    pub title_texts: Option<Seq<Seq<char>>>,
    pub content: Option<Seq<InnerGroupView>>,
}

impl View for AccordionSource {
    type V = AccordionView;

    open spec fn view(&self) -> AccordionView {
        AccordionView {
            title_texts: opt_seq_view(self.title_texts),
            content: match self.content {
                Some(c) => Some(inner_groups_view(c@)),
                None => None,
            },
        }
    }
}

/// Categories' sources taken by their views.
pub open spec fn accordions_view(accs: Seq<AccordionSource>) -> Seq<AccordionView> {
    accs.map_values(|a: AccordionSource| a@)
}

/// What the parser reads of the title of a top-level `.list-group`.
#[derive(Clone, Copy)]
pub struct GroupTitleSource {
    /// Whether it holds an `i.fa-mars` icon.
    pub has_mars: bool,
    /// Whether it holds an `i.fa-venus` icon.
    pub has_venus: bool,
}

/// What the parser reads of a top-level `.list-group`.
pub struct GroupSource {
    /// Its first `li.list-group-title` directly under its `ul`.
    pub title: Option<GroupTitleSource>,
    /// Its `li.accordion-item` directly under its `ul`.
    pub accordions: Vec<AccordionSource>,
}

/// A `GroupSource` taken by its texts.
pub ghost struct GroupView {
    pub title: Option<GroupTitleSource>,
    pub accordions: Seq<AccordionView>,
}

impl View for GroupSource {
    type V = GroupView;

    open spec fn view(&self) -> GroupView {
        GroupView { title: self.title, accordions: accordions_view(self.accordions@) }
    }
}

/// Top-level groups taken by their views.
pub open spec fn groups_view(gs: Seq<GroupSource>) -> Seq<GroupView> {
    gs.map_values(|g: GroupSource| g@)
}

/// What the parser reads of the inner group title at `l`.
pub open spec fn label_at(l: Spot) -> LabelView {
    LabelView { texts: texts_of(l), price_texts: first_texts(l, PRICE_SELECTOR@) }
}

/// What the parser reads of the inner group at `g`.
pub open spec fn inner_group_at(g: Spot) -> InnerGroupView {
    InnerGroupView {
        label: match first_picked(g, INNER_TITLE_SELECTOR@) {
            Some(l) => Some(label_at(l)),
            None => None,
        },
        items: picked_spots(g, INNER_ITEM_SELECTOR@).map_values(
            |li: Spot| first_texts(li, ITEM_TITLE_SELECTOR@),
        ),
    }
}

/// What the parser reads of the category at `a`.
pub open spec fn accordion_at(a: Spot) -> AccordionView {
    AccordionView {
        title_texts: first_texts(a, ITEM_TITLE_SELECTOR@),
        content: match first_picked(a, CONTENT_SELECTOR@) {
            Some(c) => Some(picked_spots(c, INNER_GROUP_SELECTOR@).map_values(|g: Spot| inner_group_at(g))),
            None => None,
        },
    }
}

/// What the parser reads of the title of a top-level group at `t`.
pub open spec fn group_title_at(t: Spot) -> GroupTitleSource {
    GroupTitleSource {
        has_mars: first_picked(t, MARS_SELECTOR@) is Some,
        has_venus: first_picked(t, VENUS_SELECTOR@) is Some,
    }
}

/// What the parser reads of the top-level group at `g`.
pub open spec fn group_at(g: Spot) -> GroupView {
    GroupView {
        title: match first_picked(g, GROUP_TITLE_SELECTOR@) {
            Some(t) => Some(group_title_at(t)),
            None => None,
        },
        accordions: picked_spots(g, ACCORDION_SELECTOR@).map_values(|a: Spot| accordion_at(a)),
    }
}

/// What the parser reads of each top-level group of the page, in document
/// order: those under the first `.page-content.page-event-program` when the
/// page has one, else those of the whole page.
pub open spec fn page_groups(page: Seq<char>) -> Seq<GroupView> {
    match first_in_document(page, PAGE_SELECTOR@) {
        Some(root) => picked_spots(root, GROUPS_SELECTOR@).map_values(|g: Spot| group_at(g)),
        None => document_spots(page, GROUPS_SELECTOR@).map_values(|g: Spot| group_at(g)),
    }
}

// ---------------------------------------------------------------------------
// Event groups
// ---------------------------------------------------------------------------

/// The label of an event group: the title's text before the price, when
/// there is a price; else before the first digit (a capacity count), unless
/// that leaves nothing.
pub open spec fn clean_label(label: Seq<char>, price: Option<Seq<char>>) -> Seq<char> {
    match price {
        Some(p) => trimmed(split_first(label, p)),
        None => {
            let c = trimmed(before_digit(label));
            if c.len() == 0 {
                label
            } else {
                c
            }
        },
    }
}

/// The capacity of an event group: the title's text after the price, unless
/// it is blank.
pub open spec fn capacity_of(label: Seq<char>, price: Option<Seq<char>>) -> Option<Seq<char>> {
    match price {
        Some(p) => {
            let after = match split_second(label, p) {
                Some(a) => trimmed(a),
                None => Seq::empty(),
            };
            if after.len() == 0 {
                None
            } else {
                Some(after)
            }
        },
        None => None,
    }
}

/// The events of an inner group: the trimmed titles of its items, less
/// items without a title and empty titles.
pub open spec fn events_of(items: Seq<Option<Seq<Seq<char>>>>) -> Seq<Seq<char>>
    decreases items.len(),
{
    if items.len() == 0 {
        Seq::empty()
    } else {
        let init = events_of(items.drop_last());
        match items.last() {
            Some(t) => {
                let e = trimmed(joined(t));
                if e.len() > 0 {
                    init.push(e)
                } else {
                    init
                }
            },
            None => init,
        }
    }
}

/// The event group of an inner group; none without a title, or when both
/// label and events are empty.
pub open spec fn event_group_of(g: InnerGroupView) -> Option<ProgramEventGroupView> {
    match g.label {
        Some(l) => {
            let label = trimmed(joined(l.texts));
            let price = match l.price_texts {
                Some(p) => Some(trimmed(joined(p))),
                None => None,
            };
            let clean = clean_label(label, price);
            let events = events_of(g.items);
            if events.len() > 0 || clean.len() > 0 {
                Some(
                    ProgramEventGroupView {
                        label: clean,
                        price,
                        capacity: capacity_of(label, price),
                        events,
                    },
                )
            } else {
                None
            }
        },
        None => None,
    }
}

/// The events of an inner group.
pub fn events_from_items(items: &Vec<Option<Vec<String>>>) -> (r: Vec<String>)
    ensures
        seq_view(r@) == events_of(items_view(items@)),
{
    let ghost iv = items_view(items@);
    let mut out: Vec<String> = Vec::new();
    let mut i: usize = 0;
    while i < items.len()
        invariant
            0 <= i <= items@.len(),
            iv == items_view(items@),
            seq_view(out@) == events_of(iv.take(i as int)),
        decreases items.len() - i,
    {
        assert(iv.take(i + 1).drop_last() =~= iv.take(i as int));
        assert(iv.take(i + 1).last() == opt_seq_view(items@[i as int]));
        match &items[i] {
            Some(t) => {
                let e = trim(join_texts(t).as_str());
                if e.as_str().unicode_len() > 0 {
                    let ghost before = seq_view(out@);
                    out.push(e);
                    assert(seq_view(out@) =~= before.push(e@));
                }
            },
            None => {},
        }
        i += 1;
    }
    assert(iv.take(items@.len() as int) =~= iv);
    out
}

/// The event group of an inner group.
pub fn event_group(g: &InnerGroupSource) -> (r: Option<ProgramEventGroup>)
    ensures
        match r {
            Some(x) => event_group_of(g@) == Some(x@),
            None => event_group_of(g@) is None,
        },
{
    let l = match &g.label {
        Some(l) => l,
        None => return None,
    };
    let label = trim(join_texts(&l.texts).as_str());
    let price = match &l.price_texts {
        Some(p) => Some(trim(join_texts(p).as_str())),
        None => None,
    };
    let clean = match &price {
        Some(p) => trim(split_first_piece(label.as_str(), p.as_str()).as_str()),
        None => {
            let c = trim(up_to_digit(label.as_str()).as_str());
            if c.as_str().unicode_len() == 0 {
                label.clone()
            } else {
                c
            }
        },
    };
    let capacity = match &price {
        Some(p) => {
            let after = match split_second_piece(label.as_str(), p.as_str()) {
                Some(a) => trim(a.as_str()),
                None => String::new(),
            };
            if after.as_str().unicode_len() == 0 {
                None
            } else {
                Some(after)
            }
        },
        None => None,
    };
    let events = events_from_items(&g.items);
    if events.len() > 0 || clean.as_str().unicode_len() > 0 {
        Some(ProgramEventGroup { label: clean, price, capacity, events })
    } else {
        None
    }
}


// ---------------------------------------------------------------------------
// Categories and gender groups
// ---------------------------------------------------------------------------

/// The event groups of a category's inner groups, less those that give none.
pub open spec fn event_groups_of(gs: Seq<InnerGroupView>) -> Seq<ProgramEventGroupView>
    decreases gs.len(),
{
    if gs.len() == 0 {
        Seq::empty()
    } else {
        let init = event_groups_of(gs.drop_last());
        match event_group_of(gs.last()) {
            Some(g) => init.push(g),
            None => init,
        }
    }
}

/// The category of an accordion item; none without a title, or when its
/// name is empty.
pub open spec fn category_of(a: AccordionView) -> Option<ProgramCategoryView> {
    match a.title_texts {
        Some(t) => {
            let name = trimmed(joined(t));
            if name.len() > 0 {
                Some(
                    ProgramCategoryView {
                        name,
                        event_groups: match a.content {
                            Some(c) => event_groups_of(c),
                            None => Seq::empty(),
                        },
                    },
                )
            } else {
                None
            }
        },
        None => None,
    }
}

/// The categories of a gender group's accordion items.
pub open spec fn categories_of(accs: Seq<AccordionView>) -> Seq<ProgramCategoryView>
    decreases accs.len(),
{
    if accs.len() == 0 {
        Seq::empty()
    } else {
        let init = categories_of(accs.drop_last());
        match category_of(accs.last()) {
            Some(c) => init.push(c),
            None => init,
        }
    }
}

/// The gender group of a top-level group: its title must carry the mars
/// (men) or venus (women) icon, and it must give a category.
pub open spec fn gender_group_of(g: GroupView) -> Option<GenderGroupView> {
    match g.title {
        Some(t) => if !t.has_mars && !t.has_venus {
            None
        } else {
            let cats = categories_of(g.accordions);
            if cats.len() > 0 {
                Some(
                    GenderGroupView {
                        gender: if t.has_mars {
                            "Men"@
                        } else {
                            "Women"@
                        },
                        categories: cats,
                    },
                )
            } else {
                None
            }
        },
        None => None,
    }
}

/// The program that the top-level groups give.
pub open spec fn program_of(gs: Seq<GroupView>) -> Seq<GenderGroupView>
    decreases gs.len(),
{
    if gs.len() == 0 {
        Seq::empty()
    } else {
        let init = program_of(gs.drop_last());
        match gender_group_of(gs.last()) {
            Some(g) => init.push(g),
            None => init,
        }
    }
}

/// The event groups of a category's inner groups.
pub fn event_groups_from(gs: &Vec<InnerGroupSource>) -> (r: Vec<ProgramEventGroup>)
    ensures
        event_groups_view(r@) == event_groups_of(inner_groups_view(gs@)),
{
    let ghost gv = inner_groups_view(gs@);
    let mut out: Vec<ProgramEventGroup> = Vec::new();
    let mut i: usize = 0;
    while i < gs.len()
        invariant
            0 <= i <= gs@.len(),
            gv == inner_groups_view(gs@),
            event_groups_view(out@) == event_groups_of(gv.take(i as int)),
        decreases gs.len() - i,
    {
        assert(gv.take(i + 1).drop_last() =~= gv.take(i as int));
        assert(gv.take(i + 1).last() == gs@[i as int]@);
        match event_group(&gs[i]) {
            Some(g) => {
                let ghost before = event_groups_view(out@);
                out.push(g);
                assert(event_groups_view(out@) =~= before.push(g@));
            },
            None => {},
        }
        i += 1;
    }
    assert(gv.take(gs@.len() as int) =~= gv);
    out
}

/// The category of an accordion item.
pub fn category(a: &AccordionSource) -> (r: Option<ProgramCategory>)
    ensures
        match r {
            Some(c) => category_of(a@) == Some(c@),
            None => category_of(a@) is None,
        },
{
    let name = match &a.title_texts {
        Some(t) => trim(join_texts(t).as_str()),
        None => return None,
    };
    if name.as_str().unicode_len() == 0 {
        return None;
    }
    let event_groups = match &a.content {
        Some(c) => event_groups_from(c),
        None => {
            let v: Vec<ProgramEventGroup> = Vec::new();
            assert(event_groups_view(v@) =~= Seq::<ProgramEventGroupView>::empty());
            v
        },
    };
    Some(ProgramCategory { name, event_groups })
}

/// The categories of a gender group's accordion items.
pub fn categories_from(accs: &Vec<AccordionSource>) -> (r: Vec<ProgramCategory>)
    ensures
        categories_view(r@) == categories_of(accordions_view(accs@)),
{
    let ghost av = accordions_view(accs@);
    let mut out: Vec<ProgramCategory> = Vec::new();
    let mut i: usize = 0;
    while i < accs.len()
        invariant
            0 <= i <= accs@.len(),
            av == accordions_view(accs@),
            categories_view(out@) == categories_of(av.take(i as int)),
        decreases accs.len() - i,
    {
        assert(av.take(i + 1).drop_last() =~= av.take(i as int));
        assert(av.take(i + 1).last() == accs@[i as int]@);
        match category(&accs[i]) {
            Some(c) => {
                let ghost before = categories_view(out@);
                out.push(c);
                assert(categories_view(out@) =~= before.push(c@));
            },
            None => {},
        }
        i += 1;
    }
    assert(av.take(accs@.len() as int) =~= av);
    out
}

/// The gender group of a top-level group.
pub fn gender_group(g: &GroupSource) -> (r: Option<GenderGroup>)
    ensures
        match r {
            Some(x) => gender_group_of(g@) == Some(x@),
            None => gender_group_of(g@) is None,
        },
{
    let t = match &g.title {
        Some(t) => t,
        None => return None,
    };
    if !t.has_mars && !t.has_venus {
        return None;
    }
    let categories = categories_from(&g.accordions);
    if categories.len() == 0 {
        return None;
    }
    let gender = if t.has_mars {
        String::from_str("Men")
    } else {
        String::from_str("Women")
    };
    Some(GenderGroup { gender, categories })
}

/// The program that the top-level groups give.
pub fn program_from_groups(gs: &Vec<GroupSource>) -> (r: MobileCompetitionProgram)
    ensures
        r@ == program_of(groups_view(gs@)),
{
    let ghost gv = groups_view(gs@);
    let mut out: Vec<GenderGroup> = Vec::new();
    let mut i: usize = 0;
    while i < gs.len()
        invariant
            0 <= i <= gs@.len(),
            gv == groups_view(gs@),
            genders_view(out@) == program_of(gv.take(i as int)),
        decreases gs.len() - i,
    {
        assert(gv.take(i + 1).drop_last() =~= gv.take(i as int));
        assert(gv.take(i + 1).last() == gs@[i as int]@);
        match gender_group(&gs[i]) {
            Some(x) => {
                let ghost before = genders_view(out@);
                out.push(x);
                assert(genders_view(out@) =~= before.push(x@));
            },
            None => {},
        }
        i += 1;
    }
    assert(gv.take(gs@.len() as int) =~= gv);
    MobileCompetitionProgram { gender_groups: out }
}

// ---------------------------------------------------------------------------
// Reading the page
// ---------------------------------------------------------------------------

/// The compiled selectors of the parser.
struct Selectors {
    page: Css,
    groups: Css,
    group_title: Css,
    accordion: Css,
    item_title: Css,
    content: Css,
    inner_group: Css,
    inner_title: Css,
    inner_item: Css,
    mars: Css,
    venus: Css,
    price: Css,
}

impl Selectors {
    spec fn wf(&self) -> bool {
        &&& self.page@ == PAGE_SELECTOR@
        &&& self.groups@ == GROUPS_SELECTOR@
        &&& self.group_title@ == GROUP_TITLE_SELECTOR@
        &&& self.accordion@ == ACCORDION_SELECTOR@
        &&& self.item_title@ == ITEM_TITLE_SELECTOR@
        &&& self.content@ == CONTENT_SELECTOR@
        &&& self.inner_group@ == INNER_GROUP_SELECTOR@
        &&& self.inner_title@ == INNER_TITLE_SELECTOR@
        &&& self.inner_item@ == INNER_ITEM_SELECTOR@
        &&& self.mars@ == MARS_SELECTOR@
        &&& self.venus@ == VENUS_SELECTOR@
        &&& self.price@ == PRICE_SELECTOR@
    }
}

/// Compiles the selectors of the parser.
fn selectors() -> (r: Result<Selectors, ParseError>)
    ensures
        match r {
            Ok(s) => selectors_compile() && s.wf(),
            Err(e) => e == ParseError::InvalidSelector && !selectors_compile(),
        },
{
    Ok(
        Selectors {
            page: css(PAGE_SELECTOR)?,
            groups: css(GROUPS_SELECTOR)?,
            group_title: css(GROUP_TITLE_SELECTOR)?,
            accordion: css(ACCORDION_SELECTOR)?,
            item_title: css(ITEM_TITLE_SELECTOR)?,
            content: css(CONTENT_SELECTOR)?,
            inner_group: css(INNER_GROUP_SELECTOR)?,
            inner_title: css(INNER_TITLE_SELECTOR)?,
            inner_item: css(INNER_ITEM_SELECTOR)?,
            mars: css(MARS_SELECTOR)?,
            venus: css(VENUS_SELECTOR)?,
            price: css(PRICE_SELECTOR)?,
        },
    )
}

/// Reads what the parser needs of an inner `.list-group`.
fn read_inner_group(g: &Element, sel: &Selectors) -> (r: InnerGroupSource)
    requires
        sel.wf(),
    ensures
        r@ == inner_group_at(g@),
{
    let label = match first_in(g, &sel.inner_title) {
        Some(l) => Some(LabelSource { texts: texts(&l), price_texts: texts_of_first(&l, &sel.price) }),
        None => None,
    };
    let lis = select_from(g, &sel.inner_item);
    let mut items: Vec<Option<Vec<String>>> = Vec::new();
    let mut i: usize = 0;
    while i < lis.len()
        invariant
            0 <= i <= lis@.len(),
            sel.wf(),
            items@.len() == i,
            spots(lis@) == picked_spots(g@, INNER_ITEM_SELECTOR@),
            forall|j: int|
                0 <= j < i ==> opt_seq_view(#[trigger] items@[j]) == first_texts(
                    lis@[j]@,
                    ITEM_TITLE_SELECTOR@,
                ),
        decreases lis.len() - i,
    {
        items.push(texts_of_first(&lis[i], &sel.item_title));
        i += 1;
    }
    let r = InnerGroupSource { label, items };
    proof {
        let want = picked_spots(g@, INNER_ITEM_SELECTOR@).map_values(
            |li: Spot| first_texts(li, ITEM_TITLE_SELECTOR@),
        );
        assert forall|j: int| 0 <= j < want.len() implies r@.items[j] == want[j] by {
            assert(spots(lis@)[j] == lis@[j]@);
        }
        assert(r@.items =~= want);
    }
    r
}

/// Reads what the parser needs of an `li.accordion-item`.
fn read_accordion(a: &Element, sel: &Selectors) -> (r: AccordionSource)
    requires
        sel.wf(),
    ensures
        r@ == accordion_at(a@),
{
    let title_texts = texts_of_first(a, &sel.item_title);
    let content = match first_in(a, &sel.content) {
        Some(c) => {
            let inner = select_from(&c, &sel.inner_group);
            let mut groups: Vec<InnerGroupSource> = Vec::new();
            let mut i: usize = 0;
            while i < inner.len()
                invariant
                    0 <= i <= inner@.len(),
                    sel.wf(),
                    groups@.len() == i,
                    spots(inner@) == picked_spots(c@, INNER_GROUP_SELECTOR@),
                    forall|j: int|
                        0 <= j < i ==> (#[trigger] groups@[j])@ == inner_group_at(inner@[j]@),
                decreases inner.len() - i,
            {
                groups.push(read_inner_group(&inner[i], sel));
                i += 1;
            }
            proof {
                let want = picked_spots(c@, INNER_GROUP_SELECTOR@).map_values(
                    |g: Spot| inner_group_at(g),
                );
                assert forall|j: int| 0 <= j < want.len() implies inner_groups_view(groups@)[j]
                    == want[j] by {
                    assert(spots(inner@)[j] == inner@[j]@);
                }
                assert(inner_groups_view(groups@) =~= want);
            }
            Some(groups)
        },
        None => None,
    };
    AccordionSource { title_texts, content }
}

/// Reads what the parser needs of a top-level `.list-group`.
fn read_group(g: &Element, sel: &Selectors) -> (r: GroupSource)
    requires
        sel.wf(),
    ensures
        r@ == group_at(g@),
{
    let title = match first_in(g, &sel.group_title) {
        Some(t) => Some(
            GroupTitleSource {
                has_mars: first_in(&t, &sel.mars).is_some(),
                has_venus: first_in(&t, &sel.venus).is_some(),
            },
        ),
        None => None,
    };
    let accs = select_from(g, &sel.accordion);
    let mut accordions: Vec<AccordionSource> = Vec::new();
    let mut i: usize = 0;
    while i < accs.len()
        invariant
            0 <= i <= accs@.len(),
            sel.wf(),
            accordions@.len() == i,
            spots(accs@) == picked_spots(g@, ACCORDION_SELECTOR@),
            forall|j: int| 0 <= j < i ==> (#[trigger] accordions@[j])@ == accordion_at(accs@[j]@),
        decreases accs.len() - i,
    {
        accordions.push(read_accordion(&accs[i], sel));
        i += 1;
    }
    let r = GroupSource { title, accordions };
    proof {
        let want = picked_spots(g@, ACCORDION_SELECTOR@).map_values(|a: Spot| accordion_at(a));
        assert forall|j: int| 0 <= j < want.len() implies r@.accordions[j] == want[j] by {
            assert(spots(accs@)[j] == accs@[j]@);
        }
        assert(r@.accordions =~= want);
    }
    r
}

/// Reads what the parser needs of each of the top-level groups `groups`.
fn read_groups(groups: &Vec<Element>, sel: &Selectors) -> (r: Vec<GroupSource>)
    requires
        sel.wf(),
    ensures
        groups_view(r@) == spots(groups@).map_values(|g: Spot| group_at(g)),
{
    let mut sources: Vec<GroupSource> = Vec::new();
    let mut i: usize = 0;
    while i < groups.len()
        invariant
            0 <= i <= groups@.len(),
            sel.wf(),
            sources@.len() == i,
            forall|j: int| 0 <= j < i ==> (#[trigger] sources@[j])@ == group_at(groups@[j]@),
        decreases groups.len() - i,
    {
        sources.push(read_group(&groups[i], sel));
        i += 1;
    }
    assert(groups_view(sources@) =~= spots(groups@).map_values(|g: Spot| group_at(g)));
    sources
}

/// Parses the mobile competition program page: fails only when a selector
/// does not compile, and otherwise gives the program that the top-level
/// groups give, in document order. The groups are looked for under the
/// first `.page-content.page-event-program` when the page has one, else in
/// the whole page.
pub fn parse(html: &Page) -> (r: Result<MobileCompetitionProgram, ParseError>)
    ensures
        match r {
            Ok(p) => selectors_compile() && p@ == program_of(page_groups(html@)),
            Err(e) => e == ParseError::InvalidSelector && !selectors_compile(),
        },
{
    let sel = selectors()?;
    let sources = match first_in_page(html, &sel.page) {
        Some(root) => read_groups(&select_from(&root, &sel.groups), &sel),
        None => read_groups(&select_page(html, &sel.groups), &sel),
    };
    let p = program_from_groups(&sources);
    Ok(p)
}

// ---------------------------------------------------------------------------
// What every parsed program keeps
// ---------------------------------------------------------------------------

/// An event group has a label or at least one event, and no event name is
/// empty.
pub open spec fn event_group_is_named(g: ProgramEventGroupView) -> bool {
    &&& (g.label.len() > 0 || g.events.len() > 0)
    &&& forall|k: int| 0 <= k < g.events.len() ==> (#[trigger] g.events[k]).len() > 0
}

/// A category has a name, and every event group of it is named.
pub open spec fn category_is_named(c: ProgramCategoryView) -> bool {
    &&& c.name.len() > 0
    &&& forall|k: int|
        0 <= k < c.event_groups.len() ==> event_group_is_named(#[trigger] c.event_groups[k])
}

/// A gender group is of men or of women and has at least one category,
/// each of them named.
pub open spec fn gender_group_is_named(g: GenderGroupView) -> bool {
    &&& (g.gender == "Men"@ || g.gender == "Women"@)
    &&& g.categories.len() > 0
    &&& forall|k: int| 0 <= k < g.categories.len() ==> category_is_named(#[trigger] g.categories[k])
}

proof fn lemma_events_nonempty(items: Seq<Option<Seq<Seq<char>>>>)
    ensures
        forall|k: int| 0 <= k < events_of(items).len() ==> (#[trigger] events_of(items)[k]).len() > 0,
    decreases items.len(),
{
    if items.len() > 0 {
        lemma_events_nonempty(items.drop_last());
        let init = events_of(items.drop_last());
        let r = events_of(items);
        assert forall|k: int| 0 <= k < r.len() implies (#[trigger] r[k]).len() > 0 by {
            if k < init.len() {
                assert(r[k] == init[k]);
            }
        }
    }
}

proof fn lemma_event_groups_named(gs: Seq<InnerGroupView>)
    ensures
        forall|k: int|
            0 <= k < event_groups_of(gs).len() ==> event_group_is_named(
                #[trigger] event_groups_of(gs)[k],
            ),
    decreases gs.len(),
{
    if gs.len() > 0 {
        lemma_event_groups_named(gs.drop_last());
        lemma_events_nonempty(gs.last().items);
        let init = event_groups_of(gs.drop_last());
        let r = event_groups_of(gs);
        assert forall|k: int| 0 <= k < r.len() implies event_group_is_named(#[trigger] r[k]) by {
            if k < init.len() {
                assert(r[k] == init[k]);
            } else {
                assert(event_group_of(gs.last()) == Some(r[k]));
            }
        }
    }
}

proof fn lemma_categories_named(accs: Seq<AccordionView>)
    ensures
        forall|k: int|
            0 <= k < categories_of(accs).len() ==> category_is_named(
                #[trigger] categories_of(accs)[k],
            ),
    decreases accs.len(),
{
    if accs.len() > 0 {
        lemma_categories_named(accs.drop_last());
        let a = accs.last();
        match a.content {
            Some(c) => lemma_event_groups_named(c),
            None => {},
        }
        let init = categories_of(accs.drop_last());
        let r = categories_of(accs);
        assert forall|k: int| 0 <= k < r.len() implies category_is_named(#[trigger] r[k]) by {
            if k < init.len() {
                assert(r[k] == init[k]);
            } else {
                assert(category_of(a) == Some(r[k]));
            }
        }
    }
}

/// Every gender group of a program is of men or of women and has at least
/// one category; every category has a name; every event group has a label
/// or at least one event, and no event name is empty.
pub proof fn law_program_is_named(gs: Seq<GroupView>)
    ensures
        forall|k: int| 0 <= k < program_of(gs).len() ==> gender_group_is_named(#[trigger] program_of(gs)[k]),
    decreases gs.len(),
{
    if gs.len() > 0 {
        law_program_is_named(gs.drop_last());
        lemma_categories_named(gs.last().accordions);
        let init = program_of(gs.drop_last());
        let r = program_of(gs);
        assert forall|k: int| 0 <= k < r.len() implies gender_group_is_named(#[trigger] r[k]) by {
            if k < init.len() {
                assert(r[k] == init[k]);
            } else {
                assert(gender_group_of(gs.last()) == Some(r[k]));
            }
        }
    }
}

// ---------------------------------------------------------------------------
// How the lists are gathered
// ---------------------------------------------------------------------------

/// The event groups of a category are, in order, the event group of every
/// inner group that gives one: none is lost, none is added.
pub proof fn law_event_groups_keep_every_group(gs: Seq<InnerGroupView>)
    ensures
        event_groups_of(gs) == gs.filter_map(|g: InnerGroupView| event_group_of(g)),
        event_groups_of(gs).len() == gs.filter(|g: InnerGroupView| event_group_of(g) is Some).len(),
    decreases gs.len(),
{
    reveal(Seq::filter);
    if gs.len() > 0 {
        law_event_groups_keep_every_group(gs.drop_last());
        reveal(Seq::filter);
        match event_group_of(gs.last()) {
            Some(g) => {
                assert(event_groups_of(gs) =~= gs.drop_last().filter_map(
                    |g: InnerGroupView| event_group_of(g),
                ) + seq![g]);
            },
            None => {},
        }
    }
}

/// The event groups of two runs of inner groups, one after the other, are
/// those of the first run followed by those of the second.
pub proof fn law_event_groups_concat(a: Seq<InnerGroupView>, b: Seq<InnerGroupView>)
    ensures
        event_groups_of(a + b) == event_groups_of(a) + event_groups_of(b),
    decreases b.len(),
{
    if b.len() == 0 {
        assert(a + b =~= a);
        assert(event_groups_of(a) + event_groups_of(b) =~= event_groups_of(a));
    } else {
        law_event_groups_concat(a, b.drop_last());
        assert((a + b).drop_last() =~= a + b.drop_last());
        assert((a + b).last() == b.last());
        match event_group_of(b.last()) {
            Some(g) => {
                assert(event_groups_of(a) + event_groups_of(b) =~= (event_groups_of(a)
                    + event_groups_of(b.drop_last())).push(g));
            },
            None => {},
        }
    }
}

/// The categories of a gender group are, in order, the category of every
/// accordion item that gives one.
pub proof fn law_categories_keep_every_category(accs: Seq<AccordionView>)
    ensures
        categories_of(accs) == accs.filter_map(|a: AccordionView| category_of(a)),
    decreases accs.len(),
{
    if accs.len() > 0 {
        law_categories_keep_every_category(accs.drop_last());
        match category_of(accs.last()) {
            Some(c) => {
                assert(categories_of(accs) =~= accs.drop_last().filter_map(
                    |a: AccordionView| category_of(a),
                ) + seq![c]);
            },
            None => {},
        }
    }
}

/// The program is, in order, the gender group of every top-level group that
/// gives one.
pub proof fn law_program_keeps_every_gender_group(gs: Seq<GroupView>)
    ensures
        program_of(gs) == gs.filter_map(|g: GroupView| gender_group_of(g)),
    decreases gs.len(),
{
    if gs.len() > 0 {
        law_program_keeps_every_gender_group(gs.drop_last());
        match gender_group_of(gs.last()) {
            Some(x) => {
                assert(program_of(gs) =~= gs.drop_last().filter_map(
                    |g: GroupView| gender_group_of(g),
                ) + seq![x]);
            },
            None => {},
        }
    }
}

/// The events of an inner group are, in order, the trimmed title of every
/// item that has a title that is not blank.
pub proof fn law_events_keep_every_event(items: Seq<Option<Seq<Seq<char>>>>)
    ensures
        events_of(items) == items.filter_map(
            |t: Option<Seq<Seq<char>>>|
                match t {
                    Some(t) => if trimmed(joined(t)).len() > 0 {
                        Some(trimmed(joined(t)))
                    } else {
                        None
                    },
                    None => None,
                },
        ),
    decreases items.len(),
{
    if items.len() > 0 {
        law_events_keep_every_event(items.drop_last());
        let f = |t: Option<Seq<Seq<char>>>|
            match t {
                Some(t) => if trimmed(joined(t)).len() > 0 {
                    Some(trimmed(joined(t)))
                } else {
                    None
                },
                None => None,
            };
        match f(items.last()) {
            Some(e) => {
                assert(events_of(items) =~= items.drop_last().filter_map(f) + seq![e]);
            },
            None => {},
        }
    }
}

/// A top-level group gives a gender group exactly when its title carries
/// the men's or the women's icon and one of its accordion items gives a
/// category. The gender is "Men" when the men's icon is there, else
/// "Women"; the categories are those of its accordion items.
pub proof fn law_gender_group_fields(g: GroupView)
    ensures
        gender_group_of(g) is Some <==> {
            &&& g.title is Some
            &&& (g.title->Some_0.has_mars || g.title->Some_0.has_venus)
            &&& categories_of(g.accordions).len() > 0
        },
        gender_group_of(g) matches Some(x) ==> {
            &&& x.gender == if g.title->Some_0.has_mars {
                "Men"@
            } else {
                "Women"@
            }
            &&& x.categories == categories_of(g.accordions)
        },
{
}

/// An accordion item gives a category exactly when it has a title whose
/// text, trimmed, is not empty; that text is the name, and the event
/// groups are those of the inner groups of its content (none without one).
pub proof fn law_category_fields(a: AccordionView)
    ensures
        category_of(a) is Some <==> (a.title_texts is Some && trimmed(
            joined(a.title_texts->Some_0),
        ).len() > 0),
        category_of(a) matches Some(c) ==> {
            &&& c.name == trimmed(joined(a.title_texts->Some_0))
            &&& c.event_groups == match a.content {
                Some(gs) => event_groups_of(gs),
                None => Seq::<ProgramEventGroupView>::empty(),
            }
        },
{
}

/// An inner group with a title gives an event group with the trimmed text
/// of the title's price as its price, the events of its items as its
/// events, and, when it has a price, the title's text before the price as
/// its label and the text after it, when not blank, as its capacity.
pub proof fn law_event_group_fields(g: InnerGroupView)
    ensures
        event_group_of(g) matches Some(e) ==> {
            let l = g.label->Some_0;
            let label = trimmed(joined(l.texts));
            &&& g.label is Some
            &&& e.price == match l.price_texts {
                Some(p) => Some(trimmed(joined(p))),
                None => None,
            }
            &&& e.events == events_of(g.items)
            &&& e.price matches Some(p) ==> e.label == trimmed(split_first(label, p))
            &&& e.price is None ==> e.capacity is None
            &&& e.price matches Some(p) ==> e.capacity == match split_second(label, p) {
                Some(after) => if trimmed(after).len() > 0 {
                    Some(trimmed(after))
                } else {
                    None
                },
                None => None,
            }
        },
{
}

} // verus!
