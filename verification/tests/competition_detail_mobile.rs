use atletiek_nu_api::html::Page;
use atletiek_nu_api::error::ParseError;
use atletiek_nu_api::models::competition_detail_mobile::{
    categories_from_rows, parse, parse_event_row, walk_terminates, CellSource,
};

const PAGE: &str = r#"<html><body>
<h2 class="no-margin"> Spring Games <small>2024</small></h2>
<div class="event-header-container"><p>Utrecht <img class="flagicon" src="/flags/nl.png"></p><p>12 May 2024 {{_ "u"}}</p></div>
<div class="event-description"> Fun for all </div>
<i class="atletiekunie"></i>
<table class="categorieenonderdelenpakket">
<tr><th>Category</th></tr>
<tr><td rowspan="2"><span class="tipped" title=" Senior Men "></span><span class="tipped" title="U20 Men"></span></td><td>Sprint:</td><td><span class="tipped" title="100m"></span><span class="tipped" title="12 starting places left"></span></td><td>€5.00</td></tr>
<tr><td>Throw:</td><td>Shot put, Discus,</td><td>free</td></tr>
<tr><td>loose row</td></tr>
</table>
</body></html>"#;

#[test]
fn parses_detail_page() {
    let d = parse(&Page::parse_document(PAGE)).unwrap();
    assert_eq!(d.name, "Spring Games");
    assert_eq!(d.location, "Utrecht");
    assert_eq!(d.country_code, "nl");
    assert_eq!(d.date, "12 May 2024");
    assert_eq!(d.description.as_deref(), Some("Fun for all"));
    assert!(d.federation_recognized);
    assert_eq!(d.categories.len(), 1);
    let c = &d.categories[0];
    assert_eq!(c.age_groups, vec!["Senior Men".to_string(), "U20 Men".to_string()]);
    assert_eq!(c.event_groups.len(), 2);
    assert_eq!(c.event_groups[0].label, "Sprint");
    assert_eq!(c.event_groups[0].events, vec!["100m".to_string()]);
    assert_eq!(c.event_groups[0].capacity_info, vec!["12 starting places left".to_string()]);
    assert_eq!(c.event_groups[0].price.as_deref(), Some("€5.00"));
    assert_eq!(c.event_groups[1].label, "Throw");
    assert_eq!(c.event_groups[1].events, vec!["Shot put".to_string(), "Discus".to_string()]);
    assert_eq!(c.event_groups[1].price.as_deref(), Some("free"));
}

#[test]
fn zero_rowspan_is_an_error() {
    let page = r#"<html><body><table class="categorieenonderdelenpakket">
<tr><th>h</th></tr>
<tr><td rowspan="0"><span class="tipped" title="U16"></span></td><td>Jump</td></tr>
</table></body></html>"#;
    assert_eq!(parse(&Page::parse_document(page)).err(), Some(ParseError::ZeroRowspan));
}

#[test]
fn page_without_anything_gives_empty_detail() {
    let d = parse(&Page::parse_document("<html><body></body></html>")).unwrap();
    assert_eq!(d.name, "");
    assert_eq!(d.description, None);
    assert!(!d.federation_recognized);
    assert!(d.categories.is_empty());
}

fn cell(texts: &[&str], titles: &[Option<&str>], rowspan: Option<&str>) -> CellSource {
    CellSource {
        texts: texts.iter().map(|t| t.to_string()).collect(),
        tipped_titles: titles.iter().map(|t| t.map(|x| x.to_string())).collect(),
        rowspan: rowspan.map(|r| r.to_string()),
    }
}

#[test]
fn event_rows() {
    assert!(parse_event_row(&vec![], 0).is_none());
    assert!(parse_event_row(&vec![cell(&[" : "], &[], None)], 0).is_none());
    let g = parse_event_row(&vec![cell(&["Relay:"], &[], None)], 0).unwrap();
    assert_eq!(g.label, "Relay");
    assert!(g.events.is_empty());
    assert_eq!(g.price, None);
    let g = parse_event_row(
        &vec![cell(&[""], &[], None), cell(&["5 reserve places"], &[None], None), cell(&["gratis"], &[], None)],
        0,
    );
    assert!(g.is_none());
}

#[test]
fn rowspan_that_does_not_read_as_a_number_is_one() {
    let rows = vec![
        vec![cell(&["head"], &[], None)],
        vec![cell(&[], &[Some("U14")], Some("x")), cell(&["Run"], &[], None)],
        vec![cell(&[], &[Some("U16")], Some("1")), cell(&["Jump"], &[], None)],
    ];
    assert!(walk_terminates(&rows));
    let cats = categories_from_rows(&rows);
    assert_eq!(cats.len(), 2);
    assert_eq!(cats[0].event_groups[0].label, "Run");
    assert_eq!(cats[1].age_groups, vec!["U16".to_string()]);
}

#[test]
fn every_category_is_named() {
    let rows = vec![
        vec![],
        vec![cell(&[], &[Some(" "), Some("U18")], Some("3")), cell(&["A:"], &[], None), cell(&[" , x,"], &[], None)],
        vec![cell(&[":"], &[], None)],
        vec![],
    ];
    let cats = categories_from_rows(&rows);
    for c in &cats {
        assert!(c.age_groups.iter().all(|a| !a.is_empty()));
        for g in &c.event_groups {
            assert!(!g.label.is_empty() || !g.events.is_empty());
            assert!(g.events.iter().all(|e| !e.is_empty()));
        }
    }
    assert_eq!(cats[0].age_groups, vec!["U18".to_string()]);
    assert_eq!(cats[0].event_groups.len(), 1);
    assert_eq!(cats[0].event_groups[0].events, vec!["x".to_string()]);
}
