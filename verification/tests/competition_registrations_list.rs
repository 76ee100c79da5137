use atletiek_nu_api::html::Page;
use atletiek_nu_api::models::competition_registrations_list::{
    country_continent_of, id_from_capture, registration_with_date, LocationSource,
};
use atletiek_nu_api::calendar::CalendarDate;
use atletiek_nu_api::models::competition_registrations_list::{
    parse, registration, registrations_from_rows, RowSource,
};

const PAGE: &str = r#"<html><body><div id="wedstrijden"><table id="persoonlijkerecords"><tbody>
<tr><td><a href="https://www.athletics.app/atleet/main/12345/">Open Meet</a></td>
    <td><span class="sortData" data="2024-06-15"></span></td>
    <td><span class="subtext"><span class="hidden-xs">Amsterdam <img src="/flags/nl.png" title='Netherlands<br><span class="subtext">Europe</span>'></span></span></td></tr>
<tr><td>No date</td><td></td><td><span class="subtext"><span class="hidden-xs">X</span></span></td></tr>
<tr><td>Bad date</td><td><span class="sortData" data="2024-13-45"></span></td><td><span class="subtext"><span class="hidden-xs">X</span></span></td></tr>
<tr><td>Plain</td><td><span class="sortData" data="20230101"></span></td><td><span class="subtext"><span class="hidden-xs"> Gent </span></span></td></tr>
</tbody></table></div></body></html>"#;

#[test]
fn parses_registrations() {
    let html = Page::parse_document(PAGE);
    let v = parse(&html.root_element()).unwrap();
    assert_eq!(v.len(), 2);
    let r = &v[0];
    assert_eq!(r.participant_id, 12345);
    assert_eq!(r.name, "Open Meet");
    assert_eq!(r.date, CalendarDate { year: 2024, month: 6, day: 15 });
    assert_eq!(r.location.place, "Amsterdam");
    assert_eq!(r.location.country, "Netherlands");
    assert_eq!(r.location.continent, "Europe");
    assert_eq!(r.location.flag_img_url, "/flags/nl.png");
    let p = &v[1];
    assert_eq!(p.participant_id, 0);
    assert_eq!(p.location.place, "Gent");
    assert_eq!(p.location.country, "");
    assert_eq!(p.date, CalendarDate { year: 2023, month: 1, day: 1 });
}

#[test]
fn no_table_gives_no_registrations() {
    let html = Page::parse_document("<html><body><p>x</p></body></html>");
    assert!(parse(&html.root_element()).unwrap().is_empty());
}

#[test]
fn rows_missing_a_part_are_skipped() {
    let row = RowSource { first_cell_texts: Some(vec![" A ".to_string()]), link_href: None, sort_data: Some("20200229".to_string()), location: None };
    assert!(registration(&row).is_none());
    let rows = vec![RowSource { first_cell_texts: Some(vec![" ".to_string(), " A ".to_string()]), link_href: Some("https://www.athletics.app/atleet/main/7/".to_string()), sort_data: Some("2020-02-29".to_string()), location: Some(atletiek_nu_api::models::competition_registrations_list::LocationSource { texts: vec![], flag: None }) }];
    let v = registrations_from_rows(&rows);
    assert_eq!(v.len(), 1);
    assert_eq!(v[0].name, "A");
    assert_eq!(v[0].participant_id, 7);
    assert_eq!(v[0].date, CalendarDate { year: 2020, month: 2, day: 29 });
    assert!(v.iter().all(|r| (1..=12).contains(&r.date.month) && (1..=31).contains(&r.date.day)));
}

#[test]
fn parts_from_given_captures_and_dates() {
    assert_eq!(id_from_capture(&Some("42".to_string())), 42);
    assert_eq!(id_from_capture(&Some("".to_string())), 0);
    let caps = Some(vec![Some("all".to_string()), Some(" Belgium ".to_string()), Some("Europe ".to_string())]);
    assert_eq!(country_continent_of(&caps), ("Belgium".to_string(), "Europe".to_string()));
    assert_eq!(country_continent_of(&None), (String::new(), String::new()));
    let row = RowSource {
        first_cell_texts: Some(vec!["Meet".to_string()]),
        link_href: None,
        sort_data: None,
        location: Some(LocationSource { texts: vec![" Oslo ".to_string()], flag: None }),
    };
    let d = CalendarDate { year: 1999, month: 12, day: 31 };
    let r = registration_with_date(&row, Some(d)).unwrap();
    assert_eq!((r.name.as_str(), r.date, r.location.place.as_str()), ("Meet", d, "Oslo"));
    assert!(registration_with_date(&row, None).is_none());
}
