use atletiek_nu_api::html::Page;
use atletiek_nu_api::models::competitions_list_mobile::{id_from_capture, place_from_text};
use atletiek_nu_api::models::competitions_list_mobile::{
    competition, event_id, location_and_registrations, parse, LinkSource, ListItemSource,
};

const PAGE: &str = r#"<html><body><ul>
<li data-header-name="June 2024"><a onclick="openEvent(event_id=4242)" class="item-link cancelled">
  <div class="item-inner"><div class="item-title"><h6> Open Meet </h6></div>
  <div class="subtitle">Amsterdam | 120 registrations</div></div>
  <div class="mini-calendar-header">Sat</div><div class="mini-calendar-footer">15</div>
  <img class="WA-label"><span class="clubmembersonly"></span></a></li>
<li><a onclick="nothing">no id</a></li>
<li><a onclick="event_id=7"><div class="item-title"><h6> </h6></div></a></li>
<li data-header-name="July 2024"><a onclick="event_id=8"><div class="item-title"><h6>Club Night</h6></div><div class="item-footer">Leiden</div></a></li>
</ul></body></html>"#;

#[test]
fn parses_competition_search_results() {
    let v = parse(&Page::parse_document(PAGE)).unwrap();
    assert_eq!(v.len(), 2);
    let c = &v[0];
    assert_eq!(c.id, 4242);
    assert_eq!(c.name, "Open Meet");
    assert_eq!(c.location, "Amsterdam");
    assert_eq!(c.registrations, 120);
    assert_eq!(c.date_display, "Sat 15 June 2024");
    assert!(c.cancelled && c.club_only && c.world_athletics_recognized);
    let d = &v[1];
    assert_eq!((d.id, d.name.as_str(), d.location.as_str(), d.registrations), (8, "Club Night", "Leiden", 0));
    assert_eq!(d.date_display, "");
    assert!(!d.cancelled && !d.club_only && !d.world_athletics_recognized);
}

fn link(subtitles: &[&[&str]]) -> LinkSource {
    LinkSource {
        onclick: Some("event_id=1".to_string()),
        class_attr: None,
        title_texts: Some(vec!["Meet".to_string()]),
        wa_label: false,
        club_only: false,
        subtitles: subtitles.iter().map(|s| s.iter().map(|t| t.to_string()).collect()).collect(),
        calendar_header: None,
        calendar_footer: Some(vec!["3".to_string()]),
    }
}

#[test]
fn the_last_registration_count_wins_and_the_first_place() {
    let (loc, reg) = location_and_registrations(&link(&[&[" "], &["Gent | 5 athletes"], &["12 deelnemers"]]));
    assert_eq!(loc, "Gent");
    assert_eq!(reg, 12);
    let (loc, reg) = location_and_registrations(&link(&[&["99999999999 registrations"]]));
    assert_eq!(loc, "");
    assert_eq!(reg, 0);
}

#[test]
fn ids_and_names() {
    assert_eq!(event_id("x(event_id=12)"), Some(12));
    assert_eq!(event_id("event_id="), None);
    assert_eq!(event_id("event_id=4294967296"), None);
    let item = ListItemSource { header_name: None, link: Some(link(&[])) };
    let c = competition(&item).unwrap();
    assert_eq!(c.name, "Meet");
    assert_eq!(c.date_display, "");
    assert!(competition(&ListItemSource { header_name: None, link: None }).is_none());
}

#[test]
fn ids_and_places_from_given_captures() {
    assert_eq!(id_from_capture(&Some("+15".to_string())), Some(15));
    assert_eq!(id_from_capture(&Some("".to_string())), None);
    assert_eq!(id_from_capture(&None), None);
    assert_eq!(place_from_text(" Gent | | "), "Gent |");
    assert_eq!(place_from_text("Gent ||"), "Gent");
    assert_eq!(place_from_text("|"), "");
}
