use atletiek_nu_api::html::Page;
use atletiek_nu_api::models::athlete_list::{athlete, athletes_from_rows, parse, AthleteRowSource};

const PAGE: &str = r#"<html><body><div class="list-athletes"><ul>
<li><a onclick="go('?koppel_id=98765')"><div class="item-inner"><div class="item-title">John  Doe<div class="item-after"> 23 years | AV Club </div></div></div></a></li>
<li><a onclick="go('?koppel_id=abc')"><div class="item-inner"><div class="item-title">No Id<div> 30 years | Club </div></div></div></a></li>
<li><a onclick="go('?koppel_id=5')"><div class="item-inner"><div class="item-title">Only name</div></div></a></li>
<li><div class="item-inner"><div class="item-title">No link<div> 30 years | Club </div></div></div></li>
</ul></div></body></html>"#;

#[test]
fn parses_athlete_search_results() {
    let v = parse(&Page::parse_document(PAGE)).unwrap();
    assert_eq!(v.len(), 1);
    assert_eq!(v[0].id, 98765);
    assert_eq!(v[0].name, "John Doe");
    assert_eq!(v[0].club_name, "AV Club");
    assert_eq!(v[0].age, 23);
}

fn row(texts: &[&str], onclick: Option<&str>) -> AthleteRowSource {
    AthleteRowSource {
        texts: texts.iter().map(|t| t.to_string()).collect(),
        onclick: onclick.map(|o| o.to_string()),
    }
}

#[test]
fn rows_that_fail_a_check_are_skipped() {
    assert!(athlete(&row(&["Jane", "17 years | Club"], None)).is_none());
    assert!(athlete(&row(&["Jane", "no age here"], Some("koppel_id=1"))).is_none());
    assert!(athlete(&row(&["Jane", "  "], Some("koppel_id=1"))).is_none());
    assert!(athlete(&row(&["Jane", "17 years | Club"], Some("koppel_id=99999999999"))).is_none());
    let a = athlete(&row(&["  Jane ", "", "17 years | Club"], Some("x?koppel_id=12&y"))).unwrap();
    assert_eq!((a.id, a.name.as_str(), a.club_name.as_str(), a.age), (12, "Jane", "Club", 17));
}

#[test]
fn age_that_does_not_fit_is_zero() {
    let a = athlete(&row(&["Old", "999 years | Club"], Some("koppel_id=3"))).unwrap();
    assert_eq!(a.age, 0);
}

#[test]
fn every_athlete_is_named() {
    let rows = vec![
        row(&["A  B", "20 years | X"], Some("koppel_id=1")),
        row(&["  ", "20 years | X"], Some("koppel_id=2")),
        row(&["C", "21 years | Y"], Some("koppel_id=3")),
    ];
    let v = athletes_from_rows(&rows);
    assert_eq!(v.len(), 2);
    assert!(v.iter().all(|a| !a.name.is_empty()));
}

use atletiek_nu_api::models::athlete_list::athlete_from_captures;

#[test]
fn athlete_from_given_captures() {
    let texts = vec!["Ann  Lee".to_string(), "31 years | Club".to_string()];
    let caps = Some(vec![Some("31 years | Club".to_string()), Some("31".to_string()), Some("Club".to_string())]);
    let a = athlete_from_captures(&texts, &caps, &Some("77".to_string())).unwrap();
    assert_eq!((a.id, a.name.as_str(), a.club_name.as_str(), a.age), (77, "Ann Lee", "Club", 31));
    assert!(athlete_from_captures(&texts, &None, &Some("77".to_string())).is_none());
    assert!(athlete_from_captures(&texts, &caps, &None).is_none());
    assert!(athlete_from_captures(&texts, &caps, &Some("7a".to_string())).is_none());
    let short = Some(vec![Some("x".to_string())]);
    let a = athlete_from_captures(&texts, &short, &Some("1".to_string())).unwrap();
    assert_eq!((a.club_name.as_str(), a.age), ("", 0));
}
