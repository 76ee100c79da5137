use atletiek_nu_api::html::Page;
use atletiek_nu_api::models::athlete_profile_mobile::wind_from_capture;
use atletiek_nu_api::error::ParseError;
use atletiek_nu_api::models::athlete_profile_mobile::{parse, parse_name, PerformanceValue};

const RECORDS: &str = r#"<html><body>
<div class="list-athlete-results"><ul>
 <li class="list-header">Personal records</li>
 <li><div class="onderdeel">100m <span class="badge">Indoor</span><div class="item-footer">U20</div></div>
     <div class="item-title">10.85h<div class="result-footer-details">+1,2 m/s</div></div>
     <div class="location">15 Jun 2024<div class="result-footer-details">Amsterdam <img class="flagicon" src="/img/flags/nl.png"></div></div></li>
</ul></div>
<div class="tabs graphTabs"><div id="tab-eventgraph-1"><div class="list-athlete-results"><ul>
 <li class="list-header">History</li>
 <li><div class="onderdeel">-0.03</div>
     <div class="item-title">10.85h<div class="item-footer"><span>n/a m/s</span></div></div>
     <div class="location">15 Jun 2024<div class="result-footer-details">Amsterdam</div></div></li>
</ul></div></div></div>
</body></html>"#;

#[test]
fn profile_matches_history_tab() {
    let html = Page::parse_document(RECORDS);
    let p = parse(&html, "John Doe".to_string()).unwrap();
    assert_eq!(p.name, "John Doe");
    assert_eq!(p.personal_bests.len(), 1);
    let pb = &p.personal_bests[0];
    assert_eq!(pb.event, "100m");
    assert_eq!(pb.performance, "10.85h");
    assert_eq!(pb.performance_value, PerformanceValue::Plain("10.85".to_string()));
    assert!(pb.hand_measured);
    assert!(pb.indoor);
    assert_eq!(pb.attribute.as_deref(), Some("U20"));
    assert_eq!(pb.wind_speed.as_deref(), Some("+1.2"));
    assert_eq!(pb.location, "Amsterdam");
    assert_eq!(pb.country_code, "nl");
    assert_eq!(pb.date, "15 Jun 2024");
    assert!(!pb.not_important);
    assert_eq!(pb.history.len(), 1);
    assert_eq!(pb.history[0].delta.as_deref(), Some("-0.03"));
    assert_eq!(pb.history[0].wind_speed, None);
}

#[test]
fn profile_without_results_list_is_an_error() {
    let html = Page::parse_document("<html><body><p>nothing</p></body></html>");
    assert_eq!(parse(&html, String::new()).err(), Some(ParseError::MissingResultsList));
}

#[test]
fn name_falls_back_to_title() {
    let html = Page::parse_document(
        r#"<html><body><h3 class="no-margin-bottom">  John  Doe </h3></body></html>"#,
    );
    assert_eq!(parse_name(&html).unwrap(), "John Doe");
    let html = Page::parse_document(
        r#"<html><body><h3 class="no-margin-bottom"> </h3><div class="title"> Jane </div></body></html>"#,
    );
    assert_eq!(parse_name(&html).unwrap(), "Jane");
    let html = Page::parse_document("<html><body></body></html>");
    assert_eq!(parse_name(&html).err(), Some(ParseError::MissingAthleteName));
}

use atletiek_nu_api::models::athlete_profile_mobile::{
    assign_history_tabs, extract_country_code, parse_item, parse_wind, performance_value,
    EventSource, ItemSource, MobilePersonalBest, PerformanceHistoryEntry, PerformanceSource,
};

#[test]
fn performance_values() {
    assert_eq!(performance_value(" 10.85 "), PerformanceValue::Plain("10.85".to_string()));
    assert_eq!(performance_value("12,3h"), PerformanceValue::Plain("12.3".to_string()));
    assert_eq!(
        performance_value("1:58,3"),
        PerformanceValue::MinutesSeconds("1".to_string(), "58.3".to_string())
    );
    assert_eq!(
        performance_value("2:31:07"),
        PerformanceValue::HoursMinutesSeconds("2".to_string(), "31".to_string(), "07".to_string())
    );
    for code in ["DNF", "DNS", "DQ", "NM", "NH", "", "  ", "h", "DNFh"] {
        assert_eq!(performance_value(code), PerformanceValue::Zero);
    }
    assert_eq!(performance_value("1:2:3:4"), PerformanceValue::Plain("1:2:3:4".to_string()));
}

#[test]
fn wind_and_country() {
    assert_eq!(parse_wind("+1,2 m/s").as_deref(), Some("+1.2"));
    assert_eq!(parse_wind("wind -0.4m/s").as_deref(), Some("-0.4"));
    assert_eq!(parse_wind("n/a m/s"), None);
    assert_eq!(extract_country_code("/img/flags/be.png"), "be");
    assert_eq!(extract_country_code("/img/flags/BEL.png"), "");
}

fn strings(v: &[&str]) -> Vec<String> {
    v.iter().map(|t| t.to_string()).collect()
}

#[test]
fn item_without_event_or_performance_is_skipped() {
    let no_event = ItemSource {
        class_attr: None,
        event: None,
        performance: Some(PerformanceSource { texts: strings(&["10.0"]), wind_texts: None }),
        location: None,
    };
    assert!(parse_item(&no_event).is_none());
    let item = ItemSource {
        class_attr: Some("notThatImportant".to_string()),
        event: Some(EventSource {
            texts: strings(&["x", "\n", "Long jump"]),
            badge_texts: Some(strings(&["INDOOR"])),
            footer_texts: Some(strings(&["  "])),
        }),
        performance: Some(PerformanceSource { texts: strings(&[" 6.12 "]), wind_texts: Some(strings(&[""])) }),
        location: None,
    };
    let p = parse_item(&item).unwrap();
    assert_eq!(p.event_name, "Long jump");
    assert!(p.indoor);
    assert!(p.not_important);
    assert_eq!(p.attribute, None);
    assert_eq!(p.wind_speed, None);
    assert_eq!(p.date, "");
    assert!(!p.hand_measured);
}

fn pb(perf: &str, date: &str) -> MobilePersonalBest {
    MobilePersonalBest {
        event: "e".to_string(),
        performance: perf.to_string(),
        performance_value: performance_value(perf),
        wind_speed: None,
        hand_measured: false,
        location: String::new(),
        country_code: String::new(),
        date: date.to_string(),
        not_important: false,
        indoor: false,
        attribute: None,
        history: Vec::new(),
    }
}

fn entry(perf: &str, date: &str) -> PerformanceHistoryEntry {
    PerformanceHistoryEntry {
        performance: perf.to_string(),
        performance_value: performance_value(perf),
        wind_speed: None,
        hand_measured: false,
        location: String::new(),
        country_code: String::new(),
        date: date.to_string(),
        delta: None,
    }
}

#[test]
fn tabs_in_order_go_to_records_in_order() {
    let prs = vec![pb("10.0", "d1"), pb("20.0", "d2")];
    let tabs = vec![vec![entry("10.0", "d1")], vec![entry("21.0", "d0"), entry("20.0", "d2")]];
    let out = assign_history_tabs(&prs, &tabs);
    assert_eq!(out[0].history[0].performance, "10.0");
    assert_eq!(out[1].history.len(), 2);
}

#[test]
fn a_missing_tab_is_skipped_by_looking_ahead() {
    // The record "20.0" has no tab of its own; the next record's tab is
    // found one place ahead.
    let prs = vec![pb("20.0", "d2"), pb("30.0", "d3")];
    let tabs = vec![vec![entry("30.0", "d3")], vec![entry("99", "x")]];
    let out = assign_history_tabs(&prs, &tabs);
    assert!(out[0].history.is_empty());
    assert_eq!(out[1].history[0].performance, "30.0");
}

#[test]
fn history_only_from_a_matching_tab() {
    let prs = vec![pb("1", "a"), pb("2", "b"), pb("3", "c")];
    let tabs = vec![vec![entry("9", "z")], vec![entry("3", "c")], vec![entry("2", "b")]];
    let out = assign_history_tabs(&prs, &tabs);
    assert_eq!(out.len(), 3);
    for (i, o) in out.iter().enumerate() {
        assert_eq!(o.performance, prs[i].performance);
        assert!(o.history.is_empty() || o.history.iter().any(|h| h.performance == o.performance && h.date == o.date));
    }
}

#[test]
fn wind_from_given_group() {
    assert_eq!(wind_from_capture(&Some("-1,5".to_string())).as_deref(), Some("-1.5"));
    assert_eq!(wind_from_capture(&None), None);
}
