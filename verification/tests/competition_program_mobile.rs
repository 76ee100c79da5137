use atletiek_nu_api::html::Page;
use atletiek_nu_api::models::competition_program_mobile::{
    event_group, parse, program_from_groups, AccordionSource, GroupSource, GroupTitleSource,
    InnerGroupSource, LabelSource,
};

const PAGE: &str = r#"<html><body><div class="page-content page-event-program"><div class="list">
 <div class="list-group"><ul>
   <li class="list-group-title"><i class="fa fa-mars"></i> Men</li>
   <li class="accordion-item"><div class="item-title"> U18 Men </div>
     <div class="accordion-item-content"><div class="list-group"><ul>
        <li class="list-group-title">Track Events <span class="meerkamp-kosten-label">€ 6,00</span> 20 places</li>
        <li><div class="item-title">100m</div></li>
        <li><div class="item-title"> </div></li>
        <li><div class="item-title">200m</div></li>
     </ul></div></div></li>
 </ul></div>
 <div class="list-group"><ul>
   <li class="list-group-title">Other</li>
   <li class="accordion-item"><div class="item-title">Ignored</div></li>
 </ul></div>
 <div class="list-group"><ul>
   <li class="list-group-title"><i class="fa fa-venus"></i> Women</li>
   <li class="accordion-item"><div class="item-title">Senior Women</div></li>
 </ul></div>
</div></div></body></html>"#;

#[test]
fn parses_program() {
    let p = parse(&Page::parse_document(PAGE)).unwrap();
    assert_eq!(p.gender_groups.len(), 2);
    let men = &p.gender_groups[0];
    assert_eq!(men.gender, "Men");
    assert_eq!(men.categories.len(), 1);
    assert_eq!(men.categories[0].name, "U18 Men");
    let g = &men.categories[0].event_groups[0];
    assert_eq!(g.label, "Track Events");
    assert_eq!(g.price.as_deref(), Some("€ 6,00"));
    assert_eq!(g.capacity.as_deref(), Some("20 places"));
    assert_eq!(g.events, vec!["100m".to_string(), "200m".to_string()]);
    let women = &p.gender_groups[1];
    assert_eq!(women.gender, "Women");
    assert_eq!(women.categories[0].name, "Senior Women");
    assert!(women.categories[0].event_groups.is_empty());
}

fn strings(v: &[&str]) -> Vec<String> {
    v.iter().map(|t| t.to_string()).collect()
}

#[test]
fn labels_without_price_stop_at_digits() {
    let g = InnerGroupSource {
        label: Some(LabelSource { texts: strings(&["Field Events 12 places"]), price_texts: None }),
        items: vec![],
    };
    let e = event_group(&g).unwrap();
    assert_eq!(e.label, "Field Events");
    assert_eq!(e.capacity, None);
    let g = InnerGroupSource {
        label: Some(LabelSource { texts: strings(&["10 km"]), price_texts: None }),
        items: vec![],
    };
    assert_eq!(event_group(&g).unwrap().label, "10 km");
    let g = InnerGroupSource { label: None, items: vec![Some(strings(&["100m"]))] };
    assert!(event_group(&g).is_none());
}

#[test]
fn a_blank_price_splits_at_every_character() {
    let g = InnerGroupSource {
        label: Some(LabelSource { texts: strings(&["Relay"]), price_texts: Some(strings(&[" "])) }),
        items: vec![Some(strings(&["4x100m"]))],
    };
    let e = event_group(&g).unwrap();
    assert_eq!(e.label, "");
    assert_eq!(e.price.as_deref(), Some(""));
    assert_eq!(e.capacity.as_deref(), Some("R"));
    assert_eq!(e.events, vec!["4x100m".to_string()]);
}

#[test]
fn every_gender_group_is_named() {
    let groups = vec![
        GroupSource { title: Some(GroupTitleSource { has_mars: true, has_venus: true }), accordions: vec![
            AccordionSource { title_texts: Some(strings(&["  "])), content: None },
            AccordionSource { title_texts: Some(strings(&["U12"])), content: Some(vec![]) },
        ] },
        GroupSource { title: Some(GroupTitleSource { has_mars: false, has_venus: true }), accordions: vec![] },
        GroupSource { title: None, accordions: vec![AccordionSource { title_texts: Some(strings(&["X"])), content: None }] },
    ];
    let p = program_from_groups(&groups);
    assert_eq!(p.gender_groups.len(), 1);
    assert_eq!(p.gender_groups[0].gender, "Men");
    for g in &p.gender_groups {
        assert!(g.gender == "Men" || g.gender == "Women");
        assert!(!g.categories.is_empty());
        assert!(g.categories.iter().all(|c| !c.name.is_empty()));
    }
}
