use spatial_os::agents::family::{
    days_until, facts, facts_with, label_of_lower, parse_contacts_csv, parse_month_day,
    parse_month_day_lower, parse_person_and_label, read_person, report, Contact,
};
use spatial_os::agents::personal_productivity;
use spatial_os::agents::personal_productivity::{StoreTask, SOURCE_MEMORY, SOURCE_STORE};
use spatial_os::agents::stub::{career, personal_social, professional_social};
use spatial_os::calendar::{Date, LAST_YEAR};
use spatial_os::clock::Timestamp;
use spatial_os::domain::Domain;
use spatial_os::memory::item::{Kind, MemoryItem};

#[test]
fn family_date_parsing() {
    assert_eq!(parse_month_day("Sara's birthday is 20 Oct"), Some((10, 20)));
    assert_eq!(parse_month_day("Oct 20th is Sara's birthday"), Some((10, 20)));
    assert_eq!(parse_month_day("anniversary 2026-06-14"), Some((6, 14)));
    assert_eq!(parse_month_day("Mum 03-09"), Some((3, 9)));
    assert_eq!(parse_month_day("no date here"), None);
    assert_eq!(parse_person_and_label("Sara's birthday is 20 Oct"), ("Sara".to_string(), "birthday".to_string()));
    let today = Date::from_ymd(2026, 10, 1).unwrap();
    assert_eq!(days_until(today, 10, 20), Some(19));
    assert_eq!(days_until(today, 1, 5), Some(96));
    let c = parse_contacts_csv("name,relation,birthday\nSara,partner,10-20\nMum,mother,1970-03-09\n");
    assert_eq!(c.len(), 2);
    assert_eq!(c[1].birthday, Some((3, 9)));
}

#[test]
fn dates_of_every_shape() {
    assert_eq!(parse_month_day("20/10"), Some((10, 20)));
    assert_eq!(parse_month_day("OCTOBER 3rd"), Some((10, 3)));
    assert_eq!(parse_month_day("on 2026/02/29 at home"), Some((2, 29)));
    assert_eq!(parse_month_day("13-01"), None, "there is no thirteenth month");
    assert_eq!(parse_month_day("5.6"), None, "a dot alone is no date");
    assert_eq!(parse_month_day("31-12-20"), None, "a year is larger than a day");
    assert_eq!(parse_month_day("maybe 4 people"), Some((5, 4)));
    assert_eq!(parse_month_day("oct 32"), None);
    assert_eq!(parse_month_day("12 oct 5"), Some((10, 5)), "the number after comes first");
    assert_eq!(parse_month_day_lower(&"1-2".chars().collect()), Some((1, 2)));
}

#[test]
fn people_and_labels() {
    assert_eq!(read_person("remember Mum’s anniversary"), "Mum");
    assert_eq!(read_person("my dear aunt ada's party"), "Someone");
    assert_eq!(read_person("aunt ada's party"), "Ada");
    assert_eq!(read_person("'s birthday"), "Someone");
    assert_eq!(read_person("ßara's birthday"), "SSara");
    let label = |s: &str| label_of_lower(&s.chars().collect());
    assert_eq!(label("birthday anniversary"), "anniversary");
    assert_eq!(label("birthday"), "birthday");
    assert_eq!(label("party"), "event");
}

#[test]
fn the_next_occurrence_of_a_day() {
    let today = Date::from_ymd(2026, 3, 1).unwrap();
    assert_eq!(days_until(today, 3, 1), Some(0));
    assert_eq!(days_until(today, 2, 28), Some(364));
    assert_eq!(days_until(today, 2, 29), Some(730), "a leap day can be years ahead");
    assert_eq!(days_until(Date::from_ymd(2026, 10, 1).unwrap(), 2, 29), Some(516));
    assert_eq!(days_until(Date::from_ymd(1896, 3, 1).unwrap(), 2, 29), Some(2920), "1900 is no leap year");
    assert_eq!(days_until(Date::from_ymd(2027, 3, 1).unwrap(), 2, 29), Some(365));
    assert_eq!(days_until(today, 13, 1), None);
    assert_eq!(days_until(today, 2, 30), None);
    let last = Date::from_ymd(LAST_YEAR, 12, 31).unwrap();
    assert_eq!((days_until(last, 12, 31), days_until(last, 1, 1)), (Some(0), None));
}

#[test]
fn contacts_without_a_name_are_left_out() {
    let c = parse_contacts_csv("\n  Name , x\n , partner, 10-20\r\n Ada ,  \nBob");
    let names: Vec<(&str, &str)> = c.iter().map(|c| (c.name.as_str(), c.relation.as_str())).collect();
    assert_eq!(names, vec![("Ada", ""), ("Bob", "")]);
    assert!(c.iter().all(|c| c.birthday.is_none()));
}

fn contact(name: &str, birthday: Option<(u32, u32)>) -> Contact {
    Contact { name: name.to_string(), relation: String::new(), birthday }
}

#[test]
fn family_facts_are_soonest_first_and_not_repeated() {
    let today = Date::from_ymd(2026, 10, 1).unwrap();
    let texts: Vec<String> = ["Sara's birthday is 20 Oct", "no date", "Mum's anniversary 12-24", "Ada's party Oct 5"]
        .iter()
        .map(|s| s.to_string())
        .collect();
    let contacts = vec![
        contact("Sara", Some((10, 20))),
        contact("Bob", Some((10, 20))),
        contact("Eve", Some((10, 2))),
        contact("Tom", None),
        contact("Kim", Some((1, 5))),
    ];
    let f = facts(&texts, today, &contacts, Some("cal".to_string()));
    let shown: Vec<(&str, &str, i64, &str)> =
        f.upcoming.iter().map(|u| (u.name.as_str(), u.label.as_str(), u.days_until, u.source)).collect();
    assert_eq!(
        shown,
        vec![
            ("Eve", "birthday", 1, "contacts_csv"),
            ("Ada", "event", 4, "memory"),
            ("Sara", "birthday", 19, "memory"),
            ("Bob", "birthday", 19, "contacts_csv"),
        ]
    );
    assert_eq!(f.contacts, 5);
    assert_eq!(f.sources, vec!["memory", "contacts_csv"]);
    assert_eq!(f.family_calendar_id.as_deref(), Some("cal"));
    assert_eq!(
        report(&f.upcoming),
        "birthday — Eve in 1 days; event — Ada in 4 days; birthday — Sara in 19 days; birthday — Bob in 19 days"
    );
    let none = facts_with(&texts, today, 0, &vec![], None);
    assert!(none.upcoming.is_empty());
    assert_eq!(none.sources, vec!["memory"]);
    assert_eq!(report(&none.upcoming), "No family dates in the next 30 days on file.");
}

#[test]
fn a_contact_is_listed_once_and_a_memory_as_often_as_it_is_told() {
    let today = Date::from_ymd(2028, 2, 1).unwrap();
    let texts = vec!["Ann's birthday is 29 Feb".to_string(), "Ann's birthday is 29 Feb".to_string()];
    let contacts = vec![
        contact("Ann", Some((2, 29))),
        contact("Ben", Some((2, 29))),
        contact("Ben", Some((2, 29))),
        contact("Ben", Some((2, 28))),
    ];
    let f = facts(&texts, today, &contacts, None);
    let shown: Vec<(&str, u32, &str)> = f.upcoming.iter().map(|u| (u.name.as_str(), u.day, u.source)).collect();
    assert_eq!(
        shown,
        vec![("Ben", 28, "contacts_csv"), ("Ann", 29, "memory"), ("Ann", 29, "memory"), ("Ben", 29, "contacts_csv")]
    );
}

fn item(domain: Domain, kind: Kind, key: &str, text: Option<&str>) -> MemoryItem {
    MemoryItem {
        domain,
        kind,
        key: key.to_string(),
        text: text.map(str::to_string),
        rendered: "{}".to_string(),
        provenance: vec![],
        note: String::new(),
    }
}

#[test]
fn personal_tasks_are_most_postponed_first() {
    let due = Some(Timestamp { secs: 5, nanos: 0 });
    let task = |id: &str, postponed_count| StoreTask { id: id.to_string(), title: id.to_string(), postponed_count, due };
    let open = vec![task("a", 1), task("b", -3), task("c", 2)];
    let items = vec![
        item(Domain::Home, Kind::Known, "task.x", Some("Renew")),
        item(Domain::Shared, Kind::Assumed, "task.y", None),
        item(Domain::Home, Kind::Known, "routine.run", Some("Run")),
        item(Domain::Work, Kind::Known, "routine.work", Some("Work")),
    ];
    let hashes: Vec<String> = ["hx", "hy", "h1", "h2"].iter().map(|s| s.to_string()).collect();
    let postponed: Vec<Option<String>> =
        ["hx", "hy", "hx", "zz"].iter().map(|s| Some(s.to_string())).chain([None]).collect();
    let f = personal_productivity::facts(&open, &items, &hashes, &postponed);
    let shown: Vec<(&str, &str, usize, bool, &str)> =
        f.tasks.iter().map(|t| (t.key.as_str(), t.title.as_str(), t.postponed, t.known, t.source)).collect();
    assert_eq!(
        shown,
        vec![
            ("c", "c", 2, true, SOURCE_STORE),
            ("task.x", "Renew", 2, true, SOURCE_MEMORY),
            ("a", "a", 1, true, SOURCE_STORE),
            ("task.y", "{}", 1, false, SOURCE_MEMORY),
            ("b", "b", 0, true, SOURCE_STORE),
        ]
    );
    assert_eq!(f.postponed_total, 6);
    assert_eq!(f.routines, vec!["Run"]);
    assert_eq!(f.tasks[0].due, due);
    assert_eq!(f.tasks[1].due, None);
}

#[test]
fn stubs_say_what_they_need() {
    assert_eq!(career().name, "career_agent");
    assert_eq!(professional_social().label, "STUB — BK-101");
    assert_eq!(personal_social().label, "STUB — BK-102");
    assert!(career().note.contains("\"remember …\""));
}
