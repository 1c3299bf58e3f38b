use spatial_os::clock::Timestamp;
use spatial_os::domain::Domain;
use spatial_os::memory::chat::{
    explain, list, slug_lower, structure_statement, try_handle, try_handle_any,
    try_structure_statement, MemoryReply, Request,
};
use spatial_os::memory::consent::{categories, normalize_category, Consent, ConsentStore};
use spatial_os::memory::item::{Kind, MemoryItem, Reason, Sensitivity};

#[test]
fn memory_statement_structuring() {
    let s = structure_statement("I never take meetings before 10");
    assert_eq!((s.domain, s.category, s.key.as_str(), s.value.as_str()), (Domain::Work, "preference", "preference.meetings.earliest_start", "10"));
    let s = structure_statement("I live in Nairobi");
    assert_eq!((s.domain, s.key.as_str(), s.value.as_str()), (Domain::Shared, "profile.home_location", "Nairobi"));
    let s = structure_statement("my sleep has been bad since the project started");
    assert_eq!(s.domain, Domain::Work);
    assert!(s.key.starts_with("context.my_sleep_has_been_bad"));
    assert_eq!(s.sensitivity, Sensitivity::Health);
}

#[test]
fn statements_of_every_shape() {
    let get = |t: &str| {
        let s = structure_statement(t);
        (s.domain, s.category, s.key, s.value)
    };
    let want = |d: Domain, c: &'static str, k: &str, v: &str| (d, c, k.to_string(), v.to_string());
    assert_eq!(get("My name is ada lovelace."), want(Domain::Shared, "profile", "profile.name", "Ada Lovelace"));
    assert_eq!(get("call me mo"), want(Domain::Shared, "profile", "profile.name", "Mo"));
    assert_eq!(get("My timezone is Africa/Nairobi"), want(Domain::Shared, "profile", "profile.timezone", "africa/nairobi"));
    assert_eq!(get("no meetings before 9am please"), want(Domain::Work, "preference", "preference.meetings.earliest_start", "9am please"));
    assert_eq!(get("no meetings before 9 am"), want(Domain::Work, "preference", "preference.meetings.earliest_start", "9"));
    assert_eq!(get("Protect my evenings after 18:00."), want(Domain::Home, "preference", "preference.protected_time", "Protect my evenings after 18:00"));
    assert_eq!(get("Sara's birthday is 20 Oct"), want(Domain::Home, "date", "date.birthday.sara", "Sara's birthday is 20 Oct"));
    assert_eq!(get("I need to Renew my Passport!"), want(Domain::Home, "task", "task.renew_my_passport", "Renew my Passport!"));
    assert_eq!(get("to send the Report"), want(Domain::Work, "task", "task.send_the_report", "send the Report"));
    assert_eq!(get("The kids like pizza"), want(Domain::Home, "context", "context.the_kids_like_pizza", "The kids like pizza"));
    assert_eq!(structure_statement("my salary changed").sensitivity, Sensitivity::Financial);
    assert!(try_structure_statement("I have to call Mum").is_some());
}

#[test]
fn slugs_are_short_and_clean() {
    let slug = |s: &str| slug_lower(&s.chars().collect()).into_iter().collect::<String>();
    assert_eq!(slug("  hello,  world!! "), "hello_world");
    assert_eq!(slug("___"), "");
    assert_eq!(slug(&"ab ".repeat(40)), "ab_".repeat(16).trim_end_matches('_'));
}

fn item(kind: Kind, key: &str, rendered: &str, note: &str) -> MemoryItem {
    MemoryItem {
        domain: Domain::Work,
        kind,
        key: key.to_string(),
        text: Some(rendered.to_string()),
        rendered: format!("\"{rendered}\""),
        provenance: vec![Reason {
            kind: "user_statement".to_string(),
            agent: Some("mother".to_string()),
            note: Some("said <so>".to_string()),
        }],
        note: note.to_string(),
    }
}

#[test]
fn memory_chat_remember_forget_explain() {
    match try_handle("Remember I never take meetings before 10") {
        Some(Request::Remember { statement, note }) => {
            assert_eq!(statement.key, "preference.meetings.earliest_start");
            assert_eq!(note, "I never take meetings before 10");
        }
        other => panic!("{other:?}"),
    }
    assert!(try_handle("What's happening with work?").is_none());
    match try_handle("why do you think that") {
        Some(Request::Explain { topic }) => assert_eq!(topic, ""),
        other => panic!("{other:?}"),
    }
    let known = vec![item(Kind::Known, "preference.meetings.earliest_start", "10", "n")];
    assert!(matches!(explain(&known, ""), MemoryReply::Explained(ref v) if v.is_empty()));
    match try_handle("forget meetings") {
        Some(Request::Forget { phrase }) => assert_eq!(phrase, "meetings"),
        other => panic!("{other:?}"),
    }
}

#[test]
fn requests_to_memory() {
    assert!(matches!(try_handle("remember "), None), "nothing follows once the text is trimmed");
    assert!(matches!(try_handle("remember: ."), Some(Request::Remember { .. })));
    assert!(matches!(try_handle("forget ."), Some(Request::Ask("What should I forget?"))));
    match try_handle(" Remind me to Call the Bank. ") {
        Some(Request::Remember { statement, note }) => {
            assert_eq!((statement.category, statement.value.as_str()), ("task", "Call the Bank"));
            assert_eq!(note, "Call the Bank.");
        }
        other => panic!("{other:?}"),
    }
    match try_handle("please remember that I live in nairobi") {
        Some(Request::Remember { statement, .. }) => assert_eq!(statement.value, "Nairobi"),
        other => panic!("{other:?}"),
    }
    match try_handle("Forget about the Gym.") {
        Some(Request::Forget { phrase }) => assert_eq!(phrase, "the Gym"),
        other => panic!("{other:?}"),
    }
    match try_handle("Why do you assume that I like tea?") {
        Some(Request::Explain { topic }) => assert_eq!(topic, "i like tea"),
        other => panic!("{other:?}"),
    }
    assert!(matches!(try_handle("What do you know"), Some(Request::List)));
    assert!(matches!(try_handle("what do you remember of me"), Some(Request::List)));
    assert!(try_handle("what do you know, really").is_none());
    assert!(matches!(try_handle_any("forget it"), Some(Some(Request::Forget { .. }))));
    assert!(matches!(try_handle_any("hello"), Some(None)));
}

#[test]
fn replies_are_escaped() {
    let r = MemoryReply::Remembered { key: "a<b".to_string(), value: "x & y".to_string() };
    assert_eq!(r.html(), "Got it — I'll remember <b>x &amp; y</b> (a&lt;b). You can edit or forget it any time.");
    assert_eq!(MemoryReply::Forgot(0).html(), "I couldn't find anything matching that to forget.");
    assert_eq!(MemoryReply::Forgot(1).html(), "Forgotten — <b>1</b> item removed from what I know.");
    assert_eq!(MemoryReply::Forgot(12).html(), "Forgotten — <b>12</b> items removed from what I know.");
    assert_eq!(MemoryReply::Nothing("What should I forget?").html(), "What should I forget?");
    let assumed = vec![
        item(Kind::Assumed, "habit.tea", "likes tea", "You like tea (I think)"),
        item(Kind::Assumed, "habit.run", "runs", "You run (I think)"),
    ];
    let r = explain(&assumed, "tea");
    assert_eq!(r.html(), "Here is what I think and why: <b>habit.tea</b> = \"likes tea\" — because: user statement by mother — said &lt;so&gt;");
    assert_eq!(list(&assumed).html(), "What I hold about you: You like tea (I think) · You run (I think)");
    assert!(list(&vec![]).html().starts_with("I don't hold anything about you yet."));
    assert!(explain(&vec![], "").html().starts_with("I'm not assuming anything about that"));
}

#[test]
fn category_normalization() {
    assert_eq!(normalize_category(" Email ").as_deref(), Some("email"));
    assert_eq!(normalize_category("reading_list").as_deref(), Some("reading_list"));
    assert!(normalize_category("").is_none());
    assert!(normalize_category("Not Valid!").is_none());
    assert!(normalize_category(&"x".repeat(41)).is_none());
}

#[test]
fn every_category_is_normal() {
    assert_eq!(categories().len(), 9);
    for c in categories() {
        assert_eq!(normalize_category(c).as_deref(), Some(c));
    }
    assert_eq!(normalize_category(&"x".repeat(40)).map(|c| c.len()), Some(40));
    assert!(normalize_category("caf\u{e9}").is_none());
}

#[test]
fn shared_grant_covers_both_worlds_and_world_grant_only_its_own() {
    let mk = |world| Consent {
        id: 1,
        user_id: "u".to_string(),
        category: "calendar".to_string(),
        world,
        purpose: "p".to_string(),
        granted_at: Timestamp { secs: 1, nanos: 0 },
        revoked_at: None,
    };
    assert!(mk(Domain::Shared).covers(Domain::Work));
    assert!(mk(Domain::Shared).covers(Domain::Home));
    assert!(mk(Domain::Work).covers(Domain::Work));
    assert!(!mk(Domain::Work).covers(Domain::Home));
    assert!(mk(Domain::Work).covers(Domain::Shared), "a shared check accepts any active grant");
    let mut revoked = mk(Domain::Shared);
    revoked.revoked_at = Some(Timestamp { secs: 2, nanos: 0 });
    assert!(!revoked.covers(Domain::Work));
}

#[test]
fn grant_is_idempotent_and_revoke_scopes_by_world() {
    let mut store = ConsentStore::new();
    let a = store.grant("u", "email", Domain::Work, "drafts").unwrap();
    let b = store.grant("u", "email", Domain::Work, "again").unwrap();
    assert_eq!(a.consent.id, b.consent.id);
    assert!(a.inserted && !b.inserted);
    store.grant("u", "email", Domain::Home, "personal mail").unwrap();
    assert_eq!(store.active("u").len(), 2);
    assert_eq!(store.revoke("u", "email", Some(Domain::Work)).0.len(), 1);
    assert!(!store.has("u", "email", Domain::Work));
    assert!(store.has("u", "email", Domain::Home));
    assert_eq!(store.revoke("u", "email", None).0.len(), 1);
    assert_eq!(store.active("u").len(), 0);
    assert_eq!(store.list("u").len(), 2);
    assert_eq!(store.purge("u"), 2);
    assert_eq!(store.list("u").len(), 0);
}

#[test]
fn a_grant_stands_until_it_is_revoked_or_purged() {
    let mut store = ConsentStore::new();
    let at = |secs| Timestamp { secs, nanos: 0 };
    assert!(store.list("u").is_empty());
    let first = store.grant_with("u", "email", Domain::Work, "drafts", 1, at(1)).unwrap();
    assert_eq!(store.list("u").len(), 1);
    store.grant_with("u", "email", Domain::Home, "home", 2, at(2)).unwrap();
    store.grant_with("u", "health", Domain::Work, "x", 3, at(3)).unwrap();
    assert_eq!(store.revoke_at("u", "email", Some(Domain::Home), at(4)), vec![2]);
    assert_eq!(store.revoke_at("u", "health", None, at(5)), vec![3]);
    assert!(store.revoke_at("u", "not valid!", None, at(6)).is_empty());
    assert_eq!(store.purge("v"), 0);
    let again = store.grant_with("u", " EMAIL ", Domain::Work, "other", 9, at(7)).unwrap();
    assert_eq!((again.consent.id, again.inserted), (first.consent.id, false));
    assert_eq!(again.consent.purpose, "drafts");
    assert_eq!(store.list("u").len(), 3);
    store.revoke_at("u", "email", None, at(8));
    assert_eq!(store.grant_with("u", "email", Domain::Work, "", 10, at(9)).unwrap().consent.id, 10);
    store.purge("u");
    assert!(store.grant_with("u", "email", Domain::Work, "", 11, at(10)).unwrap().inserted);
}

#[test]
fn consents_are_kept_per_user_and_listed_newest_first() {
    let at = |secs| Timestamp { secs, nanos: 5 };
    let mut store = ConsentStore::new();
    assert!(store.grant("u", "not valid!", Domain::Work, "p").is_none());
    store.grant_with("u", "Email", Domain::Work, "  first  ", 1, at(10)).unwrap();
    store.grant_with("u", "health", Domain::Shared, &"x".repeat(300), 2, at(30)).unwrap();
    store.grant_with("u", "social", Domain::Home, "third", 3, at(20)).unwrap();
    store.grant_with("v", "email", Domain::Shared, "other", 4, at(40)).unwrap();
    let ids: Vec<u128> = store.list("u").iter().map(|c| c.id).collect();
    assert_eq!(ids, vec![2, 3, 1]);
    let l = store.list("u");
    assert_eq!((l[2].category.as_str(), l[2].purpose.as_str()), ("email", "first"));
    assert_eq!(l[0].purpose.len(), 240);
    assert_eq!(store.revoke_at("u", "email", Some(Domain::Home), at(50)), Vec::<u128>::new());
    assert_eq!(store.revoke_at("u", "email", None, at(50)), vec![1]);
    assert_eq!(store.list("u")[2].revoked_at, Some(at(50)));
    assert!(!store.has("u", "email", Domain::Shared));
    assert!(store.has("v", "email", Domain::Home));
    assert!(!store.has("w", "email", Domain::Home));
    assert!(!store.is_loaded("w"));
    store.load("w", store.list("v"));
    assert!(store.is_loaded("w"));
    assert!(store.has("w", "email", Domain::Work));
    assert_eq!(store.purge("w"), 1);
    assert_eq!(store.purge("w"), 0);
    let now = store.grant("v", "camera", Domain::Home, "see").unwrap().consent;
    assert!(now.granted_at.secs > 1_600_000_000 && now.granted_at.nanos < 1_000_000_000);
    assert_eq!((now.id >> 76) & 0xf, 4);
}
