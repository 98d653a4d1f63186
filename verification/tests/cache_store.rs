use wsf::cache::Cache;
use wsf::model::{SailingTime, Terminal, TerminalCombo};

fn terminal(id: i32, name: &str) -> Terminal {
    Terminal { TerminalID: id, Description: name.to_string() }
}

fn combo(from: &str, to: &str, vessel: &str) -> TerminalCombo {
    TerminalCombo {
        Times: vec![SailingTime {
            DepartingTime: "/Date(1436318400000-0700)/".to_string(),
            ArrivingTime: None,
            VesselName: vessel.to_string(),
        }],
        DepartingTerminalName: from.to_string(),
        ArrivingTerminalName: to.to_string(),
    }
}

fn sorted(cache: &Cache) -> Vec<(String, TerminalCombo)> {
    let mut entries: Vec<(String, TerminalCombo)> =
        cache.entries().iter().map(|(k, c)| (k.clone(), c.clone())).collect();
    entries.sort_by(|a, b| a.0.cmp(&b.0));
    entries
}

#[test]
fn the_empty_cache_holds_nothing() {
    let cache = Cache::empty();
    assert!(cache.terminals().is_empty());
    assert!(cache.entries().is_empty());
    assert_eq!(cache.sailing_count(), 0);
    assert_eq!(cache.flush_date(), "");
    assert!(!cache.contains_sailing("7 3"));
    assert!(cache.sailing("7 3").is_none());
}

#[test]
fn keys_are_two_decimals_and_a_blank() {
    assert_eq!(Cache::key(7, 3), "7 3");
    assert_eq!(Cache::key(3, 7), "3 7");
    assert_eq!(Cache::key(0, 0), "0 0");
    assert_eq!(Cache::key(-1, 20), "-1 20");
    assert_eq!(Cache::key(12, 3), "12 3");
    assert_eq!(Cache::key(1, 23), "1 23");
    assert_eq!(
        Cache::key(i32::MIN, i32::MAX),
        format!("{} {}", i32::MIN, i32::MAX)
    );
}

#[test]
fn keys_of_different_pairs_differ() {
    let ids = [-11, -1, 0, 1, 2, 3, 7, 11, 12, 21, 111];
    for a in ids {
        for b in ids {
            for c in ids {
                for d in ids {
                    assert_eq!(Cache::key(a, b) == Cache::key(c, d), a == c && b == d);
                }
            }
        }
    }
}

#[test]
fn an_inserted_schedule_is_found_under_its_key() {
    let mut cache = Cache::empty();
    cache.insert_sailing("7 3".to_string(), combo("Seattle", "Bainbridge Island", "Tacoma"));
    assert!(cache.contains_sailing("7 3"));
    assert!(!cache.contains_sailing("3 7"));
    assert_eq!(cache.sailing("7 3"), Some(&combo("Seattle", "Bainbridge Island", "Tacoma")));
    assert_eq!(cache.sailing("3 7"), None);
    assert_eq!(cache.sailing_count(), 1);
}

#[test]
fn inserting_under_a_used_key_replaces() {
    let mut cache = Cache::empty();
    cache.insert_sailing("7 3".to_string(), combo("Seattle", "Bainbridge Island", "Tacoma"));
    cache.insert_sailing("3 7".to_string(), combo("Bainbridge Island", "Seattle", "Tacoma"));
    cache.insert_sailing("7 3".to_string(), combo("Seattle", "Bainbridge Island", "Wenatchee"));
    assert_eq!(cache.sailing_count(), 2);
    assert_eq!(cache.sailing("7 3").unwrap().Times[0].VesselName, "Wenatchee");
    assert_eq!(cache.sailing("3 7").unwrap().Times[0].VesselName, "Tacoma");
}

#[test]
fn clearing_forgets_the_schedules_only() {
    let mut cache = Cache::from_parts(
        vec![terminal(7, "Seattle")],
        vec![("7 3".to_string(), combo("Seattle", "Bainbridge Island", "Tacoma"))],
        "X".to_string(),
    );
    cache.clear_sailings();
    assert_eq!(cache.sailing_count(), 0);
    assert!(!cache.contains_sailing("7 3"));
    assert_eq!(cache.terminals(), &vec![terminal(7, "Seattle")]);
    assert_eq!(cache.flush_date(), "X");
}

#[test]
fn setters_change_one_part() {
    let mut cache = Cache::from_parts(
        vec![terminal(7, "Seattle")],
        vec![("7 3".to_string(), combo("Seattle", "Bainbridge Island", "Tacoma"))],
        "X".to_string(),
    );
    cache.set_terminals(vec![terminal(3, "Bainbridge Island"), terminal(1, "Anacortes")]);
    assert_eq!(
        cache.terminals(),
        &vec![terminal(3, "Bainbridge Island"), terminal(1, "Anacortes")]
    );
    assert_eq!(cache.flush_date(), "X");
    assert_eq!(cache.sailing_count(), 1);
    cache.set_flush_date("Y".to_string());
    assert_eq!(cache.flush_date(), "Y");
    assert!(cache.has_flush_date(&"Y".to_string()));
    assert!(!cache.has_flush_date(&"X".to_string()));
    assert_eq!(cache.terminals().len(), 2);
    assert!(cache.contains_sailing("7 3"));
}

#[test]
fn of_two_parts_with_one_key_the_later_is_kept() {
    let cache = Cache::from_parts(
        Vec::new(),
        vec![
            ("7 3".to_string(), combo("Seattle", "Bainbridge Island", "Tacoma")),
            ("other".to_string(), combo("A", "B", "C")),
            ("7 3".to_string(), combo("Seattle", "Bainbridge Island", "Wenatchee")),
        ],
        String::new(),
    );
    assert_eq!(cache.sailing_count(), 2);
    assert_eq!(cache.entries().len(), 2);
    assert_eq!(cache.sailing("7 3").unwrap().Times[0].VesselName, "Wenatchee");
    assert_eq!(cache.sailing("other").unwrap().Times[0].VesselName, "C");
}

#[test]
fn a_cache_is_rebuilt_from_its_parts() {
    let cache = Cache::from_parts(
        vec![terminal(7, "Seattle"), terminal(3, "Bainbridge Island")],
        vec![
            ("7 3".to_string(), combo("Seattle", "Bainbridge Island", "Tacoma")),
            ("3 7".to_string(), combo("Bainbridge Island", "Seattle", "Wenatchee")),
        ],
        "/Date(1436318400000-0700)/".to_string(),
    );
    let mut parts: Vec<(String, TerminalCombo)> =
        cache.entries().iter().map(|(k, c)| (k.clone(), c.clone())).collect();
    parts.reverse();
    let rebuilt = Cache::from_parts(
        cache.terminals().iter().map(|t| t.clone()).collect(),
        parts,
        cache.flush_date().to_string(),
    );
    assert_eq!(rebuilt.terminals(), cache.terminals());
    assert_eq!(rebuilt.flush_date(), cache.flush_date());
    assert_eq!(sorted(&rebuilt), sorted(&cache));
}

#[test]
fn a_clone_holds_what_the_cache_holds() {
    let cache = Cache::from_parts(
        vec![terminal(7, "Seattle")],
        vec![
            ("7 3".to_string(), combo("Seattle", "Bainbridge Island", "Tacoma")),
            ("3 7".to_string(), combo("Bainbridge Island", "Seattle", "Wenatchee")),
        ],
        "X".to_string(),
    );
    let copy = cache.clone();
    assert_eq!(copy.terminals(), cache.terminals());
    assert_eq!(copy.flush_date(), "X");
    assert_eq!(sorted(&copy), sorted(&cache));
}

#[test]
fn any_text_may_be_a_key() {
    let mut cache = Cache::empty();
    cache.insert_sailing(String::new(), combo("A", "B", "C"));
    cache.insert_sailing("Seattle→Vashon".to_string(), combo("D", "E", "F"));
    assert!(cache.contains_sailing(""));
    assert!(cache.contains_sailing("Seattle→Vashon"));
    assert!(!cache.contains_sailing("Seattle"));
    assert_eq!(cache.sailing_count(), 2);
}
