use qtvstat::{Outcome, PerAddress, collect_outcomes};

fn names(v: &[&str]) -> Outcome {
    Ok(v.iter().map(|s| s.to_string()).collect())
}

#[test]
fn failing_address_does_not_touch_the_others() {
    let outcomes = vec![
        ("h3".to_string(), names(&["c.mvd"])),
        ("h2".to_string(), Err("unable to fetch".to_string())),
        ("h1".to_string(), names(&["a.mvd", "b.mvd"])),
    ];
    let record = collect_outcomes(outcomes);
    assert_eq!(record.len(), 3);
    assert_eq!(record.get("h1"), Some(&names(&["a.mvd", "b.mvd"])));
    assert_eq!(record.get("h2"), Some(&Err("unable to fetch".to_string())));
    assert_eq!(record.get("h3"), Some(&names(&["c.mvd"])));
    assert_eq!(record.get("h4"), None);
}

#[test]
fn completion_order_does_not_matter() {
    let a = ("h1".to_string(), names(&["a.mvd"]));
    let b = ("h2".to_string(), Err("timeout".to_string()));
    let c = ("h3".to_string(), names(&[]));
    let one = collect_outcomes(vec![a.clone(), b.clone(), c.clone()]);
    let two = collect_outcomes(vec![c, a, b]);
    for h in ["h1", "h2", "h3"] {
        assert_eq!(one.get(h), two.get(h));
    }
    assert_eq!(one.len(), two.len());
}

#[test]
fn later_outcome_for_an_address_wins() {
    let mut record = PerAddress::new();
    assert_eq!(record.len(), 0);
    record.insert("h".to_string(), Err("first".to_string()));
    record.insert("g".to_string(), names(&["g.mvd"]));
    record.insert("h".to_string(), names(&["x.mvd"]));
    assert_eq!(record.len(), 2);
    assert_eq!(record.get("h"), Some(&names(&["x.mvd"])));
    let mut entries = record.into_entries();
    entries.sort_by(|x, y| x.0.cmp(&y.0));
    assert_eq!(entries.len(), 2);
    assert_eq!(entries[0].0, "g");
    assert_eq!(entries[1].0, "h");
}

#[test]
fn no_addresses_give_an_empty_record() {
    let record = collect_outcomes(Vec::new());
    assert_eq!(record.len(), 0);
    assert_eq!(record.get(""), None);
}
