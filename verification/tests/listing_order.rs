use rustretro::listing_order::{arena_order, model_order};

fn names(v: &[&str]) -> Vec<String> {
    v.iter().map(|s| s.to_string()).collect()
}

fn listed(v: &[&str], order: Vec<usize>) -> Vec<String> {
    order.into_iter().map(|i| v[i].to_string()).collect()
}

#[test]
fn arenas_list_current_first_then_alphabetical() {
    let v = ["zeta", "current", "alpha", "Beta", "alpha2"];
    let order = arena_order(&names(&v));
    assert_eq!(listed(&v, order), vec!["current", "Beta", "alpha", "alpha2", "zeta"]);
}

#[test]
fn arenas_without_current_are_alphabetical() {
    let v = ["b", "a", "c"];
    assert_eq!(listed(&v, arena_order(&names(&v))), vec!["a", "b", "c"]);
}

#[test]
fn models_list_alphabetically_with_no_special_name() {
    let v = ["zeta", "current", "alpha", "cur"];
    let order = model_order(&names(&v));
    assert_eq!(listed(&v, order), vec!["alpha", "cur", "current", "zeta"]);
}

#[test]
fn listing_order_matches_byte_order_of_utf8_names() {
    let v = ["\u{e9}t\u{e9}", "ete", "\u{1f600}", "Z"];
    let mut expected: Vec<String> = names(&v);
    expected.sort();
    assert_eq!(listed(&v, model_order(&names(&v))), expected);
}

#[test]
fn an_empty_listing_stays_empty() {
    assert!(arena_order(&Vec::new()).is_empty());
    assert!(model_order(&Vec::new()).is_empty());
}
