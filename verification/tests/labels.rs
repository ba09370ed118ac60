use label_conductor::category::Category;
use label_conductor::config::Config;
use label_conductor::label::{derive_name, LabelIdentity};

fn names(labels: &[LabelIdentity]) -> Vec<String> {
    labels.iter().map(|label| label.name().to_string()).collect()
}

#[test]
fn name_is_prefix_hyphen_suffix() {
    assert_eq!(derive_name("bug", "critical"), "bug-critical");
}

#[test]
fn name_keeps_hyphens_of_its_parts() {
    assert_eq!(derive_name("needs-triage", "high-priority"), "needs-triage-high-priority");
}

#[test]
fn name_of_empty_parts_is_the_hyphen() {
    assert_eq!(derive_name("", ""), "-");
    assert_eq!(derive_name("area", ""), "area-");
    assert_eq!(derive_name("", "backend"), "-backend");
}

#[test]
fn resolved_label_holds_name_color_and_description() {
    let label = LabelIdentity::derive("area", "ffcc00", "backend", "Backend work");
    assert_eq!(label.name(), "area-backend");
    assert_eq!(label.color(), "ffcc00");
    assert_eq!(label.description(), "Backend work");
}

#[test]
fn copy_of_a_label_equals_it() {
    let label = LabelIdentity::derive("kind", "0e8a16", "bug", "Something is broken");
    let copy = label.clone();
    assert_eq!(copy, label);
    assert_eq!(copy.name(), "kind-bug");
}

#[test]
fn new_category_has_no_entries() {
    let category = Category::new("area", "ffcc00");
    assert_eq!(category.prefix(), "area");
    assert_eq!(category.color(), "ffcc00");
    assert_eq!(category.len(), 0);
    assert!(category.labels().is_empty());
}

#[test]
fn entries_resolve_in_the_order_they_were_given() {
    let category = Category::new("area", "ffcc00")
        .with_label("backend", "Backend work")
        .with_label("frontend", "Frontend work")
        .with_label("docs", "Documentation");
    assert_eq!(category.len(), 3);
    let labels = category.labels();
    assert_eq!(names(&labels), vec!["area-backend", "area-frontend", "area-docs"]);
    assert_eq!(labels[1].description(), "Frontend work");
    assert!(labels.iter().all(|label| label.color() == "ffcc00"));
}

#[test]
fn repeated_suffix_keeps_its_place_and_takes_the_new_description() {
    let category = Category::new("area", "ffcc00")
        .with_label("backend", "Backend work")
        .with_label("frontend", "Frontend work")
        .with_label("backend", "Servers and storage");
    assert_eq!(category.len(), 2);
    let labels = category.labels();
    assert_eq!(names(&labels), vec!["area-backend", "area-frontend"]);
    assert_eq!(labels[0].description(), "Servers and storage");
    assert_eq!(labels[1].description(), "Frontend work");
}

#[test]
fn plan_runs_through_the_categories_in_order() {
    let config = Config {
        categories: vec![
            Category::new("A", "111111").with_label("x", "first").with_label("y", "second"),
            Category::new("B", "222222").with_label("x", "third").with_label("y", "fourth"),
        ],
    };
    let plan = config.plan();
    assert_eq!(names(&plan), vec!["A-x", "A-y", "B-x", "B-y"]);
    let colors: Vec<&str> = plan.iter().map(|label| label.color()).collect();
    assert_eq!(colors, vec!["111111", "111111", "222222", "222222"]);
    let descriptions: Vec<&str> = plan.iter().map(|label| label.description()).collect();
    assert_eq!(descriptions, vec!["first", "second", "third", "fourth"]);
}

#[test]
fn plan_skips_categories_without_entries() {
    let config = Config {
        categories: vec![
            Category::new("empty", "000000"),
            Category::new("kind", "0e8a16").with_label("bug", "Something is broken"),
            Category::new("also-empty", "ffffff"),
        ],
    };
    assert_eq!(names(&config.plan()), vec!["kind-bug"]);
}

#[test]
fn plan_of_no_categories_is_empty() {
    let config = Config { categories: Vec::new() };
    assert!(config.plan().is_empty());
}
