use quests::listing::{line_style, listing, Listed};
use quests::Style;

fn listed(line: &str, style: Style) -> Listed {
    Listed { line: line.to_string(), style }
}

#[test]
fn style_follows_finished_marker() {
    assert_eq!(line_style("- [x]done"), Style::Finished);
    assert_eq!(line_style("- [ ]open"), Style::Unfinished);
    assert_eq!(line_style("garbage"), Style::Unfinished);
}

#[test]
fn full_listing_shows_every_line_in_order() {
    let store = "- [ ]a\n- [x]b\n- [ ]c\n";
    assert_eq!(
        listing(store, true),
        vec![
            listed("- [ ]a", Style::Unfinished),
            listed("- [x]b", Style::Finished),
            listed("- [ ]c", Style::Unfinished),
        ]
    );
}

#[test]
fn default_listing_drops_finished_lines() {
    let store = "- [x]z\n- [ ]a\n- [x]b\n- [ ]c\n";
    assert_eq!(
        listing(store, false),
        vec![listed("- [ ]a", Style::Unfinished), listed("- [ ]c", Style::Unfinished)]
    );
}

#[test]
fn default_listing_is_full_listing_without_finished() {
    let store = "- [x]1\n- [ ]2\nodd line\n- [x]3\n- [ ]4\n";
    let full: Vec<Listed> = listing(store, true)
        .into_iter()
        .filter(|l| l.style != Style::Finished)
        .collect();
    assert_eq!(listing(store, false), full);
}

#[test]
fn listing_of_empty_store_is_empty() {
    assert!(listing("", true).is_empty());
    assert!(listing("", false).is_empty());
}
