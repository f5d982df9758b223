use mail_filter::filter::{output_lines, select_body, RuleSet};
use mail_filter::matcher::{block_matches, build_block_rules, BlockRule, RuleError};
use mail_filter::normalize::normalize_lines;
use mail_filter::resolver::{resolve_sender, search_query, sender_header, SenderQuery, SenderRule};

fn strings(v: &[&str]) -> Vec<String> {
    v.iter().map(|s| s.to_string()).collect()
}

fn rules(v: &[&str]) -> Vec<BlockRule> {
    build_block_rules(&strings(v)).unwrap()
}

fn rule_set(blocks: &[&str], lines: &[&str], senders: &[(&str, &[&str])]) -> RuleSet {
    let senders: Vec<(String, Vec<String>)> =
        senders.iter().map(|(f, b)| (f.to_string(), strings(b))).collect();
    RuleSet::new(&Vec::new(), &strings(blocks), &strings(lines), &senders).unwrap()
}

#[test]
fn trimmed_exact_match_ignores_surrounding_whitespace() {
    let r = rules(&["Sent from my iPhone"]);
    assert!(block_matches("  Sent from my iPhone  ", &r));
    assert!(block_matches("\n\tSent from my iPhone\n", &r));
    let padded = rules(&["  Sent from my iPhone \n"]);
    assert!(block_matches("Sent from my iPhone", &padded));
    assert!(!block_matches("Sent from my iPad", &r));
}

#[test]
fn url_placeholder_matches_any_url() {
    let r = rules(&["Unsubscribe at <url>"]);
    assert!(block_matches("Unsubscribe at https://example.com/u/123", &r));
    assert!(block_matches("Unsubscribe at http://example.com", &r));
    assert!(!block_matches("Unsubscribe at the front desk", &r));
}

#[test]
fn rule_pattern_is_anchored_at_block_end() {
    let r = rules(&["Thanks,"]);
    assert!(!block_matches("Thanks, and see you soon", &r));
    assert!(block_matches("Regards\nThanks,", &r));
    assert!(block_matches("  Thanks,  ", &r));
    let dollar = rules(&["Thanks,$"]);
    assert!(!block_matches("Thanks, Bob", &dollar));
    assert!(block_matches("Thanks,", &dollar));
}

#[test]
fn no_rules_match_nothing() {
    let r = rules(&[]);
    assert!(!block_matches("anything", &r));
}

#[test]
fn invalid_pattern_is_rejected_at_load() {
    match BlockRule::new("Footer (") {
        Err(RuleError::InvalidPattern(t)) => assert_eq!(t, "Footer ("),
        Ok(_) => panic!("an unbalanced group must not compile"),
    }
    let ok = BlockRule::new("Footer").unwrap();
    assert_eq!(ok.text(), "Footer");
    let senders: Vec<(String, Vec<String>)> = vec![("a".to_string(), strings(&["x[", "y"]))];
    match RuleSet::new(&Vec::new(), &strings(&["fine"]), &Vec::new(), &senders) {
        Err(RuleError::InvalidPattern(t)) => assert_eq!(t, "x["),
        Ok(_) => panic!("a sender rule with a bad pattern must be refused"),
    }
    assert!(build_block_rules(&strings(&["ok", "(bad"])).is_err());
}

#[test]
fn sender_resolver_last_match_wins() {
    let rs = vec![
        SenderRule { from: "example.com".to_string(), blocks: rules(&["A"]) },
        SenderRule { from: "alice@example.com".to_string(), blocks: rules(&["B"]) },
    ];
    let i = resolve_sender("Alice <alice@example.com>", &rs).unwrap();
    assert_eq!(i, 1);
    assert_eq!(rs[i].blocks[0].text(), "B");
    assert_eq!(resolve_sender("Bob <bob@example.com>", &rs), Some(0));
    assert_eq!(resolve_sender("Carol <carol@example.org>", &rs), None);
}

#[test]
fn later_broad_rule_overrides_earlier_specific_one() {
    let rs = vec![
        SenderRule { from: "alice@example.com".to_string(), blocks: rules(&["B"]) },
        SenderRule { from: "example.com".to_string(), blocks: rules(&["A"]) },
    ];
    assert_eq!(resolve_sender("Alice <alice@example.com>", &rs), Some(1));
}

#[test]
fn empty_sender_substring_matches_every_header() {
    let rs = vec![SenderRule { from: String::new(), blocks: rules(&[]) }];
    assert_eq!(resolve_sender("x <y@z>", &rs), Some(0));
    assert_eq!(resolve_sender("", &rs), Some(0));
}

#[test]
fn end_to_end_drops_global_block() {
    let set = rule_set(&["Sent from my iPhone"], &[], &[]);
    let out = set.filter_message("A <a@b.c>", "Hello\n\nSent from my iPhone\n\nBye");
    assert_eq!(out, "Hello\n\nBye\n\n");
}

#[test]
fn sender_blocks_apply_only_to_matching_sender() {
    let set = rule_set(&[], &[], &[("news@shop.com", &["Visit our shop"])]);
    let body = "Deals\n\nVisit our shop";
    assert_eq!(set.filter_message("Shop <news@shop.com>", body), "Deals\n\n");
    assert_eq!(set.filter_message("Friend <f@x.org>", body), "Deals\n\nVisit our shop\n\n");
}

#[test]
fn global_line_rule_is_exact() {
    let set = rule_set(&[], &["--"], &[]);
    let out = set.filter_message("a <a@b>", "Hi\n--\n-- \nBye");
    assert_eq!(out, "Hi\n-- \nBye\n\n");
}

#[test]
fn no_match_passes_through_after_cr_stripping() {
    let set = rule_set(&["Never here"], &["nope"], &[]);
    let out = set.filter_message("a <a@b>", "a\r\nb\r\n\r\n\r\nc");
    assert_eq!(out, "a\nb\n\n\nc\n\n");
    assert_eq!(output_lines(&out), strings(&["a", "b", "", "c", ""]));
}

#[test]
fn empty_body_gives_one_delimiter() {
    let set = rule_set(&[], &[], &[]);
    assert_eq!(set.filter_message("a <a@b>", ""), "\n\n");
    assert_eq!(output_lines(""), Vec::<String>::new());
}

#[test]
fn carriage_returns_are_stripped_before_segmentation() {
    let set = rule_set(&["Bye"], &[], &[]);
    assert_eq!(set.filter_message("a <a@b>", "Hello\r\n\r\nBye"), "Hello\n\n");
}

#[test]
fn sender_only_mode_ignores_global_rules() {
    let set = rule_set(&["Hello"], &["Bye"], &[("a@b", &["Footer"])]);
    let body = "Hello\n\nFooter\n\nBye";
    assert_eq!(set.filter_for_sender("x <a@b>", body), "Hello\n\nBye\n\n");
    assert_eq!(set.filter_message("x <a@b>", body), "\n");
}

#[test]
fn filtering_again_keeps_surviving_blocks() {
    let set = rule_set(&["Sent from my iPhone"], &[], &[]);
    let once = set.filter_message("a <a@b>", "Hello\n\nSent from my iPhone\n\nBye");
    let twice = set.filter_message("a <a@b>", &once);
    assert_eq!(output_lines(&twice), output_lines(&once));
    assert_eq!(set.filter_message("a <a@b>", "Bye"), "Bye\n\n");
}

#[test]
fn normalization_collapses_blank_runs_and_is_idempotent() {
    let input = strings(&["", "", "a", "", "", "", "b", "", ""]);
    let once = normalize_lines(&input);
    assert_eq!(once, strings(&["", "a", "", "b", ""]));
    assert_eq!(normalize_lines(&once), once);
    assert_eq!(normalize_lines(&Vec::new()), Vec::<String>::new());
}

#[test]
fn output_lines_split_on_newlines() {
    assert_eq!(output_lines("Hello\n\nBye\n\n"), strings(&["Hello", "", "Bye", ""]));
    assert_eq!(output_lines("x\n\n\n\ny"), strings(&["x", "", "y"]));
}

#[test]
fn search_query_joins_with_or() {
    assert_eq!(search_query(&Vec::new()), "");
    let one = vec![SenderQuery { from: "a@x.com".to_string() }];
    assert_eq!(search_query(&one), "FROM a@x.com UNSEEN");
    let two = vec![
        SenderQuery { from: "a@x.com".to_string() },
        SenderQuery { from: "b@y.com".to_string() },
    ];
    assert_eq!(search_query(&two), "FROM a@x.com UNSEEN OR FROM b@y.com UNSEEN");
}

#[test]
fn sender_header_formats_name_and_address() {
    assert_eq!(sender_header("Alice", "alice@example.com"), "Alice <alice@example.com>");
    assert_eq!(sender_header("", "bob@example.com"), " <bob@example.com>");
}

#[test]
fn last_text_body_is_selected() {
    assert_eq!(select_body(&Vec::new()), "");
    assert_eq!(select_body(&strings(&["first", "second"])), "second");
}

#[test]
fn rule_set_keeps_configuration() {
    let senders: Vec<(String, Vec<String>)> = vec![("s@x".to_string(), strings(&["F"]))];
    let set = RuleSet::new(&strings(&["q@x"]), &strings(&["G"]), &strings(&["L"]), &senders)
        .unwrap();
    assert_eq!(search_query(&set.searches), "FROM q@x UNSEEN");
    assert_eq!(set.global_blocks[0].text(), "G");
    assert_eq!(set.global_lines, strings(&["L"]));
    assert_eq!(set.sender_rules[0].from, "s@x");
    assert_eq!(set.sender_rules[0].blocks[0].text(), "F");
}
