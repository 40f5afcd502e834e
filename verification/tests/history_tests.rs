use tiny_console::command_history::{compute_match_score, CommandHistory};

fn strings(items: &[&str]) -> Vec<String> {
    items.iter().map(|s| s.to_string()).collect()
}

fn history_of(items: &[&str]) -> CommandHistory {
    let mut h = CommandHistory::new();
    for item in items {
        h.push_entry(item.to_string());
    }
    h
}

#[test]
fn push_moves_duplicate_to_end() {
    let h = history_of(&["a", "b", "a"]);
    assert_eq!(h.entries(), &strings(&["b", "a"]));
    assert_eq!(h.size(), 2);
}

#[test]
fn cursor_walks_back_and_wraps_to_empty_line() {
    let h = history_of(&["a", "b", "a"]);
    let mut cursor = h.create_iterator();
    assert_eq!(cursor.current(), "");
    assert_eq!(cursor.prev(), "a");
    assert_eq!(cursor.prev(), "b");
    assert_eq!(cursor.prev(), "");
    assert_eq!(cursor.prev(), "a");
}

#[test]
fn cursor_walks_on_and_wraps_to_empty_line() {
    let h = history_of(&["x", "y"]);
    let mut cursor = h.create_iterator();
    assert_eq!(cursor.next(), "x");
    assert_eq!(cursor.current(), "x");
    assert_eq!(cursor.next(), "y");
    assert_eq!(cursor.next(), "");
    assert_eq!(cursor.next(), "x");
    assert_eq!(cursor.prev(), "");
    assert_eq!(cursor.prev(), "y");
    cursor.reset();
    assert_eq!(cursor.current(), "");
}

#[test]
fn cursor_over_empty_history_stays_put() {
    let h = CommandHistory::new();
    let mut cursor = h.create_iterator();
    assert_eq!(cursor.prev(), "");
    assert_eq!(cursor.next(), "");
    assert_eq!(cursor.current(), "");
}

#[test]
fn cursor_keeps_its_snapshot_until_reassigned() {
    let mut h = history_of(&["one"]);
    let mut cursor = h.create_iterator();
    h.push_entry("two".to_string());
    assert_eq!(cursor.prev(), "one");
    assert_eq!(cursor.prev(), "");
    h.reassign_iterator(&mut cursor);
    assert_eq!(cursor.prev(), "two");
    assert_eq!(cursor.prev(), "one");
}

#[test]
fn get_entry_clamps_to_latest() {
    let h = history_of(&["a", "b", "c"]);
    assert_eq!(h.get_entry(0), "a");
    assert_eq!(h.get_entry(2), "c");
    assert_eq!(h.get_entry(99), "c");
}

#[test]
fn trim_drops_oldest() {
    let mut h = history_of(&["a", "b", "c", "d"]);
    h.trim(2);
    assert_eq!(h.entries(), &strings(&["c", "d"]));
    h.trim(5);
    assert_eq!(h.entries(), &strings(&["c", "d"]));
    h.trim(0);
    assert_eq!(h.size(), 0);
}

#[test]
fn load_trims_lines_skips_blank_ones_and_dedups() {
    let mut h = CommandHistory::new();
    h.load(&strings(&["  help ", "", "quit", "   ", "help", "echo hi\r"]));
    assert_eq!(h.entries(), &strings(&["quit", "help", "echo hi"]));
    assert_eq!(h.save(1000), None);
}

#[test]
fn loading_the_same_lines_again_changes_nothing() {
    let lines = strings(&["a", "b", "c"]);
    let mut h = CommandHistory::new();
    h.load(&lines);
    let once = h.entries().clone();
    h.load(&lines);
    assert_eq!(h.entries(), &once);
}

#[test]
fn save_hands_out_lines_only_when_changed() {
    let mut h = CommandHistory::new();
    assert_eq!(h.save(1000), None);
    h.push_entry("a".to_string());
    h.push_entry("b".to_string());
    assert_eq!(h.save(1000), Some(strings(&["a", "b"])));
    assert_eq!(h.save(1000), None);
    h.save_failed();
    assert_eq!(h.save(1000), Some(strings(&["a", "b"])));
}

#[test]
fn clear_empties_and_marks_changed() {
    let mut h = history_of(&["a"]);
    let _ = h.save(1000);
    h.clear();
    assert_eq!(h.size(), 0);
    assert_eq!(h.save(1000), Some(Vec::new()));
}

#[test]
fn match_score_exact_values() {
    assert_eq!(compute_match_score("ab", "ab"), 99999);
    assert_eq!(compute_match_score("", ""), 99999);
    assert_eq!(compute_match_score("gc", "git commit"), 30);
    assert_eq!(compute_match_score("gt", "git commit"), 25);
    assert_eq!(compute_match_score("it", "git commit"), 20);
    assert_eq!(compute_match_score("x", "abc"), 0);
    assert_eq!(compute_match_score("ba", "ab"), 0);
    assert_eq!(compute_match_score("", "abc"), 0);
}

#[test]
fn search_ranks_best_first_and_drops_misses() {
    let h = history_of(&["ls", "git status", "git commit"]);
    assert_eq!(h.fuzzy_match("gc"), strings(&["git commit"]));
    assert_eq!(h.fuzzy_match("s"), strings(&["git status", "ls"]));
    assert_eq!(h.fuzzy_match("ls"), strings(&["ls"]));
}

#[test]
fn search_keeps_history_order_among_equal_scores() {
    let h = history_of(&["ab", "ac", "ad"]);
    assert_eq!(h.fuzzy_match("a"), strings(&["ab", "ac", "ad"]));
}

#[test]
fn search_ignores_case() {
    let h = history_of(&["Git Status", "other"]);
    assert_eq!(h.fuzzy_match("GIT"), strings(&["Git Status"]));
    assert_eq!(h.fuzzy_match("git status"), strings(&["Git Status"]));
}

#[test]
fn empty_query_lists_latest_first() {
    let h = history_of(&["a", "b", "c"]);
    assert_eq!(h.fuzzy_match(""), strings(&["c", "b", "a"]));
}

#[test]
fn save_hands_out_no_more_than_the_latest_lines_allowed() {
    let mut h = history_of(&["a", "b", "c", "d"]);
    assert_eq!(h.save(2), Some(strings(&["c", "d"])));
    assert_eq!(h.entries(), &strings(&["a", "b", "c", "d"]));
    assert_eq!(h.save(2), None);
    h.save_failed();
    assert_eq!(h.save(4), Some(strings(&["a", "b", "c", "d"])));
    h.save_failed();
    assert_eq!(h.save(0), Some(Vec::new()));
    h.save_failed();
    assert_eq!(h.save(usize::MAX), Some(strings(&["a", "b", "c", "d"])));
}
