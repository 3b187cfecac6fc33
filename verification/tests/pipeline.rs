use rgrep::pattern::{filter_lines, line_matches};
use rgrep::pipeline::{
    collect_lines, count_message, open_failure_message, run_pipeline, FileRead, Options,
    OutputMode,
};
use rgrep::queue::{relay_through_queue, BoundedQueue};
use rgrep::strsort::{sort_lines, str_lex_le};

fn strings(xs: &[&str]) -> Vec<String> {
    xs.iter().map(|s| s.to_string()).collect()
}

fn one_read(name: &str, lines: &[&str]) -> FileRead {
    FileRead { name: name.to_string(), lines: Some(strings(lines)) }
}

#[test]
fn matches_exact_substring() {
    assert!(line_matches("asdf pmatchfoo", "pmatch"));
    assert!(line_matches("pmatch", "pmatch"));
    assert!(!line_matches("foo", "pmatch"));
    assert!(!line_matches("PMATCH", "pmatch"));
    assert!(line_matches("anything", ""));
    assert!(!line_matches("", "x"));
}

#[test]
fn filter_keeps_matching_lines_in_order() {
    let lines = strings(&["foo", "boo", "asdf pmatchfoo", "pmatch"]);
    let out = filter_lines(&lines, "pmatch");
    let mut num_found = 0;
    for read_line in out.iter() {
        assert!(read_line.contains("pmatch"));
        num_found = num_found + 1;
    }
    assert_eq!(num_found, 2);
    assert_eq!(out, strings(&["asdf pmatchfoo", "pmatch"]));
}

#[test]
fn round_trip_all_modes() {
    let files = strings(&["input"]);
    let lines = &["foo", "boo", "asdf pmatchfoo", "pmatch"];

    let count_opts = Options::new(files.clone(), "pmatch".to_string(), OutputMode::Count);
    let r = run_pipeline(&count_opts, &vec![one_read("input", lines)]);
    assert_eq!(r.count, Some(2));
    assert!(r.emitted.is_empty());
    assert!(r.failed.is_none());

    let print_opts = Options::new(files.clone(), "pmatch".to_string(), OutputMode::Print);
    let r = run_pipeline(&print_opts, &vec![one_read("input", lines)]);
    assert_eq!(r.emitted, strings(&["asdf pmatchfoo", "pmatch"]));
    assert!(r.count.is_none());

    let sort_opts = Options::new(files, "pmatch".to_string(), OutputMode::SortAndPrint);
    let r = run_pipeline(&sort_opts, &vec![one_read("input", lines)]);
    assert_eq!(r.emitted, strings(&["asdf pmatchfoo", "pmatch"]));
    assert!(r.count.is_none());
}

#[test]
fn empty_input_list_counts_zero() {
    let opts = Options::new(Vec::new(), "x".to_string(), OutputMode::Count);
    let r = run_pipeline(&opts, &Vec::new());
    assert_eq!(r.count, Some(0));
    assert!(r.emitted.is_empty());
    assert!(r.failed.is_none());

    let opts = Options::new(Vec::new(), "x".to_string(), OutputMode::Print);
    let r = run_pipeline(&opts, &Vec::new());
    assert!(r.emitted.is_empty());

    let opts = Options::new(Vec::new(), "x".to_string(), OutputMode::SortAndPrint);
    let r = run_pipeline(&opts, &Vec::new());
    assert!(r.emitted.is_empty());
}

#[test]
fn unreadable_input_aborts_source() {
    let opts = Options::new(
        strings(&["missing", "present"]),
        "line".to_string(),
        OutputMode::Print,
    );
    let reads = vec![
        FileRead { name: "missing".to_string(), lines: None },
        one_read("present", &["line one", "line two"]),
    ];
    let r = run_pipeline(&opts, &reads);
    // The source aborts on the first unreadable input: the readable input
    // configured after it contributes nothing.
    assert_eq!(r.failed, Some("missing".to_string()));
    assert!(r.emitted.is_empty());

    let outcome = collect_lines(&reads);
    assert!(outcome.lines.is_empty());
    assert_eq!(outcome.failed, Some("missing".to_string()));
}

#[test]
fn later_unreadable_input_keeps_earlier_lines() {
    let reads = vec![
        one_read("ok", &["alpha match", "beta"]),
        FileRead { name: "broken".to_string(), lines: None },
        one_read("never", &["gamma match"]),
    ];
    let outcome = collect_lines(&reads);
    assert_eq!(outcome.lines, strings(&["alpha match", "beta"]));
    assert_eq!(outcome.failed, Some("broken".to_string()));
}

#[test]
fn sorted_output_is_sorted_permutation() {
    let lines = strings(&["pear", "apple", "orange", "apple"]);
    let sorted = sort_lines(&lines);
    assert_eq!(sorted, strings(&["apple", "apple", "orange", "pear"]));
    // Sorting is idempotent.
    let twice = sort_lines(&sorted);
    assert_eq!(twice, sorted);
}

#[test]
fn lexicographic_string_order() {
    assert!(str_lex_le("a", "b"));
    assert!(str_lex_le("a", "a"));
    assert!(str_lex_le("a", "ab"));
    assert!(!str_lex_le("ab", "a"));
    assert!(str_lex_le("", "a"));
    assert!(!str_lex_le("b", "ab"));
}

#[test]
fn queue_is_fifo_and_bounded() {
    let mut q: BoundedQueue<String> = BoundedQueue::new(1);
    assert!(q.is_empty());
    assert!(!q.is_full());
    q.push("one".to_string());
    assert!(q.is_full());
    assert_eq!(q.len(), 1);
    assert_eq!(q.pop(), Some("one".to_string()));
    q.push("two".to_string());
    q.close();
    assert!(q.is_closed());
    assert_eq!(q.pop(), Some("two".to_string()));
    assert_eq!(q.pop(), None);
}

#[test]
fn capacity_one_queue_drops_and_duplicates_nothing() {
    // A slow consumer drains a capacity-1 queue while the producer pushes
    // many units: every unit comes out exactly once, in order.
    let k = 100;
    let mut items: Vec<String> = Vec::new();
    for i in 0..k {
        items.push(format!("unit {}", i));
    }
    let out = relay_through_queue(items.clone(), 1);
    assert_eq!(out.len(), k);
    assert_eq!(out, items);

    let wide = relay_through_queue(items.clone(), 16);
    assert_eq!(wide, items);
}

#[test]
fn diagnostic_and_count_lines() {
    assert_eq!(
        open_failure_message("data.txt"),
        "Failed to read file data.txt.".to_string()
    );
    assert_eq!(count_message(2, "pmatch"), "2 matches for pmatch".to_string());
    assert_eq!(count_message(0, "let mut"), "0 matches for let mut".to_string());
}
