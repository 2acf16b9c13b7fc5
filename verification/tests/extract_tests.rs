use chargather::extractor::chunk_process;
use chargather::extractor::csv_encode;
use chargather::extractor::validate_vec;

fn chars_of(s: &str) -> Vec<char> {
    s.chars().collect()
}

#[test]
fn extracts_fully_accepted_window() {
    // Mode B with target 'a', alphabet {a, b}, window width 3: in "aab"
    // only position 1 has a full window, it holds the target, and its
    // window "aab" lies entirely inside the alphabet, so it is retained.
    let windows = chunk_process(&chars_of("aab"), &vec!['a', 'b'], 1, 1, &'a');
    assert_eq!(windows, vec![vec!['a', 'a', 'b']]);
}

#[test]
fn drops_window_touching_unaccepted_character() {
    // The target at position 1 has the full window "bac", but 'c' is not
    // accepted, so the window is dropped.
    let windows = chunk_process(&chars_of("bac"), &vec!['a', 'b'], 1, 1, &'a');
    assert!(windows.is_empty());
}

#[test]
fn extracts_every_occurrence_in_order() {
    // The target at position 0 has no full window; positions 2 and 3 do.
    let windows = chunk_process(&chars_of("abaab"), &vec!['a', 'b'], 1, 1, &'a');
    assert_eq!(windows, vec![vec!['b', 'a', 'a'], vec!['a', 'a', 'b']]);
}

#[test]
fn short_chunk_extracts_nothing() {
    let windows = chunk_process(&chars_of("aa"), &vec!['a', 'b'], 1, 1, &'a');
    assert!(windows.is_empty());
}

#[test]
fn validate_vec_checks_every_character() {
    let acceptable = vec!['a', 'b'];
    assert!(validate_vec(&chars_of("abba"), &acceptable));
    assert!(!validate_vec(&chars_of("abca"), &acceptable));
    assert!(validate_vec(&Vec::new(), &acceptable));
}

#[test]
fn csv_rows_have_trailing_comma_and_newline() {
    let out = csv_encode(&vec![vec!['a', 'b'], vec!['c']]);
    let text: String = out.into_iter().collect();
    assert_eq!(text, "a,b,\nc,\n");
}

#[test]
fn csv_of_no_rows_is_empty() {
    let out = csv_encode(&Vec::new());
    assert!(out.is_empty());
}
