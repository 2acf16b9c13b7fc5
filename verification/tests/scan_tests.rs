use chargather::alphabet::Alphabet;
use chargather::chunking::bytes_to_chars;
use chargather::chunking::chunk_bounds;
use chargather::chunking::num_chunks;
use chargather::histogram::Histogram;
use chargather::scanner::line_process;

fn chars_of(s: &str) -> Vec<char> {
    s.chars().collect()
}

#[test]
fn alphabet_keeps_order_and_drops_duplicates() {
    let a = Alphabet::new(vec!['b', 'a', 'b', 'c', 'a']);
    assert_eq!(a.len(), 3);
    assert_eq!(a.char_at(0), 'b');
    assert_eq!(a.char_at(1), 'a');
    assert_eq!(a.char_at(2), 'c');
}

#[test]
fn alphabet_membership_and_index() {
    let a = Alphabet::new(vec!['x', 'y']);
    assert!(a.accepts('x'));
    assert!(a.accepts('y'));
    assert!(!a.accepts('z'));
    assert_eq!(a.index_of('x'), Some(0));
    assert_eq!(a.index_of('y'), Some(1));
    assert_eq!(a.index_of('z'), None);
}

#[test]
fn scan_aba_counts_only_center_window() {
    let alpha = Alphabet::new(vec!['a', 'b']);
    let buf = chars_of("aba");
    let h = line_process(&buf, &alpha, 1, 1);
    assert_eq!(h.k, 2);
    assert_eq!(h.w, 3);
    // The full window fits only at position 1, whose base is 'b' (index 1);
    // both neighbors are 'a' (index 0), at slots 0 (offset -1) and 2 (+1).
    for b in 0..2 {
        for n in 0..2 {
            for j in 0..3 {
                let expected = if b == 1 && n == 0 && (j == 0 || j == 2) { 1 } else { 0 };
                assert_eq!(h.get(b, n, j), expected, "cell ({b},{n},{j})");
            }
        }
    }
}

#[test]
fn scan_skips_unaccepted_characters() {
    let alpha = Alphabet::new(vec!['a', 'b']);
    let buf = chars_of("acb");
    let h = line_process(&buf, &alpha, 1, 1);
    // Position 1 holds 'c', which the alphabet does not accept, and no
    // other position has a full window: nothing is counted.
    for b in 0..2 {
        for n in 0..2 {
            for j in 0..3 {
                assert_eq!(h.get(b, n, j), 0);
            }
        }
    }
}

#[test]
fn scan_zero_offset_slot_is_never_counted() {
    let alpha = Alphabet::new(vec!['a']);
    let buf = chars_of("aaa");
    let h = line_process(&buf, &alpha, 1, 1);
    // Slot 1 is offset zero: the base is never counted against itself.
    assert_eq!(h.get(0, 0, 1), 0);
    assert_eq!(h.get(0, 0, 0), 1);
    assert_eq!(h.get(0, 0, 2), 1);
}

#[test]
fn chunk_shorter_than_window_yields_all_zero() {
    let alpha = Alphabet::new(vec!['a', 'b']);
    // Window width 5 against a well-formed chunk of 4 characters: no
    // position passes the full-window test.
    let buf = chars_of("abab");
    let h = line_process(&buf, &alpha, 2, 2);
    for b in 0..2 {
        for n in 0..2 {
            for j in 0..5 {
                assert_eq!(h.get(b, n, j), 0);
            }
        }
    }
}

#[test]
fn empty_buffer_yields_all_zero() {
    let alpha = Alphabet::new(vec!['a']);
    let h = line_process(&Vec::new(), &alpha, 1, 1);
    for j in 0..3 {
        assert_eq!(h.get(0, 0, j), 0);
    }
}

#[test]
fn merge_is_order_independent() {
    let alpha = Alphabet::new(vec!['a', 'b']);
    let part1 = line_process(&chars_of("ababab"), &alpha, 1, 1);
    let part2 = line_process(&chars_of("bba"), &alpha, 1, 1);

    let mut first = line_process(&Vec::new(), &alpha, 1, 1);
    assert!(first.merge_from(&part1));
    assert!(first.merge_from(&part2));

    let mut second = line_process(&Vec::new(), &alpha, 1, 1);
    assert!(second.merge_from(&part2));
    assert!(second.merge_from(&part1));

    assert_eq!(first.to_vec(), second.to_vec());
}

#[test]
fn merge_adds_cell_by_cell() {
    let alpha = Alphabet::new(vec!['a', 'b']);
    let part = line_process(&chars_of("aba"), &alpha, 1, 1);
    let mut total = line_process(&chars_of("aba"), &alpha, 1, 1);
    assert!(total.merge_from(&part));
    assert_eq!(total.get(1, 0, 0), 2);
    assert_eq!(total.get(1, 0, 2), 2);
    assert_eq!(total.get(0, 0, 0), 0);
}

#[test]
fn merge_reports_overflow_and_leaves_state() {
    let big = Histogram::from_vec(1, 1, vec![u64::MAX]);
    let one = Histogram::from_vec(1, 1, vec![1]);
    let mut acc = Histogram::from_vec(1, 1, vec![u64::MAX]);
    assert!(!acc.merge_from(&one));
    assert_eq!(acc.to_vec(), big.to_vec());
}

#[test]
fn bytes_become_one_character_each() {
    let v = bytes_to_chars(&vec![b'a', 0xFF, b'b']);
    assert_eq!(v, vec!['a', '\u{FF}', 'b']);
}

#[test]
fn chunk_count_is_ceiling() {
    assert_eq!(num_chunks(0, 4096), 0);
    assert_eq!(num_chunks(1, 4096), 1);
    assert_eq!(num_chunks(4096, 4096), 1);
    assert_eq!(num_chunks(4097, 4096), 2);
    assert_eq!(num_chunks(8192, 4096), 2);
}

#[test]
fn chunk_bounds_tile_the_input() {
    let n = 10_000;
    let c = 4096;
    assert_eq!(num_chunks(n, c), 3);
    assert_eq!(chunk_bounds(0, n, c), (0, 4096));
    assert_eq!(chunk_bounds(1, n, c), (4096, 8192));
    assert_eq!(chunk_bounds(2, n, c), (8192, 10_000));
}
