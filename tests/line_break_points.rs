use line_breaks::line_break_points;

fn assert_well_formed(text: &str, offsets: &[u32]) {
    assert!(!offsets.is_empty());
    assert_eq!(*offsets.last().unwrap() as usize, text.len());
    for w in offsets.windows(2) {
        assert!(w[0] < w[1]);
    }
}

#[test]
fn empty_text_has_single_zero_offset() {
    assert_eq!(line_break_points(""), vec![0]);
}

#[test]
fn break_after_space_and_at_end() {
    assert_eq!(line_break_points("ab cd"), vec![3, 5]);
}

#[test]
fn hello_world_breaks_after_space() {
    assert_eq!(line_break_points("Hello World"), vec![6, 11]);
}

#[test]
fn mandatory_break_after_line_feed() {
    assert_eq!(line_break_points("a\nb"), vec![2, 3]);
}

#[test]
fn no_break_around_no_break_space() {
    let text = "a\u{00A0}b";
    assert_eq!(text.len(), 4);
    assert_eq!(line_break_points(text), vec![4]);
}

#[test]
fn single_word_breaks_only_at_end() {
    assert_eq!(line_break_points("word"), vec![4]);
}

#[test]
fn last_offset_is_length_and_offsets_increase() {
    for text in [
        "a",
        " ",
        "\n",
        "a\r\nb",
        "one two  three",
        "$10 $10",
        "caf\u{00E9} cr\u{00E8}me",
        "\u{4F60}\u{597D}\u{4E16}\u{754C}",
        "\u{1F600} \u{1F600}",
    ] {
        assert_well_formed(text, &line_break_points(text));
    }
}

#[test]
fn segmenting_twice_gives_same_offsets() {
    let text = "The quick brown fox\njumps over the lazy dog.";
    let first = line_break_points(text);
    let second = line_break_points(text);
    assert_eq!(first, second);
}

#[test]
fn interleaved_calls_do_not_interfere() {
    let a = "ab cd";
    let b = "a\nb";
    let a_alone = line_break_points(a);
    let b_alone = line_break_points(b);
    let a_again = line_break_points(a);
    let b_again = line_break_points(b);
    assert_eq!(a_alone, vec![3, 5]);
    assert_eq!(b_alone, vec![2, 3]);
    assert_eq!(a_again, a_alone);
    assert_eq!(b_again, b_alone);
}
