use strdust::tag::{parse_alignment_tag, InsertionWindow, MalformedAlignmentTag};

fn window() -> InsertionWindow {
    InsertionWindow { low: 9990, high: 10010 }
}

#[test]
fn matches_only_give_no_candidate() {
    let r = parse_alignment_tag(b":120:30:7", 9900, window(), 5);
    assert_eq!(r, Ok(None));
}

#[test]
fn insertion_at_junction_is_the_candidate() {
    let r = parse_alignment_tag(b"+ACGTACGTACGT", 10000, window(), 5);
    assert_eq!(r, Ok(Some(b"ACGTACGTACGT".to_vec())));
}

#[test]
fn insertion_reached_through_matches() {
    // 9950 + 40 matches + 1 mismatch + 4 deleted bases = 9995, inside the window
    let r = parse_alignment_tag(b":40*ag-tttt+cagcagcag:100", 9950, window(), 5);
    assert_eq!(r, Ok(Some(b"cagcagcag".to_vec())));
}

#[test]
fn insertion_outside_window_is_dropped() {
    let r = parse_alignment_tag(b"+ACGTACGTACGT", 10011, window(), 5);
    assert_eq!(r, Ok(None));
    let r = parse_alignment_tag(b":500+ACGTACGTACGT", 9000, window(), 5);
    assert_eq!(r, Ok(None));
}

#[test]
fn short_insertion_is_dropped() {
    // length must exceed minlen
    let r = parse_alignment_tag(b"+ACGTA", 10000, window(), 5);
    assert_eq!(r, Ok(None));
    let r = parse_alignment_tag(b"+ACGTAC", 10000, window(), 5);
    assert_eq!(r, Ok(Some(b"ACGTAC".to_vec())));
}

#[test]
fn insertions_of_one_read_are_joined() {
    let r = parse_alignment_tag(b":2+AAAAAA:3+CCCCCCC:5000+GGGGGGGG", 9995, window(), 5);
    assert_eq!(r, Ok(Some(b"AAAAAACCCCCCC".to_vec())));
}

#[test]
fn huge_match_length_moves_past_window() {
    let r = parse_alignment_tag(b":99999999999999999999999999+ACGTACGT", 0, window(), 5);
    assert_eq!(r, Ok(None));
}

#[test]
fn unknown_symbol_is_malformed() {
    assert_eq!(parse_alignment_tag(b":10~ac100ag", 0, window(), 5), Err(MalformedAlignmentTag));
    assert_eq!(parse_alignment_tag(b"=ACGT", 0, window(), 5), Err(MalformedAlignmentTag));
}

#[test]
fn operation_without_body_is_malformed() {
    assert_eq!(parse_alignment_tag(b":", 0, window(), 5), Err(MalformedAlignmentTag));
    assert_eq!(parse_alignment_tag(b":5+", 0, window(), 5), Err(MalformedAlignmentTag));
    assert_eq!(parse_alignment_tag(b"-:5", 0, window(), 5), Err(MalformedAlignmentTag));
    assert_eq!(parse_alignment_tag(b"*a:5", 0, window(), 5), Err(MalformedAlignmentTag));
    assert_eq!(parse_alignment_tag(b"*acg", 0, window(), 5), Err(MalformedAlignmentTag));
}

#[test]
fn empty_tag_gives_nothing() {
    assert_eq!(parse_alignment_tag(b"", 0, window(), 5), Ok(None));
}
