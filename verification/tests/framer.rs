use hid_scanner::framer::Framer;

fn strings(codes: &[&str]) -> Vec<String> {
    codes.iter().map(|c| c.to_string()).collect()
}

#[test]
fn three_segments_give_two_codes_and_a_pending_fragment() {
    let mut framer = Framer::new();
    let codes = framer.feed(b"A\nB\nC");
    assert_eq!(codes, strings(&["A", "B"]));
    assert_eq!(framer.pending(), "C");
}

#[test]
fn pending_fragment_is_completed_by_the_next_chunk() {
    let mut framer = Framer::new();
    assert_eq!(framer.feed(b"A\nB\nC"), strings(&["A", "B"]));
    assert_eq!(framer.feed(b"\n"), strings(&["C"]));
    assert_eq!(framer.pending(), "");
}

#[test]
fn lone_terminator_gives_no_code() {
    let mut framer = Framer::new();
    let codes = framer.feed(b"\n");
    assert!(codes.is_empty());
    assert_eq!(framer.pending(), "");
}

#[test]
fn code_is_trimmed() {
    let mut framer = Framer::new();
    let codes = framer.feed(b"  X  \n");
    assert_eq!(codes, strings(&["X"]));
    assert_eq!(framer.pending(), "");
}

#[test]
fn inner_white_space_is_kept() {
    let mut framer = Framer::new();
    assert_eq!(framer.feed(b"\t A  B \n"), strings(&["A  B"]));
}

#[test]
fn blank_lines_are_dropped() {
    let mut framer = Framer::new();
    let codes = framer.feed(b"   \n\t\n\r\nZ\n \n");
    assert_eq!(codes, strings(&["Z"]));
    assert_eq!(framer.pending(), "");
}

#[test]
fn carriage_returns_are_trimmed_away() {
    let mut framer = Framer::new();
    assert_eq!(framer.feed(b"A\r\nB\r\n"), strings(&["A", "B"]));
    assert_eq!(framer.pending(), "");
}

#[test]
fn chunk_without_terminator_stays_pending() {
    let mut framer = Framer::new();
    assert!(framer.feed(b"AB").is_empty());
    assert_eq!(framer.pending(), "AB");
    assert!(framer.feed(b"CD").is_empty());
    assert_eq!(framer.pending(), "ABCD");
    assert_eq!(framer.feed(b"E\nF"), strings(&["ABCDE"]));
    assert_eq!(framer.pending(), "F");
}

#[test]
fn pending_fragment_keeps_its_white_space() {
    let mut framer = Framer::new();
    assert!(framer.feed(b"  A ").is_empty());
    assert_eq!(framer.pending(), "  A ");
    assert_eq!(framer.feed(b" B \n"), strings(&["A  B"]));
}

#[test]
fn empty_chunk_changes_nothing() {
    let mut framer = Framer::new();
    assert!(framer.feed(b"").is_empty());
    assert_eq!(framer.pending(), "");
    assert!(framer.feed(b"AB").is_empty());
    assert!(framer.feed(b"").is_empty());
    assert_eq!(framer.pending(), "AB");
}

#[test]
fn new_framer_has_nothing_pending() {
    let framer = Framer::new();
    assert_eq!(framer.pending(), "");
}

#[test]
fn split_line_gives_the_same_code_at_every_split_point() {
    let line = b"  4006381333931 \n";
    let mut whole = Framer::new();
    let expected = whole.feed(line);
    assert_eq!(expected, strings(&["4006381333931"]));
    for cut in 0..=line.len() {
        let mut framer = Framer::new();
        let mut codes = framer.feed(&line[..cut]);
        codes.extend(framer.feed(&line[cut..]));
        assert_eq!(codes, expected);
        assert_eq!(framer.pending(), whole.pending());
    }
}

#[test]
fn split_stream_gives_the_same_codes_at_every_split_point() {
    let stream = b"A1\n B2 \r\n\nC3\nD";
    let mut whole = Framer::new();
    let expected = whole.feed(stream);
    assert_eq!(expected, strings(&["A1", "B2", "C3"]));
    assert_eq!(whole.pending(), "D");
    for cut in 0..=stream.len() {
        let mut framer = Framer::new();
        let mut codes = framer.feed(&stream[..cut]);
        codes.extend(framer.feed(&stream[cut..]));
        assert_eq!(codes, expected);
        assert_eq!(framer.pending(), "D");
    }
}

#[test]
fn byte_by_byte_feed_gives_the_same_codes() {
    let stream = b"ONE\nTWO\n  THREE\n";
    let mut framer = Framer::new();
    let mut codes = Vec::new();
    for b in stream.iter() {
        codes.extend(framer.feed(&[*b]));
    }
    assert_eq!(codes, strings(&["ONE", "TWO", "THREE"]));
    assert_eq!(framer.pending(), "");
}

#[test]
fn ill_formed_bytes_are_replaced() {
    let mut framer = Framer::new();
    let codes = framer.feed(&[b'A', 0xFF, b'B', b'\n']);
    assert_eq!(codes, strings(&["A\u{FFFD}B"]));
}

#[test]
fn lone_ill_formed_byte_is_a_code() {
    let mut framer = Framer::new();
    let codes = framer.feed(&[0xFF, b'\n']);
    assert_eq!(codes, strings(&["\u{FFFD}"]));
}

#[test]
fn well_formed_multibyte_text_is_kept() {
    let mut framer = Framer::new();
    let codes = framer.feed("caf\u{e9} \u{20ac}5\n".as_bytes());
    assert_eq!(codes, strings(&["caf\u{e9} \u{20ac}5"]));
}

#[test]
fn multibyte_text_cut_between_characters_is_kept() {
    let text = "\u{e9}\u{20ac}\n".as_bytes();
    let mut framer = Framer::new();
    let mut codes = framer.feed(&text[..2]);
    codes.extend(framer.feed(&text[2..]));
    assert_eq!(codes, strings(&["\u{e9}\u{20ac}"]));
}

#[test]
fn character_cut_in_two_is_replaced_on_both_sides() {
    let text = "\u{e9}\n".as_bytes();
    assert_eq!(text.len(), 3);
    let mut framer = Framer::new();
    let mut codes = framer.feed(&text[..1]);
    assert_eq!(framer.pending(), "\u{FFFD}");
    codes.extend(framer.feed(&text[1..]));
    assert_eq!(codes, strings(&["\u{FFFD}\u{FFFD}"]));
}

#[test]
fn unicode_white_space_is_trimmed() {
    let mut framer = Framer::new();
    let codes = framer.feed("\u{a0}\u{3000}X\u{2003}\u{85}\n".as_bytes());
    assert_eq!(codes, strings(&["X"]));
}

#[test]
fn line_of_unicode_white_space_is_dropped() {
    let mut framer = Framer::new();
    assert!(framer.feed("\u{a0}\u{2028}\n".as_bytes()).is_empty());
}

#[test]
fn feed_text_takes_decoded_text() {
    let mut framer = Framer::new();
    assert_eq!(framer.feed_text("  A\nB "), strings(&["A"]));
    assert_eq!(framer.pending(), "B ");
    assert_eq!(framer.feed_text("\n\n"), strings(&["B"]));
    assert_eq!(framer.pending(), "");
}

#[test]
fn many_codes_in_one_chunk_come_out_in_order() {
    let mut framer = Framer::new();
    let codes = framer.feed(b"1\n2\n3\n4\n5\n6\n7\n8\n9\n10\n");
    assert_eq!(codes, strings(&["1", "2", "3", "4", "5", "6", "7", "8", "9", "10"]));
}

#[test]
fn codes_are_never_empty_nor_padded() {
    let mut framer = Framer::new();
    let codes = framer.feed(b" a \n\n  \n\tb\n c d \r\n");
    assert_eq!(codes.len(), 3);
    for code in codes.iter() {
        assert!(!code.is_empty());
        assert_eq!(code.trim(), code.as_str());
    }
    assert!(!framer.pending().contains('\n'));
}
