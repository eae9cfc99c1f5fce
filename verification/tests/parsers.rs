use grimoire_lsp::header_parser::{HeaderParser, HeaderState};
use grimoire_lsp::reference_parser::{ReferenceParser, ReferenceState};

fn feed(parser: &mut HeaderParser, s: &str) {
    for c in s.chars() {
        parser.next(c);
    }
}

fn feed_refs(parser: &mut ReferenceParser, s: &str) {
    for c in s.chars() {
        parser.next(c);
    }
}

#[test]
fn test_header_parser_new() {
    assert!(!HeaderParser::new().is_done());
}

#[test]
fn test_header_parser_default() {
    assert!(!HeaderParser::default().is_done());
}

#[test]
fn test_header_parser_location_char_position_no_newline() {
    let mut parser = HeaderParser::new();
    parser.next('a');
    assert_eq!(parser.location().line_position, 0);
    assert_eq!(parser.location().start_char_position, 0);
    assert_eq!(parser.location().end_char_position, 0);
}

#[test]
fn test_header_parser_location_char_position_newline() {
    let mut parser = HeaderParser::new();
    parser.next('\n');
    assert_eq!(parser.location().line_position, 1);
    assert_eq!(parser.location().start_char_position, -1);
    assert_eq!(parser.location().end_char_position, -1);
    parser.next('a');
    assert_eq!(parser.location().line_position, 1);
    assert_eq!(parser.location().start_char_position, 0);
    assert_eq!(parser.location().end_char_position, 0);
}

#[test]
fn test_header_parser_location_in_range() {
    let mut parser = HeaderParser::new();
    feed(&mut parser, "# A");
    assert!(parser.location().in_range);
}

#[test]
fn test_header_parser_location_out_of_range() {
    let mut parser = HeaderParser::new();
    feed(&mut parser, "# A\n");
    assert!(!parser.location().in_range);
}

#[test]
fn test_header_parser_next_initial_state() {
    let mut parser = HeaderParser::new();
    parser.next('a');
    assert!(!parser.is_done());
    assert!(matches!(parser.state(), HeaderState::Idle));
}

#[test]
fn test_header_parser_next_prefix_first_state() {
    let mut parser = HeaderParser::new();
    parser.next('#');
    assert!(!parser.is_done());
    assert!(matches!(parser.state(), HeaderState::SawMarker));

    parser.next('a');
    assert!(!parser.is_done());
    assert!(matches!(parser.state(), HeaderState::Idle));
}

#[test]
fn test_header_parser_next_prefix_final_state() {
    let mut parser = HeaderParser::new();
    parser.next('#');
    parser.next(' ');
    assert!(!parser.is_done());
    assert!(matches!(parser.state(), HeaderState::AwaitingContent));
}

#[test]
fn test_header_parser_next_header_capture_state() {
    let mut parser = HeaderParser::new();
    feed(&mut parser, "# abc");
    assert!(!parser.is_done());
    match parser.state() {
        HeaderState::Capturing(payload) => assert_eq!(payload.header, String::from("abc")),
        other => panic!("expected a capture, found {:?}", other),
    }
}

#[test]
fn test_header_parser_next_header_final_state() {
    let mut parser = HeaderParser::new();
    feed(&mut parser, "# abc\n");
    assert!(parser.is_done());
    match parser.state() {
        HeaderState::Done(payload) => assert_eq!(payload.header, String::from("abc")),
        other => panic!("expected a finished capture, found {:?}", other),
    }

    feed(&mut parser, "# def\n");
    assert!(parser.is_done());
    match parser.state() {
        HeaderState::Done(payload) => assert_eq!(payload.header, String::from("abc")),
        other => panic!("expected a finished capture, found {:?}", other),
    }
}

#[test]
fn test_header_parser_call_in_non_final_state() {
    let mut parser = HeaderParser::new();
    parser.next('#');
    parser.next(' ');
    assert!(parser.call().is_none());
}

#[test]
fn test_header_parser_call_in_final_state() {
    let mut parser = HeaderParser::new();
    feed(&mut parser, "# abc\n");
    let payload = parser.call();
    assert!(payload.is_some());
    assert_eq!(payload.unwrap().header, String::from("abc"))
}

#[test]
fn header_parser_trims_trailing_whitespace() {
    let mut parser = HeaderParser::new();
    feed(&mut parser, "# abc  \n");
    let payload = parser.call().unwrap();
    assert_eq!(payload.header, String::from("abc"));
    // The recorded span still covers the untrimmed capture.
    assert_eq!(payload.location.start_char_position, 0);
    assert_eq!(payload.location.end_char_position, 6);
}

#[test]
fn header_parser_done_iff_qualifying_line() {
    // No space after the marker: not a title.
    let mut parser = HeaderParser::new();
    feed(&mut parser, "#abc\n");
    assert!(!parser.is_done());

    // Only spaces after the marker: not a title.
    let mut parser = HeaderParser::new();
    feed(&mut parser, "#   \n");
    assert!(!parser.is_done());

    // A later line qualifies even when earlier ones do not.
    let mut parser = HeaderParser::new();
    feed(&mut parser, "plain\n#bad\n# good\n");
    assert!(parser.is_done());
    assert_eq!(parser.call().unwrap().header, String::from("good"));
}

#[test]
fn test_reference_parser_new() {
    let parser = ReferenceParser::new();
    assert!(matches!(parser.state(), ReferenceState::Idle));
    assert!(parser.references().is_empty());
}

#[test]
fn test_reference_parser_default() {
    let parser = ReferenceParser::default();
    assert!(matches!(parser.state(), ReferenceState::Idle));
    assert!(parser.references().is_empty());
}

#[test]
fn test_reference_parser_location_char_position_no_newline() {
    let mut parser = ReferenceParser::new();
    assert_eq!(parser.location().line_position, 0);
    assert_eq!(parser.location().start_char_position, -1);
    assert_eq!(parser.location().end_char_position, -1);
    parser.next('a');
    assert_eq!(parser.location().line_position, 0);
    assert_eq!(parser.location().start_char_position, 0);
    assert_eq!(parser.location().end_char_position, 0);
}

#[test]
fn test_reference_parser_location_char_position_newline() {
    let mut parser = ReferenceParser::new();
    assert_eq!(parser.location().line_position, 0);
    parser.next('\n');
    assert_eq!(parser.location().line_position, 1);
    assert_eq!(parser.location().start_char_position, -1);
    assert_eq!(parser.location().end_char_position, -1);
}

#[test]
fn test_reference_parser_next_initial_state() {
    let mut parser = ReferenceParser::new();
    parser.next('\n');
    assert!(matches!(parser.state(), ReferenceState::Idle));
    assert!(parser.references().is_empty());
}

#[test]
fn test_reference_parser_next_prefix_first_state() {
    let mut parser = ReferenceParser::new();
    parser.next('[');
    assert!(matches!(parser.state(), ReferenceState::SawOneBracket));
    assert!(parser.references().is_empty());

    parser.next('\n');
    assert!(matches!(parser.state(), ReferenceState::Idle));
    assert!(parser.references().is_empty());
}

#[test]
fn test_reference_parser_next_prefix_final_state() {
    let mut parser = ReferenceParser::new();
    feed_refs(&mut parser, "[[");
    assert!(matches!(parser.state(), ReferenceState::SawTwoBrackets));
    assert!(parser.references().is_empty());

    parser.next('\n');
    assert!(matches!(parser.state(), ReferenceState::Idle));
    assert!(parser.references().is_empty());
}

#[test]
fn test_reference_parser_next_reference_capture_state() {
    let mut parser = ReferenceParser::new();
    feed_refs(&mut parser, "[[abc");
    match parser.state() {
        ReferenceState::Capturing(payload) => assert_eq!(payload.header, String::from("abc")),
        other => panic!("expected a capture, found {:?}", other),
    }
    assert!(parser.references().is_empty());

    parser.next('\n');
    assert!(matches!(parser.state(), ReferenceState::Idle));
    assert!(parser.references().is_empty());
}

#[test]
fn test_reference_parser_next_suffix_first_state() {
    let mut parser = ReferenceParser::new();
    feed_refs(&mut parser, "[[abc]");
    match parser.state() {
        ReferenceState::SawOneCloseBracket(payload) => {
            assert_eq!(payload.header, String::from("abc"))
        }
        other => panic!("expected an armed closer, found {:?}", other),
    }
    assert!(parser.references().is_empty());

    parser.next('\n');
    assert!(matches!(parser.state(), ReferenceState::Idle));
    assert!(parser.references().is_empty());
}

#[test]
fn test_reference_parser_next_suffix_final_state() {
    let mut parser = ReferenceParser::new();
    feed_refs(&mut parser, "[[abc]]");
    assert!(matches!(parser.state(), ReferenceState::Idle));
    assert_eq!(parser.references().len(), 1);
    assert_eq!(parser.references().first().unwrap().header, String::from("abc"));

    parser.next('\n');
    assert!(matches!(parser.state(), ReferenceState::Idle));
    assert_eq!(parser.references().len(), 1);
    assert_eq!(parser.references().first().unwrap().header, String::from("abc"));
}

#[test]
fn test_reference_parser_call_in_non_final_state() {
    let mut parser = ReferenceParser::new();
    feed_refs(&mut parser, "[[abc]");
    assert!(parser.call().is_empty());
}

#[test]
fn test_reference_parser_call_in_final_state() {
    let mut parser = ReferenceParser::new();
    feed_refs(&mut parser, "[[abc]]");
    assert!(!parser.call().is_empty());
}

#[test]
fn reference_parser_counts_each_occurrence_in_order() {
    let mut parser = ReferenceParser::new();
    feed_refs(&mut parser, "x [[A]] y [[B]]\n[[C]]\n");
    let payloads = parser.call();
    assert_eq!(payloads.len(), 3);
    assert_eq!(payloads[0].header, "A");
    assert_eq!(payloads[1].header, "B");
    assert_eq!(payloads[2].header, "C");
}

#[test]
fn reference_parser_anchors_first_captured_character() {
    let mut parser = ReferenceParser::new();
    feed_refs(&mut parser, "[[Beta]]\n");
    let payloads = parser.call();
    assert_eq!(payloads.len(), 1);
    // The span anchors only the first captured character.
    assert_eq!(payloads[0].location.line_position, 0);
    assert_eq!(payloads[0].location.start_char_position, 2);
    assert_eq!(payloads[0].location.end_char_position, 2);
}

#[test]
fn reference_parser_lone_closer_stays_in_payload() {
    let mut parser = ReferenceParser::new();
    feed_refs(&mut parser, "[[a]b]]\n");
    let payloads = parser.call();
    assert_eq!(payloads.len(), 1);
    assert_eq!(payloads[0].header, "a]b");
}

#[test]
fn reference_parser_ignores_lone_brackets_around_occurrences() {
    let mut parser = ReferenceParser::new();
    feed_refs(&mut parser, "a] b [c [[One]] d] [[Two]] tail ]x[ y\n");
    let payloads = parser.call();
    assert_eq!(payloads.len(), 2);
    assert_eq!(payloads[0].header, "One");
    assert_eq!(payloads[1].header, "Two");
}

#[test]
fn reference_parser_unterminated_does_not_cross_lines() {
    let mut parser = ReferenceParser::new();
    feed_refs(&mut parser, "[[abc\ndef]]\n");
    assert!(parser.call().is_empty());
}
