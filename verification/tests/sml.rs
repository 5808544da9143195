use secs_sim::body_from_item::secs2_to_body_tree;
use secs_sim::body_tree::{body_tree_to_secs2, is_float_text};
use secs_sim::secs2::Secs2;
use secs_sim::sml_bridge::{parse_body_sml, parse_sml, send_done_note, send_sml_result, waits_in_background, ReplyInfo};
use secs_sim::sml_write::secs2_to_sml_body;

fn sample() -> Secs2 {
    Secs2::List(vec![
        Secs2::Ascii("OK \"go\"".to_string()),
        Secs2::Uint4(vec![7, 4000000000]),
        Secs2::Int2(vec![-3, 12]),
        Secs2::Boolean(vec![true, false]),
        Secs2::Binary(vec![0x00, 0xAB]),
        Secs2::List(vec![]),
        Secs2::List(vec![Secs2::Float8(vec!["1.5".to_string()])]),
    ])
}

#[test]
fn written_body_text_reads_back() {
    let item = sample();
    let text = secs2_to_sml_body(&item);
    let back = parse_body_sml(&text).unwrap();
    assert_eq!(secs2_to_sml_body(&back), text);
    assert_eq!(back.size(), 7);
}

#[test]
fn empty_body_writes_nothing_and_reads_back_empty() {
    let text = secs2_to_sml_body(&Secs2::Empty);
    assert_eq!(text, "");
    let back = parse_body_sml(&text).unwrap();
    assert!(matches!(back, Secs2::Empty));
}

#[test]
fn body_text_for_nested_list() {
    let item = Secs2::List(vec![Secs2::Ascii("A".to_string()), Secs2::Uint1(vec![1, 2])]);
    assert_eq!(secs2_to_sml_body(&item), "<L <A \"A\"> <U1 1 2>>");
}

#[test]
fn send_sml_reports_header_and_reply() {
    let m = parse_sml("S1F13 W <L>.").unwrap();
    let reply = ReplyInfo { stream: 1, function: 14, summary: "S1F14".to_string(), sml: None, hex: None };
    let r = send_sml_result(&m, Some(reply));
    assert_eq!(r.summary, "S1F13 W");
    assert_eq!((r.stream, r.function, r.wbit, r.waiting), (1, 13, true, false));
    assert_eq!(r.reply.unwrap().function, 14);
    let m = parse_sml("S6F12 <B 0x00>.").unwrap();
    assert_eq!(send_sml_result(&m, None).summary, "S6F12");
}

#[test]
fn background_waits_and_their_note() {
    assert!(waits_in_background(true, 13, true));
    assert!(!waits_in_background(true, 13, false));
    assert!(!waits_in_background(true, 14, true));
    assert!(!waits_in_background(false, 13, true));
    assert!(!waits_in_background(true, -1, true));
    let reply = ReplyInfo { stream: 1, function: 14, summary: "S1F14".to_string(), sml: None, hex: None };
    assert_eq!(send_done_note(1, 13, &reply), "S1F13 W \u{2192} S1F14");
}

#[test]
fn body_tree_of_an_item_converts_back() {
    let item = Secs2::List(vec![
        Secs2::Ascii("  spaced  ".to_string()),
        Secs2::Uint1(vec![0, 255]),
        Secs2::Int8(vec![i64::MIN, -1, i64::MAX]),
        Secs2::Binary(vec![]),
        Secs2::Boolean(vec![false, true]),
        Secs2::List(vec![Secs2::Float4(vec!["2.5".to_string(), "1e3".to_string()])]),
    ]);
    let tree = secs2_to_body_tree(&item);
    assert_eq!(tree.len(), 1);
    let back = body_tree_to_secs2(&tree).unwrap();
    assert_eq!(secs2_to_sml_body(&back), secs2_to_sml_body(&item));
    let empty_tree = secs2_to_body_tree(&Secs2::Empty);
    assert!(empty_tree.is_empty());
    assert!(matches!(body_tree_to_secs2(&empty_tree).unwrap(), Secs2::Empty));
}

#[test]
fn empty_number_item_reads_back_as_zero() {
    let tree = secs2_to_body_tree(&Secs2::Uint4(vec![]));
    let back = body_tree_to_secs2(&tree).unwrap();
    assert_eq!(secs2_to_sml_body(&back), "<U4 0>");
}

#[test]
fn float_texts_follow_the_number_grammar() {
    for ok in ["1", "-2.5", "+.5", "1.", "1e5", "2.5E-3", "inf", "-Infinity", "NaN", "007"] {
        assert!(is_float_text(&ok.chars().collect::<Vec<char>>()), "{ok}");
    }
    for bad in ["", ".", "e5", "1e", "1e+", "--1", "1.2.3", "0x10", "infinite", " 1"] {
        assert!(!is_float_text(&bad.chars().collect::<Vec<char>>()), "{bad}");
    }
}

#[test]
fn body_tree_rejects_a_float_that_is_no_number() {
    let tree = secs2_to_body_tree(&Secs2::Float8(vec!["1.5".to_string(), "abc".to_string()]));
    let e = body_tree_to_secs2(&tree).unwrap_err();
    assert_eq!(e.message(), "bad float: abc");
    let blank = secs2_to_body_tree(&Secs2::Float4(vec![]));
    assert_eq!(secs2_to_sml_body(&body_tree_to_secs2(&blank).unwrap()), "<F4 0>");
}
