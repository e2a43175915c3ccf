use std::collections::HashMap;

use chat_log_parser_lib::format::format_conversation;
use chat_log_parser_lib::msg::{participants_equal, Message, Participant, TaggedMessage};
use chat_log_parser_lib::numfmt::{i64_to_dec, u64_to_dec};
use chat_log_parser_lib::records::{get_uris, normalize_message, Photo, RawMessage, Sticker};
use chat_log_parser_lib::split::train_test;
use chat_log_parser_lib::timeline::is_session_boundary;

use rand::{Rng, SeedableRng};
use rand_pcg::Pcg64Mcg;

fn msg(author: &str, content: &str, timestamp: i64, conversation_id: usize) -> TaggedMessage {
    TaggedMessage {
        content: String::from(content),
        author: String::from(author),
        timestamp,
        conversation_id,
    }
}

fn as_tuples(msgs: &[TaggedMessage]) -> Vec<(String, String, i64, usize)> {
    msgs.iter()
        .map(|m| (m.content.clone(), m.author.clone(), m.timestamp, m.conversation_id))
        .collect()
}

fn draws_from_seed(seed: u64, n: usize, ratio: f32) -> Vec<bool> {
    let mut rng = Pcg64Mcg::seed_from_u64(seed);
    (0..n).map(|_| rng.gen::<f32>() > ratio).collect()
}

#[test]
fn session_boundary_falls_only_on_gaps_over_the_timeout() {
    let t: i64 = 1_000_000;
    // Gaps of 500 s then 700 s: only the second gap crosses the 600 s
    // threshold.
    assert!(!is_session_boundary(t, t + 500_000));
    assert!(is_session_boundary(t + 500_000, t + 1_200_000));
    // A gap of exactly the threshold is not a boundary, and fractions of a
    // second are truncated away.
    assert!(!is_session_boundary(t, t + 600_000));
    assert!(!is_session_boundary(t, t + 600_999));
    assert!(is_session_boundary(t, t + 601_000));
}

#[test]
fn splitter_keeps_small_gap_runs_in_one_partition() {
    // Gaps never exceed 600 s, so nothing flips and everything stays train.
    let msgs = vec![
        msg("a", "one", 0, 0),
        msg("b", "two", 500_000, 0),
        msg("a", "three", 1_000_000, 0),
        msg("b", "four", 1_500_000, 0),
    ];
    let expected = as_tuples(&msgs);
    let draws = vec![false; 4];
    let (train, test) = train_test(msgs, &draws);
    assert_eq!(as_tuples(&train), expected);
    assert!(test.is_empty());
}

#[test]
fn splitter_flips_at_a_decision_point() {
    let two_days: i64 = 2 * 24 * 3600 * 1000;
    let msgs = vec![
        msg("a", "one", 0, 0),
        msg("b", "two", 100_000, 0),
        // More than 600 s since the last message and more than a day since
        // the segment anchor: a fresh decision is drawn here.
        msg("a", "three", two_days, 0),
        msg("b", "four", two_days + 10_000, 0),
    ];
    let draws = vec![false, true, true, true];
    let (train, test) = train_test(msgs, &draws);
    let train_t = as_tuples(&train);
    let test_t = as_tuples(&test);
    assert_eq!(train_t.len(), 2);
    assert_eq!(test_t.len(), 2);
    assert_eq!(train_t[0].0, "one");
    assert_eq!(train_t[1].0, "two");
    assert_eq!(test_t[0].0, "three");
    assert_eq!(test_t[1].0, "four");
}

#[test]
fn splitter_is_deterministic_for_a_fixed_seed() {
    let two_days: i64 = 2 * 24 * 3600 * 1000;
    let mk = || {
        vec![
            msg("a", "one", 0, 0),
            msg("b", "two", 100_000, 0),
            msg("a", "three", two_days, 0),
            msg("b", "four", 4 * two_days, 0),
            msg("a", "five", 6 * two_days, 0),
            msg("b", "six", 8 * two_days, 0),
        ]
    };
    let draws1 = draws_from_seed(1234, 6, 0.5);
    let draws2 = draws_from_seed(1234, 6, 0.5);
    assert_eq!(draws1, draws2);
    let (train1, test1) = train_test(mk(), &draws1);
    let (train2, test2) = train_test(mk(), &draws2);
    assert_eq!(as_tuples(&train1), as_tuples(&train2));
    assert_eq!(as_tuples(&test1), as_tuples(&test2));
}

#[test]
fn splitter_never_reorders_messages_between_partitions() {
    let two_days: i64 = 2 * 24 * 3600 * 1000;
    let mk = || {
        (0..8)
            .map(|i| msg("a", &format!("m{}", i), i * two_days, 0))
            .collect::<Vec<_>>()
    };
    for seed in [1u64, 2, 3, 42, 99] {
        let draws = draws_from_seed(seed, 8, 0.4);
        let (train, test) = train_test(mk(), &draws);
        assert_eq!(train.len() + test.len(), 8);
        for w in train.windows(2) {
            assert!(w[0].timestamp <= w[1].timestamp);
        }
        for w in test.windows(2) {
            assert!(w[0].timestamp <= w[1].timestamp);
        }
    }
}

#[test]
fn format_of_empty_input_is_empty() {
    let parts: HashMap<usize, Vec<Participant>> = HashMap::new();
    let msgs: Vec<TaggedMessage> = Vec::new();
    assert_eq!(format_conversation(&parts, &msgs, "|EOM|", "<|eoc|>"), "");
}

#[test]
fn format_renders_closed_segments_with_headers() {
    let mut parts: HashMap<usize, Vec<Participant>> = HashMap::new();
    parts.insert(
        7,
        vec![
            Participant { name: String::from("alice") },
            Participant { name: String::from("bob") },
        ],
    );
    let msgs = vec![
        msg("alice", "hi", 0, 7),
        // 700 s later: closes the first segment.
        msg("bob", "yo", 700_000, 7),
        // another 700 s later: closes the second segment; the third is
        // still open at the end of the input and is emitted last.
        msg("alice", "ok", 1_400_000, 7),
    ];
    let out = format_conversation(&parts, &msgs, "|EOM|", "<|eoc|>");
    let expected = "|alice bob|\n|EOM||1 1970 0 alice|: hi\n<|eoc|>\
                    |alice bob|\n|EOM||1 1970 0 bob|: yo\n<|eoc|>\
                    |alice bob|\n|EOM||1 1970 0 alice|: ok\n";
    assert_eq!(out, expected);
}

#[test]
fn format_emits_a_single_session_whole() {
    let mut parts: HashMap<usize, Vec<Participant>> = HashMap::new();
    parts.insert(0, vec![Participant { name: String::from("p") }]);
    let msgs = vec![msg("a", "one", 0, 0), msg("a", "two", 100_000, 0)];
    let out = format_conversation(&parts, &msgs, "|EOM|", "<|eoc|>");
    assert_eq!(out, "|p|\n|EOM||1 1970 0 a|: one\n|EOM||1 1970 100 a|: two\n");
}

#[test]
fn format_places_one_boundary_for_gaps_of_500_and_700_seconds() {
    let mut parts: HashMap<usize, Vec<Participant>> = HashMap::new();
    parts.insert(0, vec![Participant { name: String::from("p") }]);
    let msgs = vec![
        msg("a", "m1", 0, 0),
        msg("b", "m2", 500_000, 0),
        msg("a", "m3", 1_200_000, 0),
    ];
    let out = format_conversation(&parts, &msgs, "|EOM|", "<|eoc|>");
    let expected = "|p|\n|EOM||1 1970 0 a|: m1\n|EOM||1 1970 500 b|: m2\n<|eoc|>\
                    |p|\n|EOM||1 1970 0 a|: m3\n";
    assert_eq!(out, expected);
}

#[test]
fn format_closes_a_segment_when_the_conversation_changes() {
    let mut parts: HashMap<usize, Vec<Participant>> = HashMap::new();
    parts.insert(1, vec![Participant { name: String::from("ann") }]);
    parts.insert(2, vec![Participant { name: String::from("ben") }]);
    let msgs = vec![
        msg("ann", "a", 0, 1),
        // Ten seconds later in another conversation: the identity change
        // alone closes the first segment.
        msg("ben", "b", 10_000, 2),
    ];
    let out = format_conversation(&parts, &msgs, "|EOM|", "<|eoc|>");
    assert_eq!(
        out,
        "|ann|\n|EOM||1 1970 0 ann|: a\n<|eoc|>|ben|\n|EOM||1 1970 0 ben|: b\n"
    );
}

#[test]
fn format_uses_the_anchor_month_and_year() {
    let mut parts: HashMap<usize, Vec<Participant>> = HashMap::new();
    parts.insert(0, vec![Participant { name: String::from("al") }]);
    // 2020-09-13 12:26:40 UTC.
    let t0: i64 = 1_600_000_000_000;
    let msgs = vec![
        msg("al", "hi", t0, 0),
        msg("al", "later", t0 + 30_000, 0),
        msg("al", "bye", t0 + 800_000, 0),
    ];
    let out = format_conversation(&parts, &msgs, "#", "@");
    assert_eq!(
        out,
        "|al|\n#|9 2020 0 al|: hi\n#|9 2020 30 al|: later\n@|al|\n#|9 2020 0 al|: bye\n"
    );
}

#[test]
fn format_twice_on_the_same_input_yields_the_same_text() {
    let mut parts: HashMap<usize, Vec<Participant>> = HashMap::new();
    parts.insert(3, vec![Participant { name: String::from("solo") }]);
    let msgs = vec![
        msg("solo", "one", 0, 3),
        msg("solo", "two", 100_000, 3),
        msg("solo", "three", 800_000, 3),
    ];
    let first = format_conversation(&parts, &msgs, "|EOM|", "<|eoc|>");
    let second = format_conversation(&parts, &msgs, "|EOM|", "<|eoc|>");
    assert_eq!(first, second);
    // Every pair was rendered, so the pairs the output carries are the
    // pairs it was made from.
    assert!(first.contains("one") && first.contains("two") && first.contains("three"));
}

#[test]
fn get_uris_joins_uris_after_the_kind_header() {
    let photos = vec![
        Photo { uri: String::from("p/a.jpg"), creation_timestamp: 1 },
        Photo { uri: String::from("p/b.jpg"), creation_timestamp: 2 },
    ];
    assert_eq!(get_uris(&photos), "PHOTOS: p/a.jpg-p/b.jpg");
    let none: Vec<Photo> = Vec::new();
    assert_eq!(get_uris(&none), "NONE: ");
}

fn bare_raw(author: &str, ts: i64) -> RawMessage {
    RawMessage {
        sender_name: String::from(author),
        timestamp_ms: ts,
        photos: None,
        content: None,
        sticker: None,
        gifs: None,
        videos: None,
        reactions: None,
        share: None,
        message_type: String::from("Generic"),
    }
}

#[test]
fn normalize_copies_text_content_author_and_timestamp() {
    let mut raw = bare_raw("carol", 123_456);
    raw.content = Some(String::from("hello"));
    let m: Message = normalize_message(&raw);
    assert_eq!(m.author, "carol");
    assert_eq!(m.timestamp, 123_456);
    assert_eq!(m.content, "hello");
}

#[test]
fn normalize_synthesizes_placeholders_for_attachments() {
    let mut raw = bare_raw("dan", 1);
    raw.photos = Some(vec![Photo { uri: String::from("x.jpg"), creation_timestamp: 0 }]);
    assert_eq!(normalize_message(&raw).content, "PHOTOS: x.jpg");

    let mut raw = bare_raw("dan", 1);
    raw.sticker = Some(Sticker { uri: String::from("s.png") });
    assert_eq!(normalize_message(&raw).content, "s.png");

    let raw = bare_raw("dan", 1);
    assert_eq!(normalize_message(&raw).content, "UNKOWN CONTENT TYPE");
}

#[test]
fn tagging_keeps_the_message_fields() {
    let m = Message {
        content: String::from("c"),
        author: String::from("a"),
        timestamp: 5,
    };
    let t = TaggedMessage::new(&m, 9);
    assert_eq!(t.content, "c");
    assert_eq!(t.author, "a");
    assert_eq!(t.timestamp, 5);
    assert_eq!(t.conversation_id, 9);
}

#[test]
fn participant_lists_compare_by_names_in_order() {
    let a = vec![
        Participant { name: String::from("x") },
        Participant { name: String::from("y") },
    ];
    let b = vec![
        Participant { name: String::from("x") },
        Participant { name: String::from("y") },
    ];
    let c = vec![
        Participant { name: String::from("y") },
        Participant { name: String::from("x") },
    ];
    assert!(participants_equal(&a, &b));
    assert!(!participants_equal(&a, &c));
    assert!(!participants_equal(&a, &Vec::new()));
}

#[test]
fn decimal_rendering_matches_expected_digits() {
    assert_eq!(u64_to_dec(0), "0");
    assert_eq!(u64_to_dec(7), "7");
    assert_eq!(u64_to_dec(1_234_567_890), "1234567890");
    assert_eq!(i64_to_dec(-42), "-42");
    assert_eq!(i64_to_dec(0), "0");
    assert_eq!(i64_to_dec(i64::MIN), "-9223372036854775808");
}
