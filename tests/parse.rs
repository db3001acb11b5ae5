use cohoard::{parse_posts, ChatlogElement, Config};

fn directory() -> Config {
    let mut config = Config::new();
    config.add_entry("A".to_string(), &vec![("name".to_string(), "Alice".to_string())]);
    config
}

fn post(e: &ChatlogElement) -> (String, String) {
    match e {
        ChatlogElement::Post { user, message } => (user.field("key").unwrap(), message.clone()),
        ChatlogElement::Timestamp { .. } => panic!("expected a post"),
    }
}

fn stamp(e: &ChatlogElement) -> String {
    match e {
        ChatlogElement::Timestamp { message } => message.clone(),
        ChatlogElement::Post { .. } => panic!("expected a timestamp"),
    }
}

fn summary(es: &[ChatlogElement]) -> Vec<String> {
    es.iter()
        .map(|e| match e {
            ChatlogElement::Post { user, message } => format!("P {} {:?}", user.field("key").unwrap(), message),
            ChatlogElement::Timestamp { message } => format!("T {:?}", message),
        })
        .collect()
}

#[test]
fn continuation_line_joins_post() {
    let es = parse_posts(&directory(), "A: x\ny".to_string());
    assert_eq!(es.len(), 1);
    assert_eq!(post(&es[0]), ("A".to_string(), "x\ny\n".to_string()));
}

#[test]
fn same_speaker_lines_group_into_one_post() {
    let es = parse_posts(&Config::new(), "A: x\nA: y".to_string());
    assert_eq!(es.len(), 1);
    assert_eq!(post(&es[0]), ("A".to_string(), "x\ny\n".to_string()));
}

#[test]
fn blank_line_between_same_speaker_does_not_split() {
    let es = parse_posts(&Config::new(), "A: x\n\nA: y".to_string());
    assert_eq!(summary(&es), vec!["P A \"x\\ny\\n\""]);
}

#[test]
fn speaker_returning_after_another_starts_new_post() {
    let es = parse_posts(&directory(), "A: x\nA: y\nB: z\nA: w\n@ now\nA: v".to_string());
    assert_eq!(
        summary(&es),
        vec!["P A \"x\\ny\\n\"", "P B \"z\\n\"", "P A \"w\\n\"", "T \"now\"", "P A \"v\\n\""]
    );
}

#[test]
fn speaker_switch_flushes() {
    let es = parse_posts(&directory(), "A: x\nB: y".to_string());
    assert_eq!(es.len(), 2);
    assert_eq!(post(&es[0]), ("A".to_string(), "x\n".to_string()));
    assert_eq!(post(&es[1]), ("B".to_string(), "y\n".to_string()));
}

#[test]
fn timestamp_flushes_and_emits() {
    let es = parse_posts(&directory(), "A: x\n@ Today".to_string());
    assert_eq!(es.len(), 2);
    assert_eq!(post(&es[0]), ("A".to_string(), "x\n".to_string()));
    assert_eq!(stamp(&es[1]), "Today");
}

#[test]
fn blank_lines_are_inert() {
    let with = parse_posts(&directory(), "A: x\n\n   \ny\n\t\nB: z".to_string());
    let without = parse_posts(&directory(), "A: x\ny\nB: z".to_string());
    assert_eq!(summary(&with), summary(&without));
    assert_eq!(summary(&with), vec!["P A \"x\\ny\\n\"", "P B \"z\\n\""]);
}

#[test]
fn leading_continuation_is_dropped() {
    let es = parse_posts(&directory(), "hello there\nnot a: speaker\nA: x".to_string());
    assert_eq!(summary(&es), vec!["P A \"x\\n\""]);
}

#[test]
fn empty_input_gives_nothing() {
    assert!(parse_posts(&directory(), String::new()).is_empty());
    assert!(parse_posts(&directory(), "\n\n  \n".to_string()).is_empty());
}

#[test]
fn empty_timestamp_is_emitted() {
    let es = parse_posts(&directory(), "@\n@   ".to_string());
    assert_eq!(summary(&es), vec!["T \"\"", "T \"\""]);
}

#[test]
fn timestamp_is_trimmed_and_expanded() {
    let es = parse_posts(&directory(), "@  @A.name day  ".to_string());
    assert_eq!(
        stamp(&es[0]),
        "<span class=\"at-macro at-macro-A at-macro-A-name\">Alice</span> day"
    );
}

#[test]
fn post_macros_expand_over_whole_message() {
    let es = parse_posts(&directory(), "B: hi @A.name\nbye @A.key".to_string());
    assert_eq!(
        post(&es[0]).1,
        "hi <span class=\"at-macro at-macro-A at-macro-A-name\">Alice</span>\nbye <span class=\"at-macro at-macro-A at-macro-A-key\">A</span>\n"
    );
}

#[test]
fn known_speaker_gets_directory_user_and_unknown_a_fallback() {
    let es = parse_posts(&directory(), "A: x\nQ7: y".to_string());
    match &es[0] {
        ChatlogElement::Post { user, .. } => assert_eq!(user.field("name"), Some("Alice".to_string())),
        _ => panic!("expected a post"),
    }
    match &es[1] {
        ChatlogElement::Post { user, .. } => {
            assert_eq!(user.field("key"), Some("Q7".to_string()));
            assert_eq!(user.field("name"), Some("Q7".to_string()));
            assert_eq!(user.fields().len(), 2);
        }
        _ => panic!("expected a post"),
    }
}

#[test]
fn token_must_be_alphanumeric_and_non_empty() {
    let es = parse_posts(&directory(), "A: x\nDr. Who: y\n: z\nÉmile2: w".to_string());
    assert_eq!(summary(&es), vec!["P A \"x\\nDr. Who: y\\n: z\\n\"", "P Émile2 \"w\\n\""]);
}

#[test]
fn first_separator_splits() {
    let es = parse_posts(&directory(), "A: b: c".to_string());
    assert_eq!(post(&es[0]), ("A".to_string(), "b: c\n".to_string()));
}

#[test]
fn crlf_line_endings() {
    let es = parse_posts(&directory(), "A: x\r\ny\r\n".to_string());
    assert_eq!(post(&es[0]), ("A".to_string(), "x\ny\n".to_string()));
}

#[test]
fn timestamp_wins_over_speaker_shape() {
    let es = parse_posts(&directory(), "@A: x".to_string());
    assert_eq!(stamp(&es[0]), "A: x");
}
