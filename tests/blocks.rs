use cohoard::{Config, OldPostBlock};

fn summary(blocks: &[OldPostBlock]) -> Vec<(String, Option<String>, Vec<String>)> {
    blocks
        .iter()
        .map(|b| (b.user().field("key").unwrap(), b.timestamp(), b.messages().clone()))
        .collect()
}

fn s(x: &str) -> String {
    x.to_string()
}

#[test]
fn blocks_group_same_speaker() {
    let blocks = OldPostBlock::parse_posts(&Config::new(), s("A: x\nA: y\nB: z"));
    assert_eq!(
        summary(&blocks),
        vec![(s("A"), None, vec![s("x"), s("y")]), (s("B"), None, vec![s("z")])]
    );
}

#[test]
fn blocks_carry_timestamps_and_continuations() {
    let blocks = OldPostBlock::parse_posts(&Config::new(), s("@ Today\nA: x\ncont\n@ \n@ Tomorrow\nB: y"));
    assert_eq!(
        summary(&blocks),
        vec![
            (s("A"), Some(s("Today")), vec![s("x\ncont")]),
            (s("B"), Some(s("Tomorrow")), vec![s("y")]),
        ]
    );
}

#[test]
fn blocks_take_lines_that_are_not_speakers_as_messages() {
    let blocks = OldPostBlock::parse_posts(&Config::new(), s("A: x\nDr. Who: y"));
    assert_eq!(summary(&blocks), vec![(s("A"), None, vec![s("x"), s("Dr. Who: y")])]);
}

#[test]
fn blocks_use_directory_users() {
    let mut config = Config::new();
    config.add_entry(s("A"), &vec![(s("name"), s("Alice"))]);
    let blocks = OldPostBlock::parse_posts(&config, s("A: x"));
    assert_eq!(blocks[0].user().field("name"), Some(s("Alice")));
}
