use cgn::pgn_db_iter::{begins_game, blank, GameReader};

/// The games that a reader hands out for the lines of a text.
fn games_of(text: &str) -> Vec<String> {
    let mut reader = GameReader::new();
    let mut games = Vec::new();
    for line in text.split_inclusive('\n') {
        if let Some(game) = reader.feed(line) {
            games.push(game);
        }
    }
    if let Some(game) = reader.finish() {
        games.push(game);
    }
    assert_eq!(reader.finish(), None);
    games
}

#[test]
fn blank_texts() {
    assert!(blank(""));
    assert!(blank(" \t\r\n"));
    assert!(blank("\u{a0}\u{2003}\u{3000}\u{85}\u{1680}\u{2028}\u{2029}\u{202f}\u{205f}\u{b}\u{c}"));
    assert!(!blank(" a "));
    assert!(!blank("\u{200b}"));
    assert!(!blank("\u{feff}"));
    for c in (0..0x3100u32).filter_map(char::from_u32) {
        assert_eq!(blank(&c.to_string()), c.is_whitespace());
    }
}

#[test]
fn lines_that_begin_a_game() {
    assert!(begins_game("[Event \"x\"]\n"));
    assert!(begins_game("[Event"));
    assert!(begins_game("[Events"));
    assert!(!begins_game("[Even"));
    assert!(!begins_game(" [Event"));
    assert!(!begins_game("[event \"x\"]"));
    assert!(!begins_game(""));
}

#[test]
fn what_a_line_does() {
    let mut reader = GameReader::new();
    // blank lines before a game are skipped
    assert_eq!(reader.feed("\n"), None);
    assert_eq!(reader.feed("   \r\n"), None);
    assert_eq!(reader.finish(), None);
    // the first tag opens the game, later lines are added, blank ones too
    assert_eq!(reader.feed("[Event \"a\"]\n"), None);
    assert_eq!(reader.feed("\n"), None);
    assert_eq!(reader.feed("1. e4 e5\n"), None);
    // the tag of the next game ends the game and opens the next
    assert_eq!(
        reader.feed("[Event \"b\"]\n"),
        Some("[Event \"a\"]\n\n1. e4 e5\n".to_string())
    );
    assert_eq!(reader.feed("1. d4\n"), None);
    assert_eq!(reader.finish(), Some("[Event \"b\"]\n1. d4\n".to_string()));
    assert_eq!(reader.finish(), None);
    // a game may begin without a tag
    assert_eq!(reader.feed("1. c4\n"), None);
    assert_eq!(reader.feed("[Event \"c\"]"), Some("1. c4\n".to_string()));
    assert_eq!(reader.finish(), Some("[Event \"c\"]".to_string()));
}

#[test]
fn games_of_a_file() {
    let text = "[Event \"A\"]\n\n1. e4 e5\n[Event \"B\"]\n\n1. d4 d5";
    assert_eq!(
        games_of(text),
        vec!["[Event \"A\"]\n\n1. e4 e5\n".to_string(), "[Event \"B\"]\n\n1. d4 d5".to_string()]
    );
}

#[test]
fn games_keep_the_lines_of_the_file() {
    let text = "\n\n[Event \"a\"]\n[Site \"s\"]\n\n1. e4 e5 1-0\n\n[Event \"b\"]\n\n1. d4 *\n\n\n[Event \"c\"]\n*\n";
    let games = games_of(text);
    assert_eq!(games.len(), 3);
    assert_eq!(games[0], "[Event \"a\"]\n[Site \"s\"]\n\n1. e4 e5 1-0\n\n");
    assert_eq!(games[1], "[Event \"b\"]\n\n1. d4 *\n\n\n");
    assert_eq!(games[2], "[Event \"c\"]\n*\n");
    // put together, the games are the text without the two blank lines in front
    assert_eq!(games.concat(), &text[2..]);
    assert_eq!(games_of(""), Vec::<String>::new());
    assert_eq!(games_of("\n \n\t\n"), Vec::<String>::new());
}
