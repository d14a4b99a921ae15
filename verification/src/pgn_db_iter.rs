//! Games in a file of many: what a reader does with each line it reads,
//! and the games that come of it.

use crate::text::chars_of;
use vstd::prelude::*;

verus! {

/// A character with the Unicode property White_Space.
pub open spec fn is_whitespace(c: char) -> bool {
    ('\u{9}' <= c && c <= '\u{D}') || c == ' ' || c == '\u{85}' || c == '\u{A0}' || c
        == '\u{1680}' || ('\u{2000}' <= c && c <= '\u{200A}') || c == '\u{2028}' || c == '\u{2029}'
        || c == '\u{202F}' || c == '\u{205F}' || c == '\u{3000}'
}

/// A text of white space alone.
pub open spec fn is_blank(s: Seq<char>) -> bool {
    forall|i: int| 0 <= i < s.len() ==> is_whitespace(#[trigger] s[i])
}

/// A text that begins with `[Event`.
pub open spec fn starts_game(s: Seq<char>) -> bool {
    s.len() >= 6 && s.take(6) == seq!['[', 'E', 'v', 'e', 'n', 't']
}

/// What a line does to the game that is being read: a blank line before
/// the game has begun is skipped; the tag `Event` ends a game that has
/// begun, which is handed out, and opens the next game; every other line
/// is added to the game. The result is the game handed out, if any, and the
/// game that is being read after the line.
pub open spec fn line_step(game: Seq<char>, line: Seq<char>) -> (Option<Seq<char>>, Seq<char>) {
    if game.len() == 0 && is_blank(line) {
        (None, game)
    } else if starts_game(line) && game.len() > 0 {
        (Some(game), line)
    } else {
        (None, game + line)
    }
}

/// The games handed out while the first `n` lines are read, and the game
/// that is being read after them.
pub open spec fn read_state(lines: Seq<Seq<char>>, n: int) -> (Seq<Seq<char>>, Seq<char>)
    decreases n,
{
    if n <= 0 {
        (Seq::empty(), Seq::empty())
    } else {
        let (games, game) = read_state(lines, n - 1);
        match line_step(game, lines[n - 1]).0 {
            Some(done) => (games.push(done), line_step(game, lines[n - 1]).1),
            None => (games, line_step(game, lines[n - 1]).1),
        }
    }
}

/// The game that is handed out at the end of the lines: the game that is
/// being read, if it is more than white space.
pub open spec fn last_game(game: Seq<char>) -> Option<Seq<char>> {
    if is_blank(game) {
        None
    } else {
        Some(game)
    }
}

/// The games of a file, given by its lines.
pub open spec fn games_of(lines: Seq<Seq<char>>) -> Seq<Seq<char>> {
    let (games, game) = read_state(lines, lines.len() as int);
    match last_game(game) {
        Some(done) => games.push(done),
        None => games,
    }
}

/// Texts put one after the other.
pub open spec fn joined(texts: Seq<Seq<char>>) -> Seq<char>
    decreases texts.len(),
{
    if texts.len() == 0 {
        Seq::empty()
    } else {
        joined(texts.drop_last()) + texts.last()
    }
}

/// Those of the first `n` lines that are not skipped: all but the blank
/// lines that come while no game has begun.
pub open spec fn kept_lines(lines: Seq<Seq<char>>, n: int) -> Seq<Seq<char>>
    decreases n,
{
    if n <= 0 {
        Seq::empty()
    } else if read_state(lines, n - 1).1.len() == 0 && is_blank(lines[n - 1]) {
        kept_lines(lines, n - 1)
    } else {
        kept_lines(lines, n - 1).push(lines[n - 1])
    }
}

/// No line is lost between the games: the games handed out and the game
/// that is being read, put one after the other, are the lines read without
/// those that were skipped; and a game that has begun is more than white
/// space.
pub proof fn lemma_read_state(lines: Seq<Seq<char>>, n: int)
    requires
        0 <= n <= lines.len(),
    ensures
        joined(read_state(lines, n).0) + read_state(lines, n).1 == joined(kept_lines(lines, n)),
        read_state(lines, n).1.len() == 0 || !is_blank(read_state(lines, n).1),
    decreases n,
{
    if n > 0 {
        lemma_read_state(lines, n - 1);
        let (games, game) = read_state(lines, n - 1);
        let line = lines[n - 1];
        let kept = kept_lines(lines, n - 1);
        if game.len() == 0 && is_blank(line) {
        } else if starts_game(line) && game.len() > 0 {
            assert(games.push(game).drop_last() =~= games);
            assert(kept.push(line).drop_last() =~= kept);
            assert(line[0] == '[');
            assert(!is_whitespace(line[0]));
        } else {
            assert(kept.push(line).drop_last() =~= kept);
            assert(joined(games) + (game + line) =~= joined(games) + game + line);
            if game.len() == 0 {
                let i = choose|i: int| 0 <= i < line.len() && !is_whitespace(#[trigger] line[i]);
                assert((game + line)[i] == line[i]);
            } else {
                let i = choose|i: int| 0 <= i < game.len() && !is_whitespace(#[trigger] game[i]);
                assert((game + line)[i] == game[i]);
            }
        }
    }
}

/// The games of a file, put one after the other, are its lines without the
/// blank lines that come before a game begins.
pub proof fn lemma_games_keep_lines(lines: Seq<Seq<char>>)
    ensures
        joined(games_of(lines)) == joined(kept_lines(lines, lines.len() as int)),
{
    lemma_read_state(lines, lines.len() as int);
    let (games, game) = read_state(lines, lines.len() as int);
    if is_blank(game) {
        assert(joined(games) + game =~= joined(games));
    } else {
        assert(games.push(game).drop_last() =~= games);
    }
}

/// Whether a text holds white space alone.
pub fn blank(s: &str) -> (r: bool)
    ensures
        r == is_blank(s@),
{
    let chars = chars_of(s);
    let mut i: usize = 0;
    while i < chars.len()
        invariant
            i <= chars@.len(),
            chars@ == s@,
            forall|j: int| 0 <= j < i ==> is_whitespace(#[trigger] chars@[j]),
        decreases chars@.len() - i,
    {
        let c = chars[i];
        let white = ('\u{9}' <= c && c <= '\u{D}') || c == ' ' || c == '\u{85}' || c == '\u{A0}'
            || c == '\u{1680}' || ('\u{2000}' <= c && c <= '\u{200A}') || c == '\u{2028}' || c
            == '\u{2029}' || c == '\u{202F}' || c == '\u{205F}' || c == '\u{3000}';
        if !white {
            return false;
        }
        i = i + 1;
    }
    true
}

/// Whether a line begins with `[Event`.
pub fn begins_game(line: &str) -> (r: bool)
    ensures
        r == starts_game(line@),
{
    let chars = chars_of(line);
    if chars.len() < 6 {
        return false;
    }
    let r = chars[0] == '[' && chars[1] == 'E' && chars[2] == 'v' && chars[3] == 'e' && chars[4]
        == 'n' && chars[5] == 't';
    assert(r == (line@.take(6) =~= seq!['[', 'E', 'v', 'e', 'n', 't']));
    r
}

/// Reads the games of a file line by line.
pub struct GameReader {
    game: String,
}

impl GameReader {
    /// The game that is being read.
    pub closed spec fn game(&self) -> Seq<char> {
        self.game@
    }

    /// A reader that has read nothing.
    pub fn new() -> (r: GameReader)
        ensures
            r.game() == Seq::<char>::empty(),
    {
        GameReader { game: String::new() }
    }

    /// Takes the next line and hands out the game that the line ends, if
    /// it ends one; the line then opens the next game.
    pub fn feed(&mut self, line: &str) -> (r: Option<String>)
        ensures
            match r {
                Some(done) => line_step(old(self).game(), line@).0 == Some(done@),
                None => line_step(old(self).game(), line@).0.is_none(),
            },
            final(self).game() == line_step(old(self).game(), line@).1,
    {
        if self.game.as_str().is_empty() && blank(line) {
            None
        } else if begins_game(line) && !self.game.as_str().is_empty() {
            let done = self.game.clone();
            self.game = line.to_owned();
            Some(done)
        } else {
            self.game.append(line);
            None
        }
    }

    /// Hands out the game that is being read when the lines have ended, if
    /// it is more than white space, and begins anew.
    pub fn finish(&mut self) -> (r: Option<String>)
        ensures
            match r {
                Some(done) => last_game(old(self).game()) == Some(done@),
                None => last_game(old(self).game()).is_none(),
            },
            final(self).game() == Seq::<char>::empty(),
    {
        let done = self.game.clone();
        self.game = String::new();
        if blank(done.as_str()) {
            None
        } else {
            Some(done)
        }
    }
}

} // verus!
