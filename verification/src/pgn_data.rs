//! A game in reduced export format: the seven mandatory tags and the moves
//! in standard algebraic notation, and the text that stands for it.

use vstd::prelude::*;

verus! {

/// `String::push`: appends one character.
pub assume_specification[ String::push ](s: &mut String, c: char)
    ensures
        final(s)@ == old(s)@.push(c),
;

/// The text of the seven tags.
pub struct HeadersView {
    pub event: Seq<char>,
    pub site: Seq<char>,
    pub date: Seq<char>,
    pub round: Seq<char>,
    pub white: Seq<char>,
    pub black: Seq<char>,
    pub result: Seq<char>,
}

/// The text of a game: its tags and its moves.
pub struct GameView {
    pub headers: HeadersView,
    pub moves: Seq<Seq<char>>,
}

/// The values of the seven mandatory tags.
#[derive(Debug, Clone, PartialEq, Eq)]
pub struct PgnHeaders {
    pub event: String,
    pub site: String,
    pub date: String,
    pub round: String,
    pub white: String,
    pub black: String,
    pub result: String,
}

/// A move in standard algebraic notation, with its suffix.
#[derive(Debug, Clone, PartialEq, Eq)]
pub struct SanPlusWrapper(pub String);

/// The tags and the moves of one game.
#[derive(Debug, Clone, PartialEq, Eq)]
pub struct PgnData {
    pub headers: PgnHeaders,
    pub moves: Vec<SanPlusWrapper>,
}

impl View for PgnHeaders {
    type V = HeadersView;

    open spec fn view(&self) -> HeadersView {
        HeadersView {
            event: self.event@,
            site: self.site@,
            date: self.date@,
            round: self.round@,
            white: self.white@,
            black: self.black@,
            result: self.result@,
        }
    }
}

impl View for SanPlusWrapper {
    type V = Seq<char>;

    open spec fn view(&self) -> Seq<char> {
        self.0@
    }
}

/// The texts of a list of moves.
pub open spec fn moves_text(moves: Seq<SanPlusWrapper>) -> Seq<Seq<char>> {
    Seq::new(moves.len(), |i: int| moves[i]@)
}

impl View for PgnData {
    type V = GameView;

    open spec fn view(&self) -> GameView {
        GameView { headers: self.headers@, moves: moves_text(self.moves@) }
    }
}

impl HeadersView {
    /// The tags without any text.
    pub open spec fn empty() -> HeadersView {
        HeadersView {
            event: Seq::empty(),
            site: Seq::empty(),
            date: Seq::empty(),
            round: Seq::empty(),
            white: Seq::empty(),
            black: Seq::empty(),
            result: Seq::empty(),
        }
    }

    /// All seven tags are without text.
    pub open spec fn is_empty(self) -> bool {
        &&& self.event.len() == 0
        &&& self.site.len() == 0
        &&& self.date.len() == 0
        &&& self.round.len() == 0
        &&& self.white.len() == 0
        &&& self.black.len() == 0
        &&& self.result.len() == 0
    }

    /// The tags with the value of the tag named `key` replaced; a key that is
    /// none of the seven names changes nothing.
    pub open spec fn with_tag(self, key: Seq<char>, value: Seq<char>) -> HeadersView {
        if key == "Event"@ {
            HeadersView { event: value, ..self }
        } else if key == "Site"@ {
            HeadersView { site: value, ..self }
        } else if key == "Date"@ {
            HeadersView { date: value, ..self }
        } else if key == "Round"@ {
            HeadersView { round: value, ..self }
        } else if key == "White"@ {
            HeadersView { white: value, ..self }
        } else if key == "Black"@ {
            HeadersView { black: value, ..self }
        } else if key == "Result"@ {
            HeadersView { result: value, ..self }
        } else {
            self
        }
    }
}

/// Whether two texts are the same.
pub fn str_equal(a: &str, b: &str) -> (r: bool)
    ensures
        r == (a@ == b@),
{
    let x = a.to_owned();
    let y = b.to_owned();
    x == y
}

impl PgnHeaders {
    /// Seven tags without text.
    pub fn new() -> (r: PgnHeaders)
        ensures
            r@ == HeadersView::empty(),
    {
        PgnHeaders {
            event: String::new(),
            site: String::new(),
            date: String::new(),
            round: String::new(),
            white: String::new(),
            black: String::new(),
            result: String::new(),
        }
    }

    /// Whether all seven tags are without text.
    pub fn is_empty(&self) -> (r: bool)
        ensures
            r == self@.is_empty(),
    {
        self.event.as_str().is_empty() && self.site.as_str().is_empty()
            && self.date.as_str().is_empty() && self.round.as_str().is_empty()
            && self.white.as_str().is_empty() && self.black.as_str().is_empty()
            && self.result.as_str().is_empty()
    }

    /// A copy of the tags.
    pub fn copy(&self) -> (r: PgnHeaders)
        ensures
            r@ == self@,
    {
        PgnHeaders {
            event: self.event.clone(),
            site: self.site.clone(),
            date: self.date.clone(),
            round: self.round.clone(),
            white: self.white.clone(),
            black: self.black.clone(),
            result: self.result.clone(),
        }
    }
}

impl PgnData {
    /// A game without tags and without moves.
    pub fn new() -> (r: PgnData)
        ensures
            r@.headers == HeadersView::empty(),
            r@.moves.len() == 0,
    {
        let r = PgnData { headers: PgnHeaders::new(), moves: Vec::new() };
        assert(r@.moves =~= Seq::empty());
        r
    }

    /// Whether the game has neither tags nor moves.
    pub fn is_empty(&self) -> (r: bool)
        ensures
            r == (self@.headers.is_empty() && self@.moves.len() == 0),
    {
        self.headers.is_empty() && self.moves.len() == 0
    }

    /// Clears the seven tags and keeps the moves.
    pub fn clear_headers(&mut self)
        ensures
            final(self)@.headers == HeadersView::empty(),
            final(self)@.moves == old(self)@.moves,
            final(self).moves == old(self).moves,
    {
        self.headers = PgnHeaders::new();
    }
}

/// Collects what a reader of game text reports, tag by tag and move by
/// move, into a game.
pub struct PgnVisitor {
    data: PgnData,
}

impl PgnVisitor {
    /// The game collected so far.
    pub closed spec fn game(&self) -> GameView {
        self.data@
    }

    /// A visitor that has seen nothing.
    pub fn new() -> (r: PgnVisitor)
        ensures
            r.game().headers == HeadersView::empty(),
            r.game().moves.len() == 0,
    {
        PgnVisitor { data: PgnData::new() }
    }

    /// Takes a tag: one of the seven mandatory tags replaces the value held
    /// for it, any other tag is dropped.
    pub fn header(&mut self, key: &str, value: &str)
        ensures
            final(self).game().headers == old(self).game().headers.with_tag(key@, value@),
            final(self).game().moves == old(self).game().moves,
    {
        if str_equal(key, "Event") {
            self.data.headers.event = value.to_owned();
        } else if str_equal(key, "Site") {
            self.data.headers.site = value.to_owned();
        } else if str_equal(key, "Date") {
            self.data.headers.date = value.to_owned();
        } else if str_equal(key, "Round") {
            self.data.headers.round = value.to_owned();
        } else if str_equal(key, "White") {
            self.data.headers.white = value.to_owned();
        } else if str_equal(key, "Black") {
            self.data.headers.black = value.to_owned();
        } else if str_equal(key, "Result") {
            self.data.headers.result = value.to_owned();
        }
    }

    /// Takes the next move.
    pub fn san(&mut self, san: &str)
        ensures
            final(self).game().headers == old(self).game().headers,
            final(self).game().moves == old(self).game().moves.push(san@),
    {
        self.data.moves.push(SanPlusWrapper(san.to_owned()));
        assert(self.data@.moves =~= old(self).data@.moves.push(san@));
    }

    /// The game that was collected.
    pub fn end_game(&self) -> (r: PgnData)
        ensures
            r@ == self.game(),
    {
        let mut moves: Vec<SanPlusWrapper> = Vec::new();
        let mut i: usize = 0;
        while i < self.data.moves.len()
            invariant
                i <= self.data.moves@.len(),
                moves@.len() == i,
                forall|j: int| 0 <= j < i ==> moves@[j]@ == self.data.moves@[j]@,
            decreases self.data.moves@.len() - i,
        {
            moves.push(SanPlusWrapper(self.data.moves[i].0.clone()));
            i = i + 1;
        }
        let r = PgnData { headers: self.data.headers.copy(), moves };
        assert(r@.moves =~= self.data@.moves);
        r
    }
}

/// A text filled into lines of at most `width` columns, as the `textwrap`
/// crate breaks it.
pub uninterp spec fn wrapped_text(text: Seq<char>, width: usize) -> Seq<char>;

/// `textwrap::fill`: the text with its lines broken at word boundaries so
/// that none is wider than `width`.
#[verifier::external_body]
fn fill(text: &str, width: usize) -> (r: String)
    ensures
        r@ == wrapped_text(text@, width),
{
    textwrap::fill(text, width)
}

/// The digit that stands for a number below ten.
pub open spec fn digit(d: int) -> char {
    ((48 + d) as u8) as char
}

/// A number in decimal digits.
pub open spec fn decimal(n: nat) -> Seq<char>
    decreases n,
{
    if n < 10 {
        seq![digit(n as int)]
    } else {
        decimal(n / 10).push(digit((n % 10) as int))
    }
}

/// The line of a tag: its name and, in quotes, its value, in brackets.
pub open spec fn tag_text(name: Seq<char>, value: Seq<char>) -> Seq<char> {
    "["@ + name + " \""@ + value + "\"]\n"@
}

/// The text of the first `n` moves: every move is followed by a blank, and
/// every move of White is preceded by the number of the move and ". ".
pub open spec fn movetext(moves: Seq<Seq<char>>, n: int) -> Seq<char>
    decreases n,
{
    if n <= 0 {
        Seq::empty()
    } else if (n - 1) % 2 == 0 {
        movetext(moves, n - 1) + decimal(((n - 1) / 2 + 1) as nat) + ". "@ + moves[n - 1] + " "@
    } else {
        movetext(moves, n - 1) + moves[n - 1] + " "@
    }
}

/// The text of a game before its lines are broken: the seven tags, an
/// empty line, the moves and the result.
pub open spec fn game_text(game: GameView) -> Seq<char> {
    tag_text("Event"@, game.headers.event) + tag_text("Site"@, game.headers.site) + tag_text(
        "Date"@,
        game.headers.date,
    ) + tag_text("Round"@, game.headers.round) + tag_text("White"@, game.headers.white)
        + tag_text("Black"@, game.headers.black) + tag_text("Result"@, game.headers.result)
        + "\n"@ + movetext(game.moves, game.moves.len() as int) + game.headers.result
}

/// Writes a number in decimal digits to the end of a text.
pub fn push_decimal(s: &mut String, n: usize)
    ensures
        final(s)@ == old(s)@ + decimal(n as nat),
    decreases n,
{
    if n < 10 {
        s.push((48u8 + n as u8) as char);
        assert(s@ =~= old(s)@ + decimal(n as nat));
    } else {
        push_decimal(s, n / 10);
        s.push((48u8 + (n % 10) as u8) as char);
        assert(s@ =~= old(s)@ + decimal(n as nat));
    }
}

/// Writes the line of a tag to the end of a text.
fn push_tag(s: &mut String, name: &str, value: &str)
    ensures
        final(s)@ == old(s)@ + tag_text(name@, value@),
{
    s.append("[");
    s.append(name);
    s.append(" \"");
    s.append(value);
    s.append("\"]\n");
    assert(s@ =~= old(s)@ + tag_text(name@, value@));
}

impl PgnData {
    /// The text of the game in export format: the tags, an empty line and
    /// the numbered moves with the result, in lines of at most 80 columns.
    pub fn to_string(&self) -> (r: String)
        ensures
            r@ == wrapped_text(game_text(self@), 80),
    {
        let mut s = String::new();
        push_tag(&mut s, "Event", self.headers.event.as_str());
        push_tag(&mut s, "Site", self.headers.site.as_str());
        push_tag(&mut s, "Date", self.headers.date.as_str());
        push_tag(&mut s, "Round", self.headers.round.as_str());
        push_tag(&mut s, "White", self.headers.white.as_str());
        push_tag(&mut s, "Black", self.headers.black.as_str());
        push_tag(&mut s, "Result", self.headers.result.as_str());
        s.append("\n");
        let ghost head = s@;
        let mut i: usize = 0;
        assert(s@ =~= head + movetext(self@.moves, 0));
        while i < self.moves.len()
            invariant
                i <= self.moves@.len(),
                s@ == head + movetext(self@.moves, i as int),
            decreases self.moves@.len() - i,
        {
            let ghost before = s@;
            if i % 2 == 0 {
                push_decimal(&mut s, i / 2 + 1);
                s.append(". ");
            }
            s.append(self.moves[i].0.as_str());
            s.append(" ");
            i = i + 1;
            assert(s@ =~= head + movetext(self@.moves, i as int));
        }
        s.append(self.headers.result.as_str());
        assert(s@ =~= game_text(self@)) by {
            assert(head =~= tag_text("Event"@, self@.headers.event) + tag_text(
                "Site"@,
                self@.headers.site,
            ) + tag_text("Date"@, self@.headers.date) + tag_text("Round"@, self@.headers.round)
                + tag_text("White"@, self@.headers.white) + tag_text(
                "Black"@,
                self@.headers.black,
            ) + tag_text("Result"@, self@.headers.result) + "\n"@);
        }
        fill(s.as_str(), 80)
    }
}

} // verus!
