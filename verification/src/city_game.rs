use vstd::prelude::*;
use std::collections::VecDeque;
use crate::text::{chars_of, normalized, trim_and_lowercase};

verus! {

/// The phase of a game.
#[derive(Clone, Copy, Debug, PartialEq, Eq, Structural)]
pub enum GameStage {
    Start,
    Play,
    End,
}

/// A game of cities: each player in turn names a city that starts with the
/// last letter of the previous one; no city may be named twice.
pub struct GameState {
    pub stage: GameStage,
    /// The players, the one whose turn it is first.
    pub players: VecDeque<String>,
    /// The cities named so far, each once.
    pub cities: Vec<String>,
    pub current_word: String,
    pub last_char: char,
}

/// What became of a guess.
#[derive(Clone, Copy, Debug, PartialEq, Eq, Structural)]
pub enum TurnOutcome {
    /// A new city with the right first letter: it is now the current word,
    /// and the player goes to the end of the line.
    Accepted,
    /// The city was named before; the same player tries again.
    AlreadyGuessed,
    /// The first letter is not the one asked for; the same player tries
    /// again.
    WrongLetter { expected: char, got: char },
}

/// The character views of a sequence of strings.
pub open spec fn views_of(s: Seq<String>) -> Seq<Seq<char>> {
    s.map_values(|x: String| x@)
}

/// No element occurs twice.
pub open spec fn distinct(s: Seq<Seq<char>>) -> bool {
    forall|i: int, j: int| 0 <= i < j < s.len() ==> s[i] != s[j]
}

/// The verdict on a non-empty guess, given the cities named so far and the
/// letter asked for.
pub open spec fn turn_outcome(cities: Seq<Seq<char>>, last_char: char, guess: Seq<char>) -> TurnOutcome {
    if guess[0] != last_char {
        TurnOutcome::WrongLetter { expected: last_char, got: guess[0] }
    } else if cities.contains(guess) {
        TurnOutcome::AlreadyGuessed
    } else {
        TurnOutcome::Accepted
    }
}

fn contains_string(v: &Vec<String>, s: &String) -> (r: bool)
    ensures
        r == views_of(v@).contains(s@),
{
    let mut i: usize = 0;
    while i < v.len()
        invariant
            i <= v.len(),
            forall|j: int| 0 <= j < i ==> (#[trigger] v@[j])@ != s@,
        decreases v.len() - i,
    {
        if v[i] == *s {
            assert(views_of(v@)[i as int] == s@);
            return true;
        }
        i = i + 1;
    }
    assert forall|j: int| 0 <= j < views_of(v@).len() implies views_of(v@)[j] != s@ by {
        assert(views_of(v@)[j] == v@[j]@);
    }
    false
}

impl GameState {
    /// The cities named so far are distinct.
    pub open spec fn wf(&self) -> bool {
        distinct(views_of(self.cities@))
    }

    /// The opening position: two players, the word "abobus" already named,
    /// so the next city must start with 's'.
    pub fn new() -> (g: GameState)
        ensures
            g.wf(),
            g.stage == GameStage::Start,
            g.players@.len() == 2,
            views_of(g.players@) == seq!["Player1"@, "Player2"@],
            views_of(g.cities@) == seq!["abobus"@],
            g.current_word@ == "abobus"@,
            g.last_char == 's',
    {
        let mut players: VecDeque<String> = VecDeque::new();
        players.push_back(String::from_str("Player1"));
        players.push_back(String::from_str("Player2"));
        let word = String::from_str("abobus");
        let mut cities: Vec<String> = Vec::new();
        cities.push(word.clone());
        let g = GameState { stage: GameStage::Start, players, cities, current_word: word, last_char: 's' };
        assert(views_of(g.players@) =~= seq!["Player1"@, "Player2"@]);
        assert(views_of(g.cities@) =~= seq!["abobus"@]);
        g
    }

    /// With at most one player left, the game names its winner: the
    /// remaining player, who leaves the line, or "NO ONE".
    pub fn announce_winner(&mut self) -> (w: Option<String>)
        ensures
            w is Some <==> old(self).players@.len() <= 1,
            final(self).cities == old(self).cities,
            final(self).current_word == old(self).current_word,
            final(self).last_char == old(self).last_char,
            final(self).stage == old(self).stage,
            match w {
                Some(name) => if old(self).players@.len() == 1 {
                    name == old(self).players@[0] && final(self).players@.len() == 0
                } else {
                    name@ == "NO ONE"@ && final(self).players@ == old(self).players@
                },
                None => final(self).players@ == old(self).players@,
            },
    {
        if self.players.len() <= 1 {
            match self.players.pop_front() {
                Some(p) => Some(p),
                None => Some(String::from_str("NO ONE")),
            }
        } else {
            None
        }
    }

    /// Plays one turn of the player in front with a normalized, non-empty
    /// guess.
    pub fn play_turn(&mut self, guess: String) -> (o: TurnOutcome)
        requires
            old(self).wf(),
            old(self).players@.len() > 0,
            guess@.len() > 0,
        ensures
            final(self).wf(),
            o == turn_outcome(views_of(old(self).cities@), old(self).last_char, guess@),
            final(self).stage == old(self).stage,
            o is Accepted ==> {
                &&& final(self).cities@ == old(self).cities@.push(guess)
                &&& final(self).current_word == guess
                &&& final(self).last_char == guess@.last()
                &&& final(self).players@ == old(self).players@.drop_first().push(old(self).players@[0])
            },
            !(o is Accepted) ==> {
                &&& final(self).cities == old(self).cities
                &&& final(self).current_word == old(self).current_word
                &&& final(self).last_char == old(self).last_char
                &&& final(self).players@ == old(self).players@
            },
    {
        let ghost old_players = self.players@;
        let current_player = self.players.pop_front().unwrap();
        let chars = chars_of(guess.as_str());
        let first_char = chars[0];
        if first_char == self.last_char {
            if contains_string(&self.cities, &guess) {
                self.players.push_front(current_player);
                assert(self.players@ =~= old_players);
                return TurnOutcome::AlreadyGuessed;
            }
            let last = chars[chars.len() - 1];
            let ghost old_cities = views_of(self.cities@);
            self.current_word = guess.clone();
            self.cities.push(guess);
            assert(views_of(self.cities@) =~= old_cities.push(self.current_word@));
            self.last_char = last;
            self.players.push_back(current_player);
            assert(self.players@ =~= old_players.drop_first().push(old_players[0]));
            TurnOutcome::Accepted
        } else {
            self.players.push_front(current_player);
            assert(self.players@ =~= old_players);
            TurnOutcome::WrongLetter { expected: self.last_char, got: first_char }
        }
    }

    /// Plays one turn with a raw answer. `None`, with nothing changed, when
    /// no player is left or the answer is blank: the turn cannot be played.
    pub fn take_turn(&mut self, raw: &str) -> (o: Option<TurnOutcome>)
        requires
            old(self).wf(),
        ensures
            final(self).wf(),
            o is None <==> (old(self).players@.len() == 0 || normalized(raw@).len() == 0),
            o is None ==> {
                &&& final(self).cities == old(self).cities
                &&& final(self).current_word == old(self).current_word
                &&& final(self).last_char == old(self).last_char
                &&& final(self).players@ == old(self).players@
            },
            o matches Some(t) ==> t == turn_outcome(views_of(old(self).cities@), old(self).last_char, normalized(raw@)),
            o matches Some(t) && t is Accepted ==> {
                &&& views_of(final(self).cities@) == views_of(old(self).cities@).push(normalized(raw@))
                &&& final(self).current_word@ == normalized(raw@)
                &&& final(self).last_char == normalized(raw@).last()
                &&& final(self).players@ == old(self).players@.drop_first().push(old(self).players@[0])
            },
            o matches Some(t) && !(t is Accepted) ==> {
                &&& final(self).cities == old(self).cities
                &&& final(self).current_word == old(self).current_word
                &&& final(self).last_char == old(self).last_char
                &&& final(self).players@ == old(self).players@
            },
    {
        let guess = trim_and_lowercase(raw);
        if self.players.len() == 0 || guess.as_str().is_empty() {
            return None;
        }
        let ghost g = guess;
        let ghost old_cities = self.cities@;
        let t = self.play_turn(guess);
        proof {
            if t is Accepted {
                assert(views_of(self.cities@) =~= views_of(old_cities).push(g@));
            }
        }
        Some(t)
    }
}

/// A city that has been accepted is refused in every later turn: the list
/// of named cities only grows at its end, and a named city is never
/// accepted.
pub proof fn law_accepted_city_is_never_accepted_again(
    cities: Seq<Seq<char>>,
    later: Seq<Seq<char>>,
    letter: char,
    later_letter: char,
    city: Seq<char>,
)
    requires
        city.len() > 0,
        turn_outcome(cities, letter, city) is Accepted,
        cities.len() < later.len(),
        later.take(cities.len() as int + 1) == cities.push(city),
    ensures
        !(turn_outcome(later, later_letter, city) is Accepted),
{
    assert(later[cities.len() as int] == later.take(cities.len() as int + 1)[cities.len() as int]);
    assert(later.contains(city));
}

} // verus!
