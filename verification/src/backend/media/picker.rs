//! Which of several media players to show, and for how long.

use crate::backend::media::player;
use crate::backend::media::player::{
    guess_app_id, is_playing, matches_preferred, parse_state, PlayerState, MPRIS_PREFIX,
    PLAYER_IFACE,
};
use crate::backend::media::properties;
use crate::backend::media::properties::PropValue;
use crate::text;
use vstd::prelude::*;

verus! {

/// The bus name of a media player.
pub open spec fn is_player(name: Seq<char>) -> bool {
    text::begins_with(name, MPRIS_PREFIX@)
}

/// The media players among bus names, in their order.
pub open spec fn players(names: Seq<String>) -> Seq<String> {
    names.filter(|name: String| is_player(name@))
}

/// The media players among the names on the bus.
pub fn mpris_candidates(names: &Vec<String>) -> (res: Vec<String>)
    ensures
        res@ == players(names@),
{
    let mut res: Vec<String> = Vec::new();
    let mut i: usize = 0;
    proof {
        reveal(Seq::filter);
    }
    assert(names@.take(0) =~= Seq::empty());
    while i < names.len()
        invariant
            i <= names.len(),
            res@ == players(names@.take(i as int)),
        decreases names.len() - i,
    {
        proof {
            reveal(Seq::filter);
        }
        assert(names@.take(i + 1).drop_last() =~= names@.take(i as int));
        if text::starts_with(&names[i], MPRIS_PREFIX) {
            res.push(names[i].clone());
        }
        i = i + 1;
    }
    assert(names@.take(names@.len() as int) =~= names@);
    res
}

/// A player whose name has just been taken on the bus, if that is what has
/// happened.
pub fn appeared(name: &str, owned: bool) -> (res: Option<String>)
    ensures
        res is Some == (is_player(name@) && owned),
        res matches Some(n) ==> n@ == name@,
{
    if text::starts_with(name, MPRIS_PREFIX) && owned {
        Some(name.to_owned())
    } else {
        None
    }
}

/// `at` is the first place from `from` on where `pick` holds.
pub open spec fn first_from(n: int, from: int, pick: spec_fn(int) -> bool) -> Option<int>
    decreases n - from,
{
    if from >= n {
        None
    } else if pick(from) {
        Some(from)
    } else {
        first_from(n, from + 1, pick)
    }
}

/// The player to show: the first that the user prefers; else the first that
/// plays; else the first.
pub open spec fn best(
    candidates: Seq<String>,
    pattern: Seq<char>,
    plays: spec_fn(int) -> bool,
) -> Option<int> {
    match first_preferred(candidates, pattern) {
        Some(i) => Some(i),
        None => match first_from(candidates.len() as int, 0, plays) {
            Some(i) => Some(i),
            None => if candidates.len() > 0 {
                Some(0)
            } else {
                None
            },
        },
    }
}

/// The first player that the user prefers.
pub open spec fn first_preferred(candidates: Seq<String>, pattern: Seq<char>) -> Option<int> {
    first_from(
        candidates.len() as int,
        0,
        |i: int| player::prefers(candidates[i]@, pattern),
    )
}

/// The next thing to do in order to find the player to show.
pub enum Pick {
    /// This is the one.
    Chosen(Option<usize>),
    /// Ask this one for its playback status.
    Ask(usize),
}

/// The search for the player to show.
pub struct Picker {
    pub candidates: Vec<String>,
    /// The candidate that is asked at the moment.
    pub asked: usize,
}

impl Picker {
    /// Start the search.
    pub fn new(candidates: Vec<String>, pattern: &str) -> (res: (Picker, Pick))
        ensures
            res.0.candidates == candidates,
            res.0.asked == 0,
            res.1 == (match first_preferred(candidates@, pattern@) {
                Some(i) => Pick::Chosen(Some(i as usize)),
                None => if candidates@.len() > 0 {
                    Pick::Ask(0)
                } else {
                    Pick::Chosen(None)
                },
            }),
    {
        let ghost pick = |i: int| player::prefers(candidates@[i]@, pattern@);
        let mut i: usize = 0;
        while i < candidates.len()
            invariant
                i <= candidates.len(),
                pick == (|i: int| player::prefers(candidates@[i]@, pattern@)),
                first_from(candidates@.len() as int, 0, pick) == first_from(
                    candidates@.len() as int,
                    i as int,
                    pick,
                ),
            decreases candidates.len() - i,
        {
            if matches_preferred(&candidates[i], pattern) {
                assert(pick(i as int));
                return (Picker { candidates, asked: 0 }, Pick::Chosen(Some(i)));
            }
            assert(!pick(i as int));
            i = i + 1;
        }
        if candidates.len() > 0 {
            (Picker { candidates, asked: 0 }, Pick::Ask(0))
        } else {
            (Picker { candidates, asked: 0 }, Pick::Chosen(None))
        }
    }

    /// The asked player has told its status; `None` if it told none.
    pub fn answer(&mut self, status: Option<&str>) -> (res: Pick)
        requires
            old(self).asked < old(self).candidates@.len(),
        ensures
            final(self).candidates == old(self).candidates,
            ({
                let playing = status matches Some(s) && s@ == "Playing"@;
                let more = old(self).asked + 1 < old(self).candidates@.len();
                &&& final(self).asked == if !playing && more {
                    old(self).asked + 1
                } else {
                    old(self).asked as int
                }
                &&& res == if playing {
                    Pick::Chosen(Some(old(self).asked))
                } else if more {
                    Pick::Ask((old(self).asked + 1) as usize)
                } else {
                    Pick::Chosen(Some(0))
                }
            }),
    {
        let playing: bool = match status {
            Some(s) => text::same_text(s, "Playing"),
            None => false,
        };
        if playing {
            Pick::Chosen(Some(self.asked))
        } else if self.asked < self.candidates.len() - 1 {
            self.asked = self.asked + 1;
            Pick::Ask(self.asked)
        } else {
            Pick::Chosen(Some(0))
        }
    }
}

/// What the search comes to from candidate `asked` on, if exactly the players
/// in `plays` answer that they play.
pub open spec fn answered(n: int, asked: int, plays: spec_fn(int) -> bool) -> int
    decreases n - asked,
{
    if plays(asked) {
        asked
    } else if asked + 1 < n {
        answered(n, asked + 1, plays)
    } else {
        0
    }
}

/// Whatever the players answer, the search ends with the player to show.
pub proof fn search_finds_best(
    candidates: Seq<String>,
    pattern: Seq<char>,
    plays: spec_fn(int) -> bool,
)
    ensures
        best(candidates, pattern, plays) == (match first_preferred(candidates, pattern) {
            Some(i) => Some(i),
            None => if candidates.len() > 0 {
                Some(answered(candidates.len() as int, 0, plays))
            } else {
                None
            },
        }),
{
    if candidates.len() > 0 {
        lemma_answered(candidates.len() as int, 0, plays);
    }
}

proof fn lemma_answered(n: int, asked: int, plays: spec_fn(int) -> bool)
    requires
        0 <= asked < n,
    ensures
        answered(n, asked, plays) == (match first_from(n, asked, plays) {
            Some(i) => i,
            None => 0,
        }),
    decreases n - asked,
{
    reveal_with_fuel(first_from, 2);
    if asked + 1 < n {
        lemma_answered(n, asked + 1, plays);
    }
}

/// How the watch over a player has ended.
pub enum PlayerOutcome {
    /// It has left the bus.
    Gone,
    /// Another player is to be shown in its place.
    Switch(String),
    /// The bus connection was lost.
    Error,
}

/// What to watch after the watch over a player has ended: a player, or `None`
/// to wait for one to appear. `Err` if the connection has to be made anew.
pub fn after_watching(outcome: PlayerOutcome) -> (next: Result<Option<String>, ()>)
    ensures
        next == (match outcome {
            PlayerOutcome::Gone => Ok(None),
            PlayerOutcome::Switch(name) => Ok(Some(name)),
            PlayerOutcome::Error => Err(()),
        }),
{
    match outcome {
        PlayerOutcome::Gone => Ok(None),
        PlayerOutcome::Switch(name) => Ok(Some(name)),
        PlayerOutcome::Error => Err(()),
    }
}

/// The watch over one player.
pub struct PlayerWatch {
    pub name: String,
    pub desktop_entry: String,
    pub can_raise: bool,
    pub playing: bool,
}

impl PlayerWatch {
    /// Begin to watch a player. Its app id and whether it can be raised stay the
    /// same for its lifetime; where it tells no app id, its name gives a guess.
    pub fn new(
        name: &str,
        desktop_entry: Option<String>,
        can_raise: Option<bool>,
        props: &Vec<(String, PropValue)>,
    ) -> (res: (PlayerWatch, PlayerState))
        ensures
            res.0.name@ == name@,
            res.0.desktop_entry@ == (match desktop_entry {
                Some(entry) => if entry@.len() > 0 {
                    entry@
                } else {
                    text::before(player::unprefixed(name@), '.')
                },
                None => text::before(player::unprefixed(name@), '.'),
            }),
            res.0.can_raise == (can_raise == Some(true)),
            res.0.shows(res.1, properties::properties(props@)),
    {
        let entry: String = match desktop_entry {
            Some(entry) => if text::is_empty(&entry) {
                guess_app_id(name)
            } else {
                entry
            },
            None => guess_app_id(name),
        };
        let raise: bool = match can_raise {
            Some(b) => b,
            None => false,
        };
        let state: PlayerState = parse_state(name, props, &entry, raise);
        (
            PlayerWatch {
                name: name.to_owned(),
                desktop_entry: entry,
                can_raise: raise,
                playing: is_playing(props),
            },
            state,
        )
    }

    /// `state` is what a player with these properties is shown as, and the watch
    /// knows whether it plays.
    pub open spec fn shows(self, state: PlayerState, props: Map<Seq<char>, PropValue>) -> bool {
        &&& state.describes(self.name@, props, self.desktop_entry@, self.can_raise)
        &&& self.playing == (state.status == player::PlaybackStatus::Playing)
    }

    /// Look for another player from time to time: while this one is idle, or
    /// while the user prefers another.
    pub open spec fn looks_around(self, pattern: Seq<char>) -> bool {
        !self.playing || (pattern.len() > 0 && !player::prefers(self.name@, pattern))
    }

    /// Whether to look for another player from time to time.
    pub fn needs_recheck(&self, pattern: &str) -> (res: bool)
        ensures
            res == self.looks_around(pattern@),
    {
        !self.playing || (!text::is_empty(pattern) && !matches_preferred(&self.name, pattern))
    }

    /// The player to show was looked for; switch if it is another one.
    pub fn rechecked(&self, best: Option<String>) -> (res: Option<PlayerOutcome>)
        ensures
            res == (match best {
                Some(name) => if name@ != self.name@ {
                    Some(PlayerOutcome::Switch(name))
                } else {
                    None
                },
                None => None,
            }),
    {
        match best {
            Some(name) => if text::same_text(&name, &self.name) {
                None
            } else {
                Some(PlayerOutcome::Switch(name))
            },
            None => None,
        }
    }

    /// Whether a change of properties concerns what is shown.
    pub fn concerns(&self, interface: &str) -> (res: bool)
        ensures
            res == (interface@ == PLAYER_IFACE@),
    {
        text::same_text(interface, PLAYER_IFACE)
    }

    /// The properties have changed: `all` are the current ones.
    pub fn properties_changed(&mut self, all: &Vec<(String, PropValue)>) -> (state: PlayerState)
        ensures
            final(self).name == old(self).name,
            final(self).desktop_entry == old(self).desktop_entry,
            final(self).can_raise == old(self).can_raise,
            final(self).shows(state, properties::properties(all@)),
    {
        self.playing = is_playing(all);
        parse_state(&self.name, all, &self.desktop_entry, self.can_raise)
    }

    /// A bus name has changed hands; `owned` if it has an owner now.
    pub fn owner_changed(&self, name: &str, owned: bool) -> (res: Option<PlayerOutcome>)
        ensures
            res == if name@ == self.name@ && !owned {
                Some(PlayerOutcome::Gone)
            } else {
                None
            },
    {
        if text::same_text(name, &self.name) && !owned {
            Some(PlayerOutcome::Gone)
        } else {
            None
        }
    }
}

proof fn lemma_first_from(n: int, from: int, pick: spec_fn(int) -> bool)
    requires
        0 <= from,
    ensures
        match first_from(n, from, pick) {
            Some(i) => from <= i < n && pick(i) && forall|k: int| from <= k < i ==> !#[trigger] pick(
                k,
            ),
            None => forall|k: int| from <= k < n ==> !#[trigger] pick(k),
        },
    decreases n - from,
{
    if from < n && !pick(from) {
        lemma_first_from(n, from + 1, pick);
    }
}

/// A player that the user prefers is shown whatever plays, the first of several.
/// Without one, the first that plays is shown, and while none does, the first.
pub proof fn preferred_players_come_first(
    candidates: Seq<String>,
    pattern: Seq<char>,
    plays: spec_fn(int) -> bool,
    i: int,
)
    requires
        0 <= i < candidates.len(),
    ensures
        ({
            let shown = best(candidates, pattern, plays);
            let unwanted = forall|k: int|
                0 <= k < candidates.len() ==> !player::prefers(
                    (#[trigger] candidates[k])@,
                    pattern,
                );
            &&& shown is Some && 0 <= shown->0 < candidates.len()
            &&& player::prefers(candidates[i]@, pattern) && (forall|k: int|
                0 <= k < i ==> !player::prefers((#[trigger] candidates[k])@, pattern)) ==> shown
                == Some(i)
            &&& unwanted && plays(i) && (forall|k: int| 0 <= k < i ==> !#[trigger] plays(k))
                ==> shown == Some(i)
            &&& unwanted && (forall|k: int| 0 <= k < candidates.len() ==> !#[trigger] plays(k))
                ==> shown == Some(0int)
        }),
        best(Seq::empty(), pattern, plays) is None,
{
    let n = candidates.len() as int;
    let wanted = |k: int| player::prefers(candidates[k]@, pattern);
    lemma_first_from(n, 0, wanted);
    lemma_first_from(n, 0, plays);
    assert forall|k: int| 0 <= k < n implies #[trigger] wanted(k) == player::prefers(
        candidates[k]@,
        pattern,
    ) by {}
    assert forall|k: int| 0 <= k < n implies player::prefers(
        (#[trigger] candidates[k])@,
        pattern,
    ) == wanted(k) by {}
    let none = Seq::<String>::empty();
    let pick = |k: int| player::prefers(none[k]@, pattern);
    lemma_first_from(0, 0, pick);
    lemma_first_from(0, 0, plays);
}

/// The players on the bus are just the names with the prefix of players.
pub proof fn players_have_the_prefix(names: Seq<String>, i: int)
    requires
        0 <= i < names.len(),
    ensures
        text::begins_with(names[i]@, "org.mpris.MediaPlayer2."@) ==> players(names).contains(
            names[i],
        ),
        forall|k: int|
            0 <= k < players(names).len() ==> text::begins_with(
                (#[trigger] players(names)[k])@,
                "org.mpris.MediaPlayer2."@,
            ) && names.contains(players(names)[k]),
    decreases names.len(),
{
    reveal(Seq::filter);
    let front = names.drop_last();
    let rest = players(front);
    let all = players(names);
    if front.len() > 0 {
        let j = if i < front.len() {
            i
        } else {
            0
        };
        players_have_the_prefix(front, j);
    }
    assert(names[names.len() - 1] == names.last());
    assert forall|k: int| 0 <= k < all.len() implies text::begins_with(
        (#[trigger] all[k])@,
        "org.mpris.MediaPlayer2."@,
    ) && names.contains(all[k]) by {
        if k < rest.len() {
            assert(all[k] == rest[k]);
            let j = front.index_of(rest[k]);
            assert(names[j] == rest[k]);
        }
    }
    if text::begins_with(names[i]@, "org.mpris.MediaPlayer2."@) {
        if i < front.len() {
            assert(front[i] == names[i]);
            let k = rest.index_of(names[i]);
            assert(all[k] == names[i]);
        } else {
            assert(all.last() == names[i]);
        }
    }
}

/// A player that plays is left for another only where the user prefers others, and
/// one that the user prefers only while it does not play.
pub proof fn playing_players_stay(w: PlayerWatch, pattern: Seq<char>)
    ensures
        !w.playing ==> w.looks_around(pattern),
        w.playing && pattern.len() == 0 ==> !w.looks_around(pattern),
        w.playing && player::prefers(w.name@, pattern) ==> !w.looks_around(pattern),
        w.playing && pattern.len() > 0 && !player::prefers(w.name@, pattern) ==> w.looks_around(
            pattern,
        ),
{
}

/// A player that is watched is left when it leaves the bus, and when the search finds
/// another one; finding it again, or none, leaves it on display.
pub proof fn watched_players_are_left_for_others(
    w: PlayerWatch,
    best: Option<String>,
    found: Option<PlayerOutcome>,
    name: &str,
    owned: bool,
    gone: Option<PlayerOutcome>,
)
    requires
        call_ensures(PlayerWatch::rechecked, (&w, best), found),
        call_ensures(PlayerWatch::owner_changed, (&w, name, owned), gone),
    ensures
        best is None ==> found is None,
        best matches Some(b) ==> found is Some == (b@ != w.name@),
        (best matches Some(b) && b@ != w.name@) ==> found == Some(
            PlayerOutcome::Switch(best->0),
        ),
        gone is Some == (name@ == w.name@ && !owned),
        gone is Some ==> gone->0 is Gone,
{
}

} // verus!
