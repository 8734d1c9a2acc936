//! One media player: its state, and what can be asked of it.

use crate::backend::media::properties;
use crate::backend::media::properties::{get_bool, get_str, PropValue};
use crate::float::bounds::{double_one, double_order};
use crate::float::double::F64;
use crate::float::magnitude;
use crate::float::nearest::{apart, rounding_error_is_small, rounding_keeps_order};
use crate::float::rounding;
use crate::float::single::lemma_zero_size;
use crate::float::whole;
use crate::text;
use vstd::prelude::*;

verus! {

/// Bus names of media players begin with this.
pub const MPRIS_PREFIX: &'static str = "org.mpris.MediaPlayer2.";

pub const PLAYER_PATH: &'static str = "/org/mpris/MediaPlayer2";

pub const PLAYER_IFACE: &'static str = "org.mpris.MediaPlayer2.Player";

pub const APP_IFACE: &'static str = "org.mpris.MediaPlayer2";

/// Seconds between looks for a player to show in place of an idle one.
pub const RECHECK_INTERVAL: u64 = 3;

/// Seconds before a lost bus connection is tried again.
pub const RETRY_INTERVAL: u64 = 5;

#[derive(Clone, Copy, Debug, PartialEq, Eq, Structural)]
pub enum PlaybackStatus {
    Playing,
    Paused,
    Stopped,
}

/// Where the album art is to be had from.
#[derive(Clone, Debug, PartialEq, Eq, Hash)]
pub enum ArtSource {
    /// The path of a file.
    Local(String),
    /// The address of a file on the web.
    Remote(String),
}

#[derive(Clone, Debug, PartialEq)]
pub struct PlayerState {
    pub bus_name: String,
    pub status: PlaybackStatus,
    pub title: String,
    pub artist: String,
    pub art: Option<ArtSource>,
    /// The player's `DesktopEntry`, or a guess from its bus name.
    pub desktop_entry: String,
    pub can_raise: bool,
    pub can_go_next: bool,
    pub can_go_previous: bool,
    pub can_play_pause: bool,
}

/// The player to show has changed; `None` if there is none.
#[derive(Clone, Debug)]
pub enum Event {
    Player(Option<PlayerState>),
}

#[derive(Clone, Copy, Debug)]
pub enum Control {
    Previous,
    PlayPause,
    Next,
}

impl Control {
    /// The method of the player's interface that does this.
    pub open spec fn name(self) -> Seq<char> {
        match self {
            Control::Previous => "Previous"@,
            Control::PlayPause => "PlayPause"@,
            Control::Next => "Next"@,
        }
    }

    /// The method of the player's interface that does this.
    pub fn method(self) -> (m: &'static str)
        ensures
            m@ == self.name(),
    {
        match self {
            Control::Previous => "Previous",
            Control::PlayPause => "PlayPause",
            Control::Next => "Next",
        }
    }
}

/// The player that the user prefers over others: a text that its bus name
/// contains, ignoring case. Empty for no preference.
pub struct PreferredPlayer {
    pub pattern: String,
}

/// Set the user's preferred player, or clear it with an empty text.
pub fn set_preferred(store: &mut PreferredPlayer, pattern: String)
    ensures
        final(store).pattern == pattern,
{
    store.pattern = pattern;
}

/// The user's preferred player.
pub fn preferred(store: &PreferredPlayer) -> (pattern: String)
    ensures
        pattern@ == store.pattern@,
{
    store.pattern.clone()
}

/// The user prefers this player.
pub open spec fn prefers(candidate: Seq<char>, pattern: Seq<char>) -> bool {
    pattern.len() > 0 && text::occurs_in(text::lowered(candidate), text::lowered(pattern))
}

/// Whether the user prefers this player.
pub fn matches_preferred(candidate: &str, pattern: &str) -> (res: bool)
    ensures
        res == prefers(candidate@, pattern@),
{
    !text::is_empty(pattern) && text::contains(
        &candidate.to_lowercase(),
        &pattern.to_lowercase(),
    )
}

/// For ASCII texts it does not matter in which case the player's name and the
/// preference are written. An empty preference prefers no player.
pub proof fn preference_ignores_case(candidate: Seq<char>, pattern: Seq<char>)
    requires
        text::is_ascii(candidate),
        text::is_ascii(pattern),
    ensures
        prefers(text::ascii_uppercase(candidate), text::ascii_lowercase(pattern)) == prefers(
            candidate,
            pattern,
        ),
        prefers(text::ascii_lowercase(candidate), text::ascii_uppercase(pattern)) == prefers(
            candidate,
            pattern,
        ),
        !prefers(candidate, Seq::empty()),
{
    text::lower_case_forgets_case(candidate);
    text::lower_case_forgets_case(pattern);
}

/// A bus name without the prefix that all players share.
pub open spec fn unprefixed(bus_name: Seq<char>) -> Seq<char> {
    if text::begins_with(bus_name, MPRIS_PREFIX@) {
        bus_name.skip(MPRIS_PREFIX@.len() as int)
    } else {
        bus_name
    }
}

/// A guess at the app id of a player that publishes none: the first dotted
/// segment of its bus name after the prefix.
pub fn guess_app_id(bus_name: &str) -> (app: String)
    ensures
        app@ == text::before(unprefixed(bus_name@), '.'),
{
    match text::strip_prefix(bus_name, MPRIS_PREFIX) {
        Some(rest) => text::first_segment(&rest, '.'),
        None => text::first_segment(bus_name, '.'),
    }
}

/// What a playback status means; anything unknown counts as stopped.
pub open spec fn status_of(name: Option<Seq<char>>) -> PlaybackStatus {
    if name == Some("Playing"@) {
        PlaybackStatus::Playing
    } else if name == Some("Paused"@) {
        PlaybackStatus::Paused
    } else {
        PlaybackStatus::Stopped
    }
}

/// The metadata that a player publishes.
pub open spec fn metadata(props: Map<Seq<char>, PropValue>) -> Map<Seq<char>, PropValue> {
    if props.dom().contains("Metadata"@) {
        match props["Metadata"@] {
            PropValue::Dict(list) => properties::properties(list@),
            _ => Map::empty(),
        }
    } else {
        Map::empty()
    }
}

/// The text, or the empty text in place of none.
pub open spec fn or_empty(t: Option<Seq<char>>) -> Seq<char> {
    match t {
        Some(s) => s,
        None => Seq::empty(),
    }
}

/// The first of the artists, if there is a list of them.
pub open spec fn first_artist(meta: Map<Seq<char>, PropValue>) -> Seq<char> {
    if meta.dom().contains("xesam:artist"@) {
        match meta["xesam:artist"@] {
            PropValue::Texts(list) => if list@.len() > 0 {
                list@[0]@
            } else {
                Seq::empty()
            },
            _ => Seq::empty(),
        }
    } else {
        Seq::empty()
    }
}

/// `art` is where the address `url` points to.
pub open spec fn art_at(art: Option<ArtSource>, url: Option<Seq<char>>) -> bool {
    match url {
        Some(u) => if text::begins_with(u, "file://"@) {
            art matches Some(ArtSource::Local(path)) && path@ == u.skip("file://"@.len() as int)
        } else if text::begins_with(u, "http://"@) || text::begins_with(u, "https://"@) {
            art matches Some(ArtSource::Remote(address)) && address@ == u
        } else {
            art is None
        },
        None => art is None,
    }
}

impl PlayerState {
    /// This is the state of the player `name` with these properties.
    pub open spec fn describes(
        self,
        name: Seq<char>,
        props: Map<Seq<char>, PropValue>,
        desktop_entry: Seq<char>,
        can_raise: bool,
    ) -> bool {
        &&& self.bus_name@ == name
        &&& self.status == status_of(properties::text_at(props, "PlaybackStatus"@))
        &&& self.title@ == or_empty(properties::text_at(metadata(props), "xesam:title"@))
        &&& self.artist@ == first_artist(metadata(props))
        &&& art_at(self.art, properties::text_at(metadata(props), "mpris:artUrl"@))
        &&& self.desktop_entry@ == desktop_entry
        &&& self.can_raise == can_raise
        &&& self.can_go_next == properties::flag_at(props, "CanGoNext"@)
        &&& self.can_go_previous == properties::flag_at(props, "CanGoPrevious"@)
        &&& self.can_play_pause == (properties::flag_at(props, "CanPause"@) || properties::flag_at(
            props,
            "CanPlay"@,
        ))
    }
}

/// Whether the player plays at the moment.
pub fn is_playing(props: &Vec<(String, PropValue)>) -> (res: bool)
    ensures
        res == (properties::text_at(properties::properties(props@), "PlaybackStatus"@) == Some(
            "Playing"@,
        )),
{
    match get_str(props, "PlaybackStatus") {
        Some(s) => text::same_text(&s, "Playing"),
        None => false,
    }
}

/// Where the album art is to be had from.
pub fn art_source(url: String) -> (art: Option<ArtSource>)
    ensures
        art_at(art, Some(url@)),
{
    match text::strip_prefix(&url, "file://") {
        Some(path) => Some(ArtSource::Local(path)),
        None => if text::starts_with(&url, "http://") || text::starts_with(&url, "https://") {
            Some(ArtSource::Remote(url))
        } else {
            None
        },
    }
}

fn artist_of(meta: &Vec<(String, PropValue)>) -> (artist: String)
    ensures
        artist@ == first_artist(properties::properties(meta@)),
{
    match properties::find(meta, "xesam:artist") {
        Some(PropValue::Texts(list)) => if list.len() > 0 {
            list[0].clone()
        } else {
            String::new()
        },
        _ => String::new(),
    }
}

fn title_of(meta: &Vec<(String, PropValue)>) -> (title: String)
    ensures
        title@ == or_empty(
            properties::text_at(properties::properties(meta@), "xesam:title"@),
        ),
{
    match get_str(meta, "xesam:title") {
        Some(t) => t,
        None => String::new(),
    }
}

/// The state of a player with the given properties.
pub fn parse_state(
    name: &str,
    props: &Vec<(String, PropValue)>,
    desktop_entry: &str,
    can_raise: bool,
) -> (state: PlayerState)
    ensures
        state.describes(name@, properties::properties(props@), desktop_entry@, can_raise),
{
    let status: PlaybackStatus = match get_str(props, "PlaybackStatus") {
        Some(s) => {
            if text::same_text(&s, "Playing") {
                PlaybackStatus::Playing
            } else if text::same_text(&s, "Paused") {
                PlaybackStatus::Paused
            } else {
                PlaybackStatus::Stopped
            }
        },
        None => PlaybackStatus::Stopped,
    };
    let mut title: String = String::new();
    let mut artist: String = String::new();
    let mut art: Option<ArtSource> = None;
    match properties::find(props, "Metadata") {
        Some(PropValue::Dict(meta)) => {
            title = title_of(meta);
            artist = artist_of(meta);
            art = match get_str(meta, "mpris:artUrl") {
                Some(url) => art_source(url),
                None => None,
            };
        },
        _ => {},
    }
    PlayerState {
        bus_name: name.to_owned(),
        status,
        title,
        artist,
        art,
        desktop_entry: desktop_entry.to_owned(),
        can_raise,
        can_go_next: get_bool(props, "CanGoNext"),
        can_go_previous: get_bool(props, "CanGoPrevious"),
        can_play_pause: get_bool(props, "CanPause") || get_bool(props, "CanPlay"),
    }
}

/// The volume after a nudge by `delta`, in `0 ..= 1`. A player that tells no
/// volume counts as playing at full volume.
pub open spec fn nudged(current: Option<F64>, delta: F64) -> F64 {
    let zero = F64 { bits: 0 };
    let one = F64 { bits: 0x3ff0_0000_0000_0000 };
    let sum = (match current {
        Some(v) => v,
        None => one,
    }).sum(delta);
    if sum.below(zero) {
        zero
    } else if one.below(sum) {
        one
    } else {
        sum
    }
}

/// The volume after a nudge by `delta`.
pub fn adjust_volume(current: Option<F64>, delta: F64) -> (volume: F64)
    ensures
        volume == nudged(current, delta),
{
    let zero: F64 = F64 { bits: 0 };
    let one: F64 = F64 { bits: 0x3ff0_0000_0000_0000 };
    let start: F64 = match current {
        Some(v) => v,
        None => one,
    };
    start.plus(&delta).clamp(&zero, &one)
}

/// A volume stays within `0 ..= 1`, unless the player or the nudge gives no
/// number at all.
pub proof fn volume_stays_in_range(current: Option<F64>, delta: F64)
    ensures
        ({
            let v = nudged(current, delta);
            v.nan() || !v.below(F64 { bits: 0 }) && !(F64 { bits: 0x3ff0_0000_0000_0000 }).below(v)
        }),
{
}

/// A nudge changes the volume by just as much as it says, as far as that goes: to
/// the nearest number, and no further than none or full. A player that tells no
/// volume counts as playing at full volume.
pub proof fn nudges_add_up(volume: F64, delta: F64)
    requires
        volume.finite(),
        delta.finite(),
        !volume.negative(),
    ensures
        ({
            let r = nudged(Some(volume), delta);
            let exact = volume.value() + delta.value();
            &&& exact >= whole::one(53) ==> r.value() == whole::one(53)
            &&& exact <= 0 ==> r.value() == 0
            &&& 0x10_0000_0000_0000 <= exact <= whole::one(53) ==> apart(r.value(), exact)
                * 0x20_0000_0000_0000 <= exact
        }),
        nudged(None, delta) == nudged(Some(F64::of_int(1)), delta),
{
    let o: int = whole::one(53) as int;
    let zero = F64 { bits: 0 };
    let full = F64 { bits: 0x3ff0_0000_0000_0000 };
    vstd::arithmetic::power2::lemma_pow2_pos(1074);
    rounding::lemma_pow2_steps();
    double_one();
    lemma_zero_size(53);
    let exact = volume.value() + delta.value();
    let sum = volume.sum(delta);
    whole::lemma_round_own_value(53, full.mag());
    whole::lemma_round_own_value(53, 0);
    if exact >= o {
        rounding_keeps_order(53, o as nat, exact as nat, 1);
        assert(sum.mag() >= full.mag());
        assert(sum.mag() <= magnitude::infinity(53));
    } else if exact > 0 {
        rounding_keeps_order(53, exact as nat, o as nat, 1);
        assert(sum.mag() <= full.mag());
        if exact >= 0x10_0000_0000_0000 {
            rounding_error_is_small(53, exact as nat, 1);
        }
    } else {
        assert(sum.rank() <= 0);
    }
}

/// A player is preferred whenever its name holds the preference, in whatever case
/// the two are written, as far as they are ASCII texts.
pub proof fn names_that_hold_the_preference_are_preferred(
    before: Seq<char>,
    pattern: Seq<char>,
    after: Seq<char>,
)
    requires
        pattern.len() > 0,
        text::is_ascii(before),
        text::is_ascii(pattern),
        text::is_ascii(after),
    ensures
        prefers(before + pattern + after, pattern),
{
    let all = before + pattern + after;
    assert(text::is_ascii(all)) by {
        assert forall|i: int| 0 <= i < all.len() implies (#[trigger] all[i]) as u32 <= 127 by {
            if i < before.len() {
                assert(all[i] == before[i]);
            } else if i < before.len() + pattern.len() {
                assert(all[i] == pattern[i - before.len()]);
            } else {
                assert(all[i] == after[i - before.len() - pattern.len()]);
            }
        }
    }
    assert(text::ascii_lowercase(all) =~= text::ascii_lowercase(before) + text::ascii_lowercase(
        pattern,
    ) + text::ascii_lowercase(after));
    text::lemma_inside(
        text::ascii_lowercase(before),
        text::ascii_lowercase(pattern),
        text::ascii_lowercase(after),
    );
}

/// The app id of a player that tells none is guessed from its bus name: what stands
/// between the prefix of players and the next dot.
pub proof fn app_ids_are_guessed_from_names(
    name: &str,
    app: Seq<char>,
    rest: Seq<char>,
    guess: String,
)
    requires
        call_ensures(guess_app_id, (name,), guess),
        !app.contains('.'),
        name@ == "org.mpris.MediaPlayer2."@ + app || name@ == "org.mpris.MediaPlayer2."@ + (app
            + seq!['.'] + rest),
    ensures
        guess@ == app,
{
    let prefix = "org.mpris.MediaPlayer2."@;
    let tail = if name@ == prefix + app {
        app
    } else {
        app + seq!['.'] + rest
    };
    text::lemma_inside(Seq::empty(), prefix, tail);
    assert((prefix + tail).skip(prefix.len() as int) =~= tail);
    assert(unprefixed(name@) == tail);
    text::separators_end_parts(tail, '.');
    let b = text::before(tail, '.');
    assert(tail.subrange(0, b.len() as int) == b);
    if b.len() < app.len() {
        assert(tail[b.len() as int] == app[b.len() as int]);
        assert(app.contains(app[b.len() as int]));
    } else if b.len() > app.len() {
        assert(tail[app.len() as int] == '.');
        assert(b[app.len() as int] == '.');
        assert(b.contains('.'));
    }
    assert(b =~= app);
}

/// Album art at a `file` address is the file of that path; at a web address it is to
/// be fetched from there; any other address is of no use.
pub proof fn art_addresses_tell_where(
    art: Option<ArtSource>,
    rest: Seq<char>,
)
    ensures
        art_at(art, Some("file://"@ + rest)) ==> (art matches Some(ArtSource::Local(path)) && path@
            == rest),
        art_at(art, Some("http://"@ + rest)) ==> (art matches Some(ArtSource::Remote(a)) && a@
            == "http://"@ + rest),
        art_at(art, Some("https://"@ + rest)) ==> (art matches Some(ArtSource::Remote(a)) && a@
            == "https://"@ + rest),
        art_at(art, None) ==> art is None,
        rest.len() > 0 && rest[0] != 'f' && rest[0] != 'h' && art_at(art, Some(rest)) ==> art
            is None,
{
    reveal_strlit("file://");
    reveal_strlit("http://");
    reveal_strlit("https://");
    let (f, h, t) = ("file://"@, "http://"@, "https://"@);
    text::lemma_inside(Seq::empty(), f, rest);
    text::lemma_inside(Seq::empty(), h, rest);
    text::lemma_inside(Seq::empty(), t, rest);
    assert((f + rest).skip(f.len() as int) =~= rest);
    lemma_other_start(h + rest, f);
    lemma_other_start(t + rest, f);
    lemma_other_start(rest, f);
    lemma_other_start(rest, h);
    lemma_other_start(rest, t);
}

/// A text does not begin with one that has another first character.
proof fn lemma_other_start(s: Seq<char>, prefix: Seq<char>)
    ensures
        prefix.len() > 0 && s.len() > 0 && s[0] != prefix[0] ==> !text::begins_with(s, prefix),
{
    if prefix.len() > 0 && s.len() > 0 && text::begins_with(s, prefix) {
        assert(s.subrange(0, prefix.len() as int)[0] == s[0]);
    }
}

/// A player counts as playing or paused only if it says just that.
pub proof fn only_players_that_say_so_play(name: Option<Seq<char>>)
    ensures
        status_of(name) is Playing == (name == Some("Playing"@)),
        status_of(name) is Paused == (name == Some("Paused"@)),
        status_of(None) is Stopped,
{
    reveal_strlit("Playing");
    reveal_strlit("Paused");
    assert("Playing"@.len() == 7 && "Paused"@.len() == 6);
}

/// What is shown of a player is what it publishes: each text and each ability under
/// its own name.
pub proof fn players_are_shown_as_published(
    state: PlayerState,
    name: Seq<char>,
    list: Seq<(String, PropValue)>,
    meta: Seq<(String, PropValue)>,
    entry: Seq<char>,
    raise: bool,
)
    requires
        state.describes(name, properties::properties(list), entry, raise),
        properties::properties(list).dom().contains("Metadata"@),
        properties::properties(list)["Metadata"@] matches PropValue::Dict(d) && d@ == meta,
    ensures
        ({
            let p = properties::properties(list);
            let m = properties::properties(meta);
            &&& (m.dom().contains("xesam:title"@) && m["xesam:title"@] is Text) ==> state.title@
                == m["xesam:title"@]->Text_0@
            &&& !m.dom().contains("xesam:title"@) ==> state.title@.len() == 0
            &&& (m.dom().contains("xesam:artist"@) && m["xesam:artist"@] is Texts
                && m["xesam:artist"@]->Texts_0@.len() > 0) ==> state.artist@
                == m["xesam:artist"@]->Texts_0@[0]@
            &&& !m.dom().contains("xesam:artist"@) ==> state.artist@.len() == 0
            &&& (p.dom().contains("PlaybackStatus"@) && p["PlaybackStatus"@] is Text) ==> (
            state.status is Playing) == (p["PlaybackStatus"@]->Text_0@ == "Playing"@)
            &&& (p.dom().contains("CanGoNext"@) && p["CanGoNext"@] == PropValue::Flag(true))
                == state.can_go_next
            &&& (p.dom().contains("CanGoPrevious"@) && p["CanGoPrevious"@] == PropValue::Flag(true))
                == state.can_go_previous
            &&& (p.dom().contains("CanPlay"@) && p["CanPlay"@] == PropValue::Flag(true))
                ==> state.can_play_pause
            &&& (p.dom().contains("CanPause"@) && p["CanPause"@] == PropValue::Flag(true))
                ==> state.can_play_pause
            &&& !p.dom().contains("CanPlay"@) && !p.dom().contains("CanPause"@)
                ==> !state.can_play_pause
            &&& state.bus_name@ == name && state.desktop_entry@ == entry && state.can_raise
                == raise
        }),
{
    only_players_that_say_so_play(
        properties::text_at(properties::properties(list), "PlaybackStatus"@),
    );
}

} // verus!
