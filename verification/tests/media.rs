use cosmic_ext_workspaces_bar::backend::media::fetch::{fetch_art_cached, ArtStep};
use cosmic_ext_workspaces_bar::backend::media::art::{
    check_announced, check_received, fetch_art, load_art, picture_of, FetchStep, MAX_ART_BYTES,
};
use cosmic_ext_workspaces_bar::backend::media::cache::{
    art_cache_dir, art_cache_path, cache_hit, hash_url, prune_art_cache, CacheFile,
    ART_CACHE_MAX_BYTES,
};
use cosmic_ext_workspaces_bar::backend::media::picker::{
    after_watching, appeared, mpris_candidates, Pick, Picker, PlayerOutcome, PlayerWatch,
};
use cosmic_ext_workspaces_bar::backend::media::player::{
    adjust_volume, art_source, guess_app_id, matches_preferred, parse_state, preferred,
    set_preferred, ArtSource, Control, PlaybackStatus, PreferredPlayer, PLAYER_IFACE,
};
use cosmic_ext_workspaces_bar::backend::media::properties::{
    find, get_bool, get_str, merge_changes, PropValue,
};
use cosmic_ext_workspaces_bar::float::double::F64;

fn text(s: &str) -> PropValue {
    PropValue::Text(s.to_string())
}

fn entry(k: &str, v: PropValue) -> (String, PropValue) {
    (k.to_string(), v)
}

fn vol(x: f64) -> F64 {
    F64 { bits: x.to_bits() }
}

fn playing() -> Vec<(String, PropValue)> {
    vec![
        entry("PlaybackStatus", text("Playing")),
        entry("CanGoNext", PropValue::Flag(true)),
        entry("CanPlay", PropValue::Flag(true)),
        entry(
            "Metadata",
            PropValue::Dict(vec![
                entry("xesam:title", text("Song")),
                entry(
                    "xesam:artist",
                    PropValue::Texts(vec!["First".to_string(), "Second".to_string()]),
                ),
                entry("mpris:artUrl", text("file:///tmp/a.png")),
            ]),
        ),
    ]
}

#[test]
fn hash_url_is_stable_and_distinct() {
    let a = hash_url("https://example.com/a.jpg");
    let b = hash_url("https://example.com/b.jpg");
    assert_eq!(a, hash_url("https://example.com/a.jpg"));
    assert_ne!(a, b);
}

#[test]
fn hashes_are_sixteen_hexadecimal_digits() {
    assert_eq!(hash_url(""), "cbf29ce484222325");
    assert_eq!(hash_url("a"), "af63dc4c8601ec8c");
    assert_eq!(hash_url("foobar"), "85944171f73967e8");
    for s in ["", "x", "https://example.com/\u{e9}", "0123456789"] {
        let mut hash: u64 = 0xcbf29ce484222325;
        for b in s.bytes() {
            hash ^= u64::from(b);
            hash = hash.wrapping_mul(0x100000001b3);
        }
        assert_eq!(hash_url(s), format!("{hash:016x}"));
    }
}

#[test]
fn cache_lies_below_the_cache_directory() {
    assert_eq!(
        art_cache_dir(Some("/x/cache"), Some("/home/u")).unwrap(),
        "/x/cache/cosmic-ext-workspaces-bar/art"
    );
    assert_eq!(
        art_cache_dir(None, Some("/home/u/")).unwrap(),
        "/home/u/.cache/cosmic-ext-workspaces-bar/art"
    );
    assert_eq!(art_cache_dir(Some(""), None).unwrap(), "cosmic-ext-workspaces-bar/art");
    assert!(art_cache_dir(None, None).is_none());
    assert_eq!(art_cache_path("/c/art", "a"), "/c/art/af63dc4c8601ec8c");
}

#[test]
fn cached_files_are_used_unless_empty() {
    assert_eq!(cache_hit(Some(b"cached-marker".to_vec())), Some(b"cached-marker".to_vec()));
    assert_eq!(cache_hit(Some(Vec::new())), None);
    assert_eq!(cache_hit(None), None);
}

fn file(path: &str, size: u64, modified: i128) -> CacheFile {
    CacheFile { path: path.to_string(), size, modified }
}

#[test]
fn oldest_files_go_first() {
    let mib = 1024 * 1024;
    let files = vec![
        file("new", 20 * mib, 30),
        file("old", 10 * mib, 10),
        file("middle", 25 * mib, 20),
        file("older twin", 10 * mib, 10),
    ];
    let mut p = prune_art_cache(files).unwrap();
    assert_eq!(p.over, 15 * mib);
    let order: Vec<String> = p.files.iter().map(|f| f.path.clone()).collect();
    assert_eq!(order, vec!["old", "older twin", "middle", "new"]);
    let mut gone = Vec::new();
    while let Some(i) = p.victim() {
        gone.push(i);
        p.removed(true);
    }
    assert_eq!(gone, vec![0, 1]);
    assert_eq!(p.over, 0);
}

#[test]
fn files_that_cannot_be_removed_do_not_count() {
    let files = vec![file("a", ART_CACHE_MAX_BYTES, 1), file("b", 5, 2), file("c", 1, 3)];
    let mut p = prune_art_cache(files).unwrap();
    assert_eq!(p.victim(), Some(0));
    p.removed(false);
    assert_eq!(p.victim(), Some(1));
    p.removed(true);
    assert_eq!(p.over, 1);
    p.removed(true);
    assert_eq!(p.victim(), None);
    assert!(prune_art_cache(vec![file("a", ART_CACHE_MAX_BYTES, 1)]).is_none());
    assert!(prune_art_cache(Vec::new()).is_none());
}

#[test]
fn fetching_is_retried_with_growing_waits() {
    let fail = || Err("reset".to_string());
    assert!(matches!(fetch_art(0, fail()), FetchStep::Retry { attempt: 1, delay: 1 }));
    assert!(matches!(fetch_art(1, fail()), FetchStep::Retry { attempt: 2, delay: 2 }));
    assert!(matches!(fetch_art(2, fail()), FetchStep::GiveUp));
    match fetch_art(2, Ok(vec![1, 2])) {
        FetchStep::Done(b) => assert_eq!(b, vec![1, 2]),
        _ => panic!("bytes end the search"),
    }
}

#[test]
fn huge_responses_are_refused() {
    assert!(check_announced(None).is_ok());
    assert!(check_announced(Some(MAX_ART_BYTES as u64)).is_ok());
    assert_eq!(
        check_announced(Some(MAX_ART_BYTES as u64 + 1)),
        Err("response exceeds size limit".to_string())
    );
    assert_eq!(check_received(vec![9; 3]), Ok(vec![9; 3]));
    assert_eq!(
        check_received(vec![0; MAX_ART_BYTES + 1]),
        Err("response exceeds size limit".to_string())
    );
}

#[test]
fn image_files_are_decoded() {
    let mut img = image::RgbImage::new(2, 1);
    img.put_pixel(0, 0, image::Rgb([1, 2, 3]));
    img.put_pixel(1, 0, image::Rgb([250, 0, 9]));
    let mut png = std::io::Cursor::new(Vec::new());
    img.write_to(&mut png, image::ImageFormat::Png).unwrap();
    let picture = load_art(&png.into_inner()).unwrap();
    assert_eq!((picture.width, picture.height), (2, 1));
    assert_eq!(picture.pixels, vec![1, 2, 3, 255, 250, 0, 9, 255]);
    assert!(load_art(b"no image at all").is_none());
    assert!(load_art(&[]).is_none());
    assert!(picture_of(None).is_none());
}

#[test]
fn players_are_preferred_by_part_of_their_name() {
    assert!(matches_preferred("org.mpris.MediaPlayer2.Spotify", "SPOT"));
    assert!(!matches_preferred("org.mpris.MediaPlayer2.vlc", "spotify"));
    assert!(!matches_preferred("org.mpris.MediaPlayer2.vlc", ""));
    let mut store = PreferredPlayer { pattern: String::new() };
    set_preferred(&mut store, "vlc".to_string());
    assert_eq!(preferred(&store), "vlc");
    set_preferred(&mut store, String::new());
    assert_eq!(preferred(&store), "");
}

#[test]
fn app_ids_are_guessed_from_bus_names() {
    assert_eq!(guess_app_id("org.mpris.MediaPlayer2.chromium.instance42"), "chromium");
    assert_eq!(guess_app_id("org.mpris.MediaPlayer2.vlc"), "vlc");
    assert_eq!(guess_app_id("com.example"), "com");
    assert_eq!(guess_app_id(""), "");
}

#[test]
fn controls_name_their_methods() {
    assert_eq!(Control::Previous.method(), "Previous");
    assert_eq!(Control::PlayPause.method(), "PlayPause");
    assert_eq!(Control::Next.method(), "Next");
}

#[test]
fn properties_are_read_by_name() {
    let list = vec![
        entry("a", text("x")),
        entry("b", PropValue::Flag(true)),
        entry("a", text("y")),
        entry("c", PropValue::Other),
    ];
    assert_eq!(get_str(&list, "a"), Some("y".to_string()));
    assert_eq!(get_str(&list, "b"), None);
    assert_eq!(get_str(&list, "z"), None);
    assert!(get_bool(&list, "b"));
    assert!(!get_bool(&list, "a"));
    assert!(!get_bool(&list, "z"));
    assert!(matches!(find(&list, "c"), Some(PropValue::Other)));
}

#[test]
fn states_are_parsed_from_properties() {
    let s = parse_state("org.mpris.MediaPlayer2.x", &playing(), "x", true);
    assert_eq!(s.bus_name, "org.mpris.MediaPlayer2.x");
    assert_eq!(s.status, PlaybackStatus::Playing);
    assert_eq!(s.title, "Song");
    assert_eq!(s.artist, "First");
    assert_eq!(s.art, Some(ArtSource::Local("/tmp/a.png".to_string())));
    assert_eq!(s.desktop_entry, "x");
    assert!(s.can_raise && s.can_go_next && s.can_play_pause);
    assert!(!s.can_go_previous);
    let empty = parse_state("n", &Vec::new(), "", false);
    assert_eq!(empty.status, PlaybackStatus::Stopped);
    assert_eq!((empty.title.as_str(), empty.artist.as_str()), ("", ""));
    assert!(empty.art.is_none() && !empty.can_play_pause);
    let paused = vec![
        entry("PlaybackStatus", text("Paused")),
        entry("CanPause", PropValue::Flag(true)),
        entry("Metadata", PropValue::Other),
    ];
    let s = parse_state("n", &paused, "", false);
    assert_eq!(s.status, PlaybackStatus::Paused);
    assert!(s.can_play_pause);
}

#[test]
fn art_comes_from_files_or_the_web() {
    let url = |s: &str| art_source(s.to_string());
    assert_eq!(url("file:///a"), Some(ArtSource::Local("/a".to_string())));
    assert_eq!(url("http://a"), Some(ArtSource::Remote("http://a".to_string())));
    assert_eq!(url("https://a"), Some(ArtSource::Remote("https://a".to_string())));
    assert_eq!(url("data:image/png"), None);
}

#[test]
fn changes_are_merged_over_the_current_properties() {
    let all = vec![entry("a", text("old")), entry("b", text("old")), entry("c", text("old"))];
    let changed = vec![entry("a", text("new")), entry("b", text("announced"))];
    let refetched = vec![entry("b", text("fresh")), entry("c", text("ignored"))];
    let merged = merge_changes(all, changed, &vec!["b".to_string()], Some(refetched));
    assert_eq!(get_str(&merged, "a"), Some("new".to_string()));
    assert_eq!(get_str(&merged, "b"), Some("fresh".to_string()));
    assert_eq!(get_str(&merged, "c"), Some("old".to_string()));
    let merged = merge_changes(Vec::new(), vec![entry("a", text("x"))], &Vec::new(), None);
    assert_eq!(get_str(&merged, "a"), Some("x".to_string()));
}

#[test]
fn volume_stays_within_bounds() {
    let v = |c: Option<f64>, d: f64| f64::from_bits(adjust_volume(c.map(vol), vol(d)).bits);
    assert_eq!(v(Some(0.5), 0.05), 0.5 + 0.05);
    assert_eq!(v(Some(0.98), 0.05), 1.0);
    assert_eq!(v(Some(0.02), -0.05), 0.0);
    assert_eq!(v(None, -0.05), 1.0 - 0.05);
    assert!(v(Some(f64::NAN), 0.05).is_nan());
}

fn names(list: &[&str]) -> Vec<String> {
    list.iter().map(|s| s.to_string()).collect()
}

#[test]
fn only_players_are_candidates() {
    let all = names(&["org.freedesktop.DBus", "org.mpris.MediaPlayer2.vlc", ":1.5"]);
    assert_eq!(mpris_candidates(&all), names(&["org.mpris.MediaPlayer2.vlc"]));
    assert_eq!(appeared("org.mpris.MediaPlayer2.a", true), Some("org.mpris.MediaPlayer2.a".into()));
    assert_eq!(appeared("org.mpris.MediaPlayer2.a", false), None);
    assert_eq!(appeared("org.other", true), None);
}

fn run(candidates: &[&str], pattern: &str, statuses: &[Option<&str>]) -> Option<usize> {
    let (mut p, mut pick) = Picker::new(names(candidates), pattern);
    loop {
        match pick {
            Pick::Chosen(c) => return c,
            Pick::Ask(i) => pick = p.answer(statuses[i]),
        }
    }
}

#[test]
fn the_preferred_player_then_a_playing_one_is_picked() {
    let all = ["m.a", "m.b", "m.c"];
    let none = [None, Some("Paused"), Some("Stopped")];
    assert_eq!(run(&all, "", &none), Some(0));
    assert_eq!(run(&all, "", &[None, Some("Paused"), Some("Playing")]), Some(2));
    assert_eq!(run(&all, "", &[Some("Playing"), Some("Playing"), None]), Some(0));
    assert_eq!(run(&all, "M.B", &[Some("Playing"), None, None]), Some(1));
    assert_eq!(run(&all, "zzz", &none), Some(0));
    assert_eq!(run(&[], "", &[]), None);
}

#[test]
fn watched_players_are_left_for_better_ones() {
    let (mut w, state) =
        PlayerWatch::new("org.mpris.MediaPlayer2.vlc", None, None, &playing());
    assert_eq!(state.desktop_entry, "vlc");
    assert!(!state.can_raise);
    assert!(w.playing);
    assert!(!w.needs_recheck(""));
    assert!(!w.needs_recheck("vlc"));
    assert!(w.needs_recheck("spotify"));
    let paused = vec![entry("PlaybackStatus", text("Paused"))];
    let state = w.properties_changed(&paused);
    assert_eq!(state.status, PlaybackStatus::Paused);
    assert!(w.needs_recheck(""));
    assert!(w.rechecked(None).is_none());
    assert!(w.rechecked(Some("org.mpris.MediaPlayer2.vlc".to_string())).is_none());
    match w.rechecked(Some("other".to_string())) {
        Some(PlayerOutcome::Switch(n)) => assert_eq!(n, "other"),
        _ => panic!("another player takes over"),
    }
    assert!(w.concerns(PLAYER_IFACE));
    assert!(!w.concerns("org.mpris.MediaPlayer2"));
    assert!(w.owner_changed("org.mpris.MediaPlayer2.vlc", true).is_none());
    assert!(w.owner_changed("x", false).is_none());
    assert!(matches!(
        w.owner_changed("org.mpris.MediaPlayer2.vlc", false),
        Some(PlayerOutcome::Gone)
    ));
}

#[test]
fn app_ids_come_from_the_player_where_it_tells_them() {
    let (w, _) = PlayerWatch::new("n.x", Some("App".to_string()), Some(true), &Vec::new());
    assert_eq!(w.desktop_entry, "App");
    assert!(w.can_raise);
    let (w, _) = PlayerWatch::new("n.x", Some(String::new()), Some(false), &Vec::new());
    assert_eq!(w.desktop_entry, "n");
}

#[test]
fn watching_goes_on_after_a_player_is_gone() {
    assert_eq!(after_watching(PlayerOutcome::Gone), Ok(None));
    assert_eq!(after_watching(PlayerOutcome::Switch("a".to_string())), Ok(Some("a".to_string())));
    assert_eq!(after_watching(PlayerOutcome::Error), Err(()));
}

const ART: &str = "https://example.com/a.jpg";

fn file_of(dir: &str) -> String {
    format!("{dir}/{}", hash_url(ART))
}

#[test]
fn art_in_the_cache_is_not_fetched() {
    let (fetch, step) = fetch_art_cached(ART.to_string(), Some("/cache".to_string()));
    assert!(matches!(step, ArtStep::Read { path } if path == file_of("/cache")));
    assert!(matches!(fetch.file_read(Some(vec![1, 2])), ArtStep::Done(Some(b)) if b == [1, 2]));
    assert!(matches!(fetch.file_read(Some(Vec::new())), ArtStep::Fetch { delay: 0 }));
    assert!(matches!(fetch.file_read(None), ArtStep::Fetch { delay: 0 }));
}

#[test]
fn fetched_art_is_kept_and_read_back() {
    let dir = Some("/cache".to_string());
    let (mut fetch, _) = fetch_art_cached(ART.to_string(), dir.clone());
    fetch.file_read(None);
    let failed = fetch.attempt_ended(Err("reset".to_string()));
    assert!(matches!(failed, ArtStep::Fetch { delay: 1 }));
    let ArtStep::Keep { dir: below, path, bytes } = fetch.attempt_ended(Ok(vec![7, 8, 9])) else {
        panic!("kept");
    };
    assert_eq!((below.as_str(), path, &bytes), ("/cache", file_of("/cache"), &vec![7, 8, 9]));
    assert_eq!(fetch.file_written(true).as_deref(), Some("/cache"));
    assert_eq!(fetch.file_written(false), None);
    let (again, step) = fetch_art_cached(ART.to_string(), dir);
    assert!(matches!(step, ArtStep::Read { path: p } if p == file_of("/cache")));
    assert!(matches!(again.file_read(Some(bytes)), ArtStep::Done(Some(b)) if b == [7, 8, 9]));
}

#[test]
fn failed_fetches_keep_nothing() {
    let (mut fetch, step) = fetch_art_cached(ART.to_string(), None);
    assert!(matches!(step, ArtStep::Fetch { delay: 0 }));
    for delay in [1, 2] {
        let step = fetch.attempt_ended(Err(String::new()));
        assert!(matches!(step, ArtStep::Fetch { delay: d } if d == delay));
    }
    assert!(matches!(fetch.attempt_ended(Err(String::new())), ArtStep::Done(None)));
    let (mut fetch, _) = fetch_art_cached(ART.to_string(), None);
    assert!(matches!(fetch.attempt_ended(Ok(vec![3])), ArtStep::Done(Some(b)) if b == [3]));
}

#[test]
fn preferences_ignore_the_case_of_ascii_letters() {
    for c in 0u8..128 {
        let name = (c as char).to_string();
        let (upper, lower) = (name.to_ascii_uppercase(), name.to_ascii_lowercase());
        assert!(matches_preferred(&upper, &lower));
        assert!(matches_preferred(&lower, &upper));
        assert!(!matches_preferred(&name, ""));
        for d in 0u8..128 {
            let other = (d as char).to_string();
            assert_eq!(matches_preferred(&name, &other), name.eq_ignore_ascii_case(&other));
        }
    }
    assert!(matches_preferred("org.mpris.MediaPlayer2.Spotify", "SPOTIFY"));
}

#[test]
fn pruning_takes_the_oldest_until_enough_has_gone() {
    let file = |path: &str, size: u64, modified: i128| CacheFile {
        path: path.to_string(),
        size,
        modified,
    };
    let mib = 1024 * 1024;
    let files = vec![file("new", 30 * mib, 9), file("old", 8 * mib, 1), file("mid", 15 * mib, 5)];
    let mut pruner = prune_art_cache(files).unwrap();
    let mut gone = Vec::new();
    while let Some(at) = pruner.victim() {
        gone.push(pruner.files[at].path.clone());
        pruner.removed(true);
    }
    assert_eq!(gone, vec!["old"]);
}
