use stream_report::CursorEvent;
use stream_report::CursorState;
use stream_report::Error;
use stream_report::Game;
use stream_report::IdSet;
use stream_report::KeyMap;
use stream_report::PageCursor;
use stream_report::PreferenceStore;
use stream_report::Stream;
use stream_report::StreamKind;
use stream_report::User;
use stream_report::add_streams;
use stream_report::build_defer_command;
use stream_report::build_view;
use stream_report::check_defer_args;
use stream_report::chunk_ids;
use stream_report::classify_http_status;
use stream_report::decimal_string;
use stream_report::distinct_game_ids;
use stream_report::duration_text;
use stream_report::filter_streams;
use stream_report::merge_users;
use stream_report::online_stream_ids;
use stream_report::view_items;

fn stream(id: &str, user_id: &str, game_id: &str, viewers: u64) -> Stream {
    Stream {
        id: id.to_string(),
        user_id: user_id.to_string(),
        game_id: game_id.to_string(),
        title: format!("title of {}", id),
        viewer_count: viewers,
        started_at: 0,
        kind: StreamKind::Live,
    }
}

fn ids(n: usize) -> Vec<String> {
    (0..n).map(|i| format!("id{}", i)).collect()
}

#[test]
fn chunking_splits_by_hundred() {
    let input = ids(250);
    let chunks = chunk_ids(&input);
    assert_eq!(chunks.len(), 3);
    assert_eq!(chunks[0].len(), 100);
    assert_eq!(chunks[1].len(), 100);
    assert_eq!(chunks[2].len(), 50);
    let rejoined: Vec<String> = chunks.into_iter().flatten().collect();
    assert_eq!(rejoined, input);
}

#[test]
fn chunking_edge_sizes() {
    assert_eq!(chunk_ids(&ids(0)).len(), 0);
    assert_eq!(chunk_ids(&ids(1)).len(), 1);
    assert_eq!(chunk_ids(&ids(100)).len(), 1);
    let two = chunk_ids(&ids(101));
    assert_eq!(two.len(), 2);
    assert_eq!(two[0].len(), 100);
    assert_eq!(two[1].len(), 1);
}

#[test]
fn merge_overwrites_later_chunk_wins() {
    let mut map: KeyMap<User> = KeyMap::new();
    merge_users(
        &mut map,
        vec![
            User { id: "u1".to_string(), login: "a".to_string(), display_name: "A".to_string() },
            User { id: "u2".to_string(), login: "b".to_string(), display_name: "B".to_string() },
        ],
    );
    merge_users(
        &mut map,
        vec![User { id: "u1".to_string(), login: "a2".to_string(), display_name: "A2".to_string() }],
    );
    assert_eq!(map.entries().len(), 2);
    let u1 = map.get(&"u1".to_string()).expect("u1 merged");
    assert_eq!(u1.login, "a2");
    assert!(map.contains_key(&"u2".to_string()));
    assert!(!map.contains_key(&"u3".to_string()));
}

#[test]
fn cursor_paginates_announced_total() {
    let mut cursor: PageCursor<u32> = PageCursor::new();
    assert_eq!(cursor.state(), CursorState::Start);
    let mut yielded: Vec<u32> = Vec::new();
    let pages: [usize; 3] = [100, 100, 50];
    let mut expected_states =
        vec![CursorState::Partial(150), CursorState::Partial(50), CursorState::Partial(0)]
            .into_iter();
    let mut fed = 0usize;
    let mut next: u32 = 0;
    loop {
        match cursor.next_event() {
            CursorEvent::Item(x) => yielded.push(x),
            CursorEvent::Fetch(c) => {
                if fed == 0 {
                    assert!(c.is_none());
                } else {
                    assert_eq!(c.as_deref(), Some("cur"));
                }
                let page: Vec<u32> = (0..pages[fed] as u32).map(|k| next + k).collect();
                next += pages[fed] as u32;
                cursor
                    .feed_page(Some(250), page, Some("cur".to_string()))
                    .expect("page within total");
                fed += 1;
                assert_eq!(cursor.state(), expected_states.next().unwrap());
            }
            CursorEvent::Done => break,
        }
    }
    assert_eq!(cursor.state(), CursorState::End);
    assert_eq!(fed, 3);
    assert_eq!(yielded.len(), 250);
    assert_eq!(yielded, (0u32..250).collect::<Vec<u32>>());
}

#[test]
fn cursor_single_page_without_total() {
    let mut cursor: PageCursor<u32> = PageCursor::new();
    let mut yielded: Vec<u32> = Vec::new();
    let mut fetches = 0usize;
    loop {
        match cursor.next_event() {
            CursorEvent::Item(x) => yielded.push(x),
            CursorEvent::Fetch(c) => {
                assert!(c.is_none());
                fetches += 1;
                cursor.feed_page(None, vec![7, 8, 9], None).expect("single page");
                assert_eq!(cursor.state(), CursorState::End);
            }
            CursorEvent::Done => break,
        }
    }
    assert_eq!(fetches, 1, "no cursor-based follow-up may be requested");
    assert_eq!(yielded, vec![7, 8, 9]);
}

#[test]
fn cursor_refuses_overfull_page() {
    let mut cursor: PageCursor<u32> = PageCursor::new();
    let r = cursor.feed_page(Some(2), vec![1, 2, 3], None);
    assert_eq!(r, Err(Error::PageCount));
    assert_eq!(cursor.state(), CursorState::Start);
}

#[test]
fn cursor_empty_page_ends_sequence() {
    let mut cursor: PageCursor<u32> = PageCursor::new();
    cursor.feed_page(Some(10), Vec::new(), None).expect("empty page is consistent");
    assert_eq!(cursor.state(), CursorState::End);
    assert!(matches!(cursor.next_event(), CursorEvent::Done));
}

#[test]
fn reconciliation_is_idempotent() {
    let mut store = PreferenceStore::new();
    store.hide_stream("a".to_string());
    store.hide_stream("b".to_string());
    let online = IdSet::from_list(&vec!["b".to_string(), "c".to_string()]);
    store.reconcile(&online);
    let first: Vec<String> = store.hidden_streams.list().clone();
    assert_eq!(first, vec!["b".to_string()]);
    store.reconcile(&online);
    let second: Vec<String> = store.hidden_streams.list().clone();
    assert_eq!(first, second, "a second pass must change nothing");
}

#[test]
fn hidden_stream_filtered_then_garbage_collected() {
    let mut store = PreferenceStore::new();
    store.hide_stream("123".to_string());

    // first run: stream 123 is online, so it stays hidden and is filtered out
    let online = vec![stream("123", "u1", "g1", 5), stream("456", "u2", "g1", 7)];
    let online_ids = online_stream_ids(&online);
    store.reconcile(&online_ids);
    assert_eq!(store.hidden_streams.list(), &vec!["123".to_string()]);
    let kept = filter_streams(&store, online);
    let kept_ids: Vec<&str> = kept.iter().map(|s| s.id.as_str()).collect();
    assert_eq!(kept_ids, vec!["456"]);

    // next run: stream 123 has gone offline, so reconciliation drops it
    let next_online = vec![stream("456", "u2", "g1", 7)];
    store.reconcile(&online_stream_ids(&next_online));
    assert!(store.hidden_streams.list().is_empty());
}

#[test]
fn hiding_is_idempotent() {
    let mut store = PreferenceStore::new();
    store.hide_stream("s".to_string());
    store.hide_stream("s".to_string());
    assert_eq!(store.hidden_streams.list().len(), 1);
    store.hide_game("u".to_string(), "g".to_string());
    store.hide_game("u".to_string(), "g".to_string());
    let entries = store.hidden_games.entries();
    assert_eq!(entries.len(), 1);
    assert_eq!(entries[0].0, "u");
    assert_eq!(entries[0].1.list(), &vec!["g".to_string()]);
}

#[test]
fn hidden_game_is_per_user() {
    let mut store = PreferenceStore::new();
    store.hide_game("u1".to_string(), "g1".to_string());
    let streams = vec![stream("1", "u1", "g1", 5), stream("2", "u2", "g1", 6)];
    let kept = filter_streams(&store, streams);
    let kept_ids: Vec<&str> = kept.iter().map(|s| s.id.as_str()).collect();
    assert_eq!(kept_ids, vec!["2"], "only the hiding user's stream is dropped");
}

#[test]
fn grouping_and_sorting_orders_by_viewers() {
    let streams = vec![
        stream("a", "ua", "G1", 50),
        stream("b", "ub", "G1", 200),
        stream("c", "uc", "G2", 10),
    ];
    let mut games: KeyMap<Game> = KeyMap::new();
    games.insert("G1".to_string(), Game { id: "G1".to_string(), name: "One".to_string() });
    games.insert("G2".to_string(), Game { id: "G2".to_string(), name: "Two".to_string() });
    let store = PreferenceStore::new();
    let groups = build_view(&store, streams, &games);
    assert_eq!(groups.len(), 2);
    assert_eq!(groups[0].game_id, "G1");
    assert_eq!(groups[0].name, "One");
    assert_eq!(groups[0].total_viewers, 250);
    let first: Vec<&str> = groups[0].streams.iter().map(|s| s.id.as_str()).collect();
    assert_eq!(first, vec!["b", "a"], "inside a group: descending by viewers");
    assert_eq!(groups[1].game_id, "G2");
    assert_eq!(groups[1].total_viewers, 10);
    let second: Vec<&str> = groups[1].streams.iter().map(|s| s.id.as_str()).collect();
    assert_eq!(second, vec!["c"]);
}

#[test]
fn sorting_ties_keep_input_order() {
    let streams = vec![
        stream("a", "ua", "G1", 10),
        stream("b", "ub", "G2", 5),
        stream("c", "uc", "G1", 10),
        stream("d", "ud", "G3", 15),
    ];
    let games: KeyMap<Game> = KeyMap::new();
    let store = PreferenceStore::new();
    let groups = build_view(&store, streams, &games);
    // totals: G1 = 20, G2 = 5, G3 = 15
    let order: Vec<&str> = groups.iter().map(|g| g.game_id.as_str()).collect();
    assert_eq!(order, vec!["G1", "G3", "G2"]);
    let g1: Vec<&str> = groups[0].streams.iter().map(|s| s.id.as_str()).collect();
    assert_eq!(g1, vec!["a", "c"], "equal viewer counts keep input order");
}

#[test]
fn unknown_game_shows_raw_id() {
    let streams = vec![stream("a", "ua", "G9", 1)];
    let games: KeyMap<Game> = KeyMap::new();
    let store = PreferenceStore::new();
    let groups = build_view(&store, streams, &games);
    assert_eq!(groups.len(), 1);
    assert_eq!(groups[0].name, "G9");
}

#[test]
fn empty_filtered_list_yields_empty_view() {
    let mut store = PreferenceStore::new();
    store.hide_stream("a".to_string());
    let games: KeyMap<Game> = KeyMap::new();
    let groups = build_view(&store, vec![stream("a", "u", "g", 1)], &games);
    assert!(groups.is_empty());
}

#[test]
fn error_typed_stream_aborts_chunk() {
    let mut collected: Vec<Stream> = Vec::new();
    let mut broken = stream("x", "u", "g", 1);
    broken.kind = StreamKind::Error;
    let r = add_streams(&mut collected, vec![stream("a", "u", "g", 1), broken]);
    assert_eq!(r, Err(Error::StreamType));
    assert!(collected.is_empty(), "a refused chunk must leave nothing behind");
    let ok = add_streams(&mut collected, vec![stream("a", "u", "g", 1)]);
    assert_eq!(ok, Ok(()));
    assert_eq!(collected.len(), 1);
}

#[test]
fn missing_user_is_an_error() {
    let streams = vec![stream("a", "u1", "g", 1)];
    let mut users: KeyMap<User> = KeyMap::new();
    let r = view_items(&streams, &users);
    assert_eq!(r, Err(Error::MissingUserInfo));
    users.insert(
        "u1".to_string(),
        User { id: "u1".to_string(), login: "log".to_string(), display_name: "Log".to_string() },
    );
    let items = view_items(&streams, &users).expect("all users known");
    assert_eq!(items.len(), 1);
    assert_eq!(items[0].login, "log");
    assert_eq!(items[0].display_name, "Log");
    assert_eq!(items[0].stream.id, "a");
}

#[test]
fn distinct_game_ids_keep_first_appearance_order() {
    let streams = vec![
        stream("1", "u", "g2", 1),
        stream("2", "u", "g1", 1),
        stream("3", "u", "g2", 1),
        stream("4", "u", "g3", 1),
    ];
    let gids = distinct_game_ids(&streams);
    assert_eq!(gids, vec!["g2".to_string(), "g1".to_string(), "g3".to_string()]);
}

#[test]
fn defer_needs_arguments() {
    let r = check_defer_args(&Vec::new());
    assert_eq!(r, Err(Error::MissingCliArg));
    let ok = check_defer_args(&vec!["monday".to_string()]);
    assert_eq!(ok, Ok(()));
}

#[test]
fn defer_outcome_updates_store() {
    let mut store = PreferenceStore::new();
    let r = store.apply_defer(None);
    assert_eq!(r, Err(Error::EmptyTimespec));
    assert_eq!(store.deferred_until, None, "a failed defer must not touch the store");
    store.apply_defer(Some(1000)).expect("a parsed instant is stored");
    assert_eq!(store.deferred_until, Some(1000));
    assert!(store.is_deferred(999));
    assert!(store.is_deferred(1000), "the instant itself still defers");
    assert!(!store.is_deferred(1001));
    let fresh = PreferenceStore::new();
    assert!(!fresh.is_deferred(0));
}

#[test]
fn token_is_required() {
    let store = PreferenceStore::new();
    assert_eq!(store.token(), Err(Error::MissingAccessToken));
    let mut with = PreferenceStore::new();
    with.access_token = Some("oauthtokenvalue".to_string());
    assert_eq!(with.token(), Ok(&"oauthtokenvalue".to_string()));
}

#[test]
fn unauthorized_status_is_classified() {
    assert_eq!(classify_http_status(401, "https://example".to_string()), Error::InvalidAccessToken);
    assert_eq!(
        classify_http_status(500, "https://example".to_string()),
        Error::UpstreamHttp { status: 500, url: "https://example".to_string() }
    );
}

#[test]
fn duration_label_formats() {
    assert_eq!(duration_text(0, 3900), "1h 5m");
    assert_eq!(duration_text(0, 59 * 60 + 59), "59m");
    assert_eq!(duration_text(0, 3600), "1h 0m");
    assert_eq!(duration_text(0, 0), "0m");
    assert_eq!(duration_text(100, 50), "0m", "a start in the future counts as no time");
    assert_eq!(duration_text(0, 26 * 3600 + 90), "26h 1m");
}

#[test]
fn decimal_writes_plain_numbers() {
    assert_eq!(decimal_string(0), "0");
    assert_eq!(decimal_string(42), "42");
    assert_eq!(decimal_string(1234567890), "1234567890");
    assert_eq!(decimal_string(u64::MAX), "18446744073709551615");
}

#[test]
fn defer_command_respects_part_limit() {
    let exe = "/bin/reporter".to_string();
    let delta = vec!["1".to_string(), "2".to_string(), "3".to_string(), "4".to_string()];
    let parts = build_defer_command(&exe, &delta).expect("six parts fit");
    assert_eq!(parts.len(), 6);
    assert_eq!(parts[0], "/bin/reporter");
    assert_eq!(parts[1], "defer");
    assert_eq!(&parts[2..], &delta[..]);
    let long: Vec<String> = (0..5).map(|i| i.to_string()).collect();
    assert_eq!(build_defer_command(&exe, &long), Err(Error::CommandLength(7)));
}

#[test]
fn id_set_has_value_semantics() {
    let mut set = IdSet::new();
    assert!(!set.contains(&"a".to_string()));
    set.insert("a".to_string());
    set.insert("a".to_string());
    assert_eq!(set.list().len(), 1);
    assert!(set.contains(&"a".to_string()));
    let dedup = IdSet::from_list(&vec!["x".to_string(), "y".to_string(), "x".to_string()]);
    assert_eq!(dedup.list().len(), 2);
    let mut both = IdSet::from_list(&vec!["a".to_string(), "b".to_string()]);
    both.intersect(&IdSet::from_list(&vec!["b".to_string(), "c".to_string()]));
    assert_eq!(both.list(), &vec!["b".to_string()]);
}

#[test]
fn key_map_replaces_on_insert() {
    let mut map: KeyMap<u32> = KeyMap::new();
    map.insert("k".to_string(), 1);
    map.insert("k".to_string(), 2);
    assert_eq!(map.entries().len(), 1);
    assert_eq!(map.get(&"k".to_string()), Some(&2));
    assert_eq!(map.get(&"missing".to_string()), None);
    let rebuilt: KeyMap<u32> = KeyMap::from_entries(vec![
        ("a".to_string(), 1),
        ("b".to_string(), 2),
        ("a".to_string(), 3),
    ]);
    assert_eq!(rebuilt.get(&"a".to_string()), Some(&3), "a later duplicate key wins");
    assert_eq!(rebuilt.entries().len(), 2);
}

#[test]
fn identity_is_cached_once() {
    let mut store = PreferenceStore::new();
    assert!(store.user_id.is_none());
    store.set_user_id("me".to_string());
    assert_eq!(store.user_id.as_deref(), Some("me"));
}

#[test]
fn deferral_gate_reads_the_clock() {
    let fresh = PreferenceStore::new();
    assert!(!stream_report::is_deferred_now(&fresh));
    let mut deferred = PreferenceStore::new();
    deferred.apply_defer(Some(i64::MAX)).expect("a parsed instant is stored");
    assert!(stream_report::is_deferred_now(&deferred));
    let mut past = PreferenceStore::new();
    past.apply_defer(Some(0)).expect("a parsed instant is stored");
    assert!(!stream_report::is_deferred_now(&past));
}
