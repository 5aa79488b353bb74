//! Building the report view: filtering, grouping and ordering.
//!
//! The filtered online streams are grouped by game, streams inside a group
//! are ordered by viewer count descending, and the groups themselves by the
//! group's viewer total descending; both orderings are stable, ties keeping
//! first-appearance order. A game id the fetched game map does not know is
//! displayed as the raw id. Rendering the resulting structure is outside
//! the library.

use vstd::multiset::Multiset;
use vstd::prelude::*;

use crate::errors::Error;
use crate::keymap::KeyMap;
use crate::model::Game;
use crate::model::Stream;
use crate::model::User;
use crate::pipeline::distinct_game_ids;
use crate::pipeline::spec_distinct_game_ids;
use crate::pipeline::lemma_distinct_game_ids_contains;
use crate::pipeline::lemma_distinct_game_ids_no_dup;
use crate::pipeline::spec_id_texts;
use crate::store::PreferenceStore;
use crate::store::spec_hidden_games_for;

verus! {

/// Whether the preference store lets a stream through to the view: neither
/// the stream itself nor its game (for this stream's user) is hidden.
pub open spec fn spec_visible(store: PreferenceStore, s: Stream) -> bool {
    &&& !store.hidden_streams@.contains(s.id@)
    &&& !spec_hidden_games_for(store, s.user_id@).contains(s.game_id@)
}

/// The streams the store lets through, in input order.
pub open spec fn spec_filtered(store: PreferenceStore, streams: Seq<Stream>) -> Seq<Stream>
    decreases streams.len(),
{
    if streams.len() == 0 {
        Seq::empty()
    } else {
        let rest = spec_filtered(store, streams.drop_last());
        if spec_visible(store, streams.last()) {
            rest.push(streams.last())
        } else {
            rest
        }
    }
}

/// Filters the online streams through the store's hide lists, keeping order.
pub fn filter_streams(store: &PreferenceStore, streams: Vec<Stream>) -> (kept: Vec<Stream>)
    ensures
        kept@ == spec_filtered(*store, streams@),
{
    let n = streams.len();
    let mut kept: Vec<Stream> = Vec::new();
    let mut j: usize = 0;
    proof {
        assert(streams@.take(0) =~= Seq::<Stream>::empty());
        assert(kept@ =~= spec_filtered(*store, streams@.take(0)));
    }
    while j < n
        invariant
            n == streams@.len(),
            j <= n,
            kept@ == spec_filtered(*store, streams@.take(j as int)),
        decreases n - j,
    {
        proof {
            assert(streams@.take(j + 1).drop_last() =~= streams@.take(j as int));
            assert(streams@.take(j + 1).last() == streams@[j as int]);
        }
        let s = &streams[j];
        let stream_hidden = store.hidden_streams.contains(&s.id);
        let game_hidden = match store.hidden_games.get(&s.user_id) {
            Some(hidden) => hidden.contains(&s.game_id),
            None => false,
        };
        if !stream_hidden && !game_hidden {
            kept.push(s.clone());
        }
        j = j + 1;
    }
    proof {
        assert(streams@.take(n as int) =~= streams@);
    }
    kept
}

/// The streams of one game, in input order.
pub open spec fn spec_streams_of_game(streams: Seq<Stream>, gid: Seq<char>) -> Seq<Stream>
    decreases streams.len(),
{
    if streams.len() == 0 {
        Seq::empty()
    } else {
        let rest = spec_streams_of_game(streams.drop_last(), gid);
        if streams.last().game_id@ == gid {
            rest.push(streams.last())
        } else {
            rest
        }
    }
}

/// Collects the streams of one game, in input order.
pub fn streams_of_game(streams: &Vec<Stream>, gid: &String) -> (picked: Vec<Stream>)
    ensures
        picked@ == spec_streams_of_game(streams@, gid@),
{
    let n = streams.len();
    let mut picked: Vec<Stream> = Vec::new();
    let mut j: usize = 0;
    proof {
        assert(streams@.take(0) =~= Seq::<Stream>::empty());
        assert(picked@ =~= spec_streams_of_game(streams@.take(0), gid@));
    }
    while j < n
        invariant
            n == streams@.len(),
            j <= n,
            picked@ == spec_streams_of_game(streams@.take(j as int), gid@),
        decreases n - j,
    {
        proof {
            assert(streams@.take(j + 1).drop_last() =~= streams@.take(j as int));
            assert(streams@.take(j + 1).last() == streams@[j as int]);
        }
        if streams[j].game_id == *gid {
            picked.push(streams[j].clone());
        }
        j = j + 1;
    }
    proof {
        assert(streams@.take(n as int) =~= streams@);
    }
    picked
}

/// Adds two viewer counts, stopping at the largest representable count.
pub open spec fn spec_sat_add(a: u64, b: u64) -> u64 {
    if a + b > u64::MAX {
        u64::MAX
    } else {
        (a + b) as u64
    }
}

/// The total viewer count of a stream list, saturating at the largest
/// representable count.
pub open spec fn spec_total_viewers(streams: Seq<Stream>) -> u64
    decreases streams.len(),
{
    if streams.len() == 0 {
        0
    } else {
        spec_sat_add(spec_total_viewers(streams.drop_last()), streams.last().viewer_count)
    }
}

/// Sums a stream list's viewer counts, saturating at the largest
/// representable count.
pub fn total_viewers(streams: &Vec<Stream>) -> (total: u64)
    ensures
        total == spec_total_viewers(streams@),
{
    let n = streams.len();
    let mut total: u64 = 0;
    let mut j: usize = 0;
    proof {
        assert(streams@.take(0) =~= Seq::<Stream>::empty());
    }
    while j < n
        invariant
            n == streams@.len(),
            j <= n,
            total == spec_total_viewers(streams@.take(j as int)),
        decreases n - j,
    {
        proof {
            assert(streams@.take(j + 1).drop_last() =~= streams@.take(j as int));
            assert(streams@.take(j + 1).last() == streams@[j as int]);
        }
        let count = streams[j].viewer_count;
        if total > u64::MAX - count {
            total = u64::MAX;
        } else {
            total = total + count;
        }
        j = j + 1;
    }
    proof {
        assert(streams@.take(n as int) =~= streams@);
    }
    total
}

/// The name the view shows for a game id: the fetched game's name, or the
/// raw id when the game map does not know the id.
pub open spec fn spec_game_name(games: Map<Seq<char>, Game>, gid: Seq<char>) -> Seq<char> {
    if games.contains_key(gid) {
        games[gid].name@
    } else {
        gid
    }
}

/// Resolves the display name for a game id, falling back to the raw id.
pub fn game_display_name(games: &KeyMap<Game>, gid: &String) -> (name: String)
    ensures
        name@ == spec_game_name(games@, gid@),
{
    match games.get(gid) {
        Some(g) => g.name.clone(),
        None => gid.clone(),
    }
}

/// Stable descending insertion of one stream: the stream lands after every
/// already placed stream with at least its viewer count.
pub open spec fn spec_insert_stream_desc(sorted: Seq<Stream>, s: Stream) -> Seq<Stream>
    decreases sorted.len(),
{
    if sorted.len() == 0 {
        seq![s]
    } else if s.viewer_count > sorted.last().viewer_count {
        spec_insert_stream_desc(sorted.drop_last(), s).push(sorted.last())
    } else {
        sorted.push(s)
    }
}

/// Stable sort of a stream list, descending by viewer count: each stream in
/// turn is inserted behind the already placed streams with at least its
/// count, so ties keep input order.
pub open spec fn spec_sort_streams_desc(streams: Seq<Stream>) -> Seq<Stream>
    decreases streams.len(),
{
    if streams.len() == 0 {
        Seq::empty()
    } else {
        spec_insert_stream_desc(spec_sort_streams_desc(streams.drop_last()), streams.last())
    }
}

/// The stable descending insertion lands at the index from which on every
/// placed stream has a smaller count, behind the ones with at least its
/// count.
pub proof fn lemma_insert_stream_desc_at(sorted: Seq<Stream>, s: Stream, j: int)
    requires
        0 <= j <= sorted.len(),
        forall|k: int| j <= k < sorted.len() ==> s.viewer_count > sorted[k].viewer_count,
        j > 0 ==> sorted[j - 1].viewer_count >= s.viewer_count,
    ensures
        spec_insert_stream_desc(sorted, s) == sorted.insert(j, s),
    decreases sorted.len(),
{
    if j == sorted.len() {
        assert(spec_insert_stream_desc(sorted, s) =~= sorted.insert(j, s));
    } else {
        assert(s.viewer_count > sorted.last().viewer_count);
        lemma_insert_stream_desc_at(sorted.drop_last(), s, j);
        assert(spec_insert_stream_desc(sorted, s) =~= sorted.insert(j, s));
    }
}

/// Sorts streams descending by viewer count; ties keep input order.
pub fn sort_streams_desc(streams: Vec<Stream>) -> (sorted: Vec<Stream>)
    ensures
        sorted@ == spec_sort_streams_desc(streams@),
{
    let ghost orig = streams@;
    let mut rest = streams;
    let mut sorted: Vec<Stream> = Vec::new();
    let ghost i: int = 0;
    proof {
        assert(orig.take(0) =~= Seq::<Stream>::empty());
        assert(sorted@ =~= spec_sort_streams_desc(orig.take(0)));
    }
    while rest.len() > 0
        invariant
            0 <= i <= orig.len(),
            rest@ =~= orig.skip(i),
            sorted@ == spec_sort_streams_desc(orig.take(i)),
        decreases rest@.len(),
    {
        let s = rest.remove(0);
        proof {
            assert(s == orig[i]);
            assert(orig.take(i + 1).drop_last() =~= orig.take(i));
            assert(orig.take(i + 1).last() == orig[i]);
        }
        let mut j: usize = sorted.len();
        while j > 0 && s.viewer_count > sorted[j - 1].viewer_count
            invariant
                j <= sorted@.len(),
                forall|k: int| j <= k < sorted@.len() ==> s.viewer_count > sorted@[k].viewer_count,
            decreases j,
        {
            j = j - 1;
        }
        proof {
            lemma_insert_stream_desc_at(sorted@, s, j as int);
        }
        sorted.insert(j, s);
        proof {
            i = i + 1;
            assert(rest@ =~= orig.skip(i));
        }
    }
    proof {
        assert(orig.take(i) =~= orig);
    }
    sorted
}

/// What descending order by viewer count means, equal neighbours allowed.
pub open spec fn spec_sorted_desc(streams: Seq<Stream>) -> bool {
    forall|a: int, b: int|
        0 <= a < b < streams.len() ==> streams[a].viewer_count >= streams[b].viewer_count
}

/// Inserting a stream whose count respects a lower bound keeps the bound.
proof fn lemma_insert_stream_desc_geq(sorted: Seq<Stream>, s: Stream, c: u64)
    requires
        forall|k: int| 0 <= k < sorted.len() ==> sorted[k].viewer_count >= c,
        s.viewer_count >= c,
    ensures
        forall|k: int|
            0 <= k < spec_insert_stream_desc(sorted, s).len()
                ==> spec_insert_stream_desc(sorted, s)[k].viewer_count >= c,
    decreases sorted.len(),
{
    if sorted.len() == 0 {
    } else if s.viewer_count > sorted.last().viewer_count {
        lemma_insert_stream_desc_geq(sorted.drop_last(), s, c);
    }
}

/// The stable descending insertion keeps the list sorted.
pub proof fn lemma_insert_stream_desc_sorted(sorted: Seq<Stream>, s: Stream)
    requires
        spec_sorted_desc(sorted),
    ensures
        spec_sorted_desc(spec_insert_stream_desc(sorted, s)),
    decreases sorted.len(),
{
    if sorted.len() == 0 {
    } else if s.viewer_count > sorted.last().viewer_count {
        assert(spec_sorted_desc(sorted.drop_last()));
        lemma_insert_stream_desc_sorted(sorted.drop_last(), s);
        lemma_insert_stream_desc_geq(sorted.drop_last(), s, sorted.last().viewer_count);
        let out = spec_insert_stream_desc(sorted.drop_last(), s).push(sorted.last());
        assert forall|a: int, b: int| 0 <= a < b < out.len() implies out[a].viewer_count
            >= out[b].viewer_count by {
            if b < out.len() - 1 {
                assert(out[a] == spec_insert_stream_desc(sorted.drop_last(), s)[a]);
                assert(out[b] == spec_insert_stream_desc(sorted.drop_last(), s)[b]);
            }
        }
    } else {
        let out = sorted.push(s);
        assert forall|a: int, b: int| 0 <= a < b < out.len() implies out[a].viewer_count
            >= out[b].viewer_count by {
            if b == out.len() - 1 {
                if a < sorted.len() - 1 {
                    assert(sorted[a].viewer_count >= sorted[sorted.len() - 1].viewer_count);
                }
            }
        }
    }
}

/// The sorted stream list really is descending by viewer count.
pub proof fn lemma_sort_streams_desc_sorted(streams: Seq<Stream>)
    ensures
        spec_sorted_desc(spec_sort_streams_desc(streams)),
    decreases streams.len(),
{
    if streams.len() > 0 {
        lemma_sort_streams_desc_sorted(streams.drop_last());
        lemma_insert_stream_desc_sorted(spec_sort_streams_desc(streams.drop_last()), streams.last());
    }
}

/// The stable descending insertion adds exactly the inserted stream.
pub proof fn lemma_insert_stream_desc_multiset(sorted: Seq<Stream>, s: Stream)
    ensures
        spec_insert_stream_desc(sorted, s).to_multiset() == sorted.to_multiset().insert(s),
    decreases sorted.len(),
{
    sorted.to_multiset_ensures();
    if sorted.len() == 0 {
        assert(seq![s] =~= Seq::<Stream>::empty().push(s));
        Seq::<Stream>::empty().to_multiset_ensures();
    } else if s.viewer_count > sorted.last().viewer_count {
        lemma_insert_stream_desc_multiset(sorted.drop_last(), s);
        sorted.drop_last().to_multiset_ensures();
        spec_insert_stream_desc(sorted.drop_last(), s).to_multiset_ensures();
        assert(sorted =~= sorted.drop_last().push(sorted.last()));
        assert(spec_insert_stream_desc(sorted, s).to_multiset() =~= sorted.to_multiset().insert(
            s,
        ));
    }
}

/// The sorted stream list is a permutation of the input.
pub proof fn lemma_sort_streams_desc_permutes(streams: Seq<Stream>)
    ensures
        spec_sort_streams_desc(streams).to_multiset() == streams.to_multiset(),
    decreases streams.len(),
{
    if streams.len() > 0 {
        let dl = streams.drop_last();
        let last = streams.last();
        lemma_sort_streams_desc_permutes(dl);
        lemma_insert_stream_desc_multiset(spec_sort_streams_desc(dl), last);
        dl.to_multiset_ensures();
        assert(streams =~= dl.push(last));
        assert(dl.push(last).to_multiset() == dl.to_multiset().insert(last));
        assert(spec_sort_streams_desc(streams).to_multiset() == dl.to_multiset().insert(last));
    } else {
        assert(streams =~= Seq::<Stream>::empty());
    }
}

/// One game's section of the report.
#[derive(Debug, PartialEq, Eq)]
pub struct GameGroup {
    /// The game id the group collects.
    pub game_id: String,
    /// The name the view shows: the fetched game's name, or the raw id.
    pub name: String,
    /// The group's viewer total, saturating at the largest representable count.
    pub total_viewers: u64,
    /// The group's streams, descending by viewer count, ties in input order.
    pub streams: Vec<Stream>,
}

/// The mathematical content of a [`GameGroup`].
pub struct GroupView {
    pub game_id: Seq<char>,
    pub name: Seq<char>,
    pub total_viewers: u64,
    pub streams: Seq<Stream>,
}

impl View for GameGroup {
    type V = GroupView;

    open spec fn view(&self) -> GroupView {
        GroupView {
            game_id: self.game_id@,
            name: self.name@,
            total_viewers: self.total_viewers,
            streams: self.streams@,
        }
    }
}

/// The views of a list of groups, in order.
pub open spec fn spec_group_views(groups: Seq<GameGroup>) -> Seq<GroupView> {
    groups.map_values(|g: GameGroup| g@)
}

/// The group one game id collects: its streams in input order sorted
/// descending by viewer count, its display name, and its viewer total.
pub open spec fn spec_group_for(
    streams: Seq<Stream>,
    games: Map<Seq<char>, Game>,
    gid: Seq<char>,
) -> GroupView {
    GroupView {
        game_id: gid,
        name: spec_game_name(games, gid),
        total_viewers: spec_total_viewers(spec_streams_of_game(streams, gid)),
        streams: spec_sort_streams_desc(spec_streams_of_game(streams, gid)),
    }
}

/// One group per game id, in the given id order.
pub open spec fn spec_groups_for(
    streams: Seq<Stream>,
    games: Map<Seq<char>, Game>,
    gids: Seq<Seq<char>>,
) -> Seq<GroupView>
    decreases gids.len(),
{
    if gids.len() == 0 {
        Seq::empty()
    } else {
        spec_groups_for(streams, games, gids.drop_last()).push(
            spec_group_for(streams, games, gids.last()),
        )
    }
}

/// Stable descending insertion of one group: the group lands after every
/// already placed group with at least its viewer total.
pub open spec fn spec_insert_group_desc(sorted: Seq<GroupView>, g: GroupView) -> Seq<GroupView>
    decreases sorted.len(),
{
    if sorted.len() == 0 {
        seq![g]
    } else if g.total_viewers > sorted.last().total_viewers {
        spec_insert_group_desc(sorted.drop_last(), g).push(sorted.last())
    } else {
        sorted.push(g)
    }
}

/// Stable sort of a group list, descending by viewer total: ties keep the
/// games' first-appearance order.
pub open spec fn spec_sort_groups_desc(groups: Seq<GroupView>) -> Seq<GroupView>
    decreases groups.len(),
{
    if groups.len() == 0 {
        Seq::empty()
    } else {
        spec_insert_group_desc(spec_sort_groups_desc(groups.drop_last()), groups.last())
    }
}

/// The stable descending group insertion lands at the index from which on
/// every placed group has a smaller total, behind the ones with at least
/// its total.
pub proof fn lemma_insert_group_desc_at(sorted: Seq<GroupView>, g: GroupView, j: int)
    requires
        0 <= j <= sorted.len(),
        forall|k: int| j <= k < sorted.len() ==> g.total_viewers > sorted[k].total_viewers,
        j > 0 ==> sorted[j - 1].total_viewers >= g.total_viewers,
    ensures
        spec_insert_group_desc(sorted, g) == sorted.insert(j, g),
    decreases sorted.len(),
{
    if j == sorted.len() {
        assert(spec_insert_group_desc(sorted, g) =~= sorted.insert(j, g));
    } else {
        assert(g.total_viewers > sorted.last().total_viewers);
        lemma_insert_group_desc_at(sorted.drop_last(), g, j);
        assert(spec_insert_group_desc(sorted, g) =~= sorted.insert(j, g));
    }
}

/// What descending order by viewer total means, equal neighbours allowed.
pub open spec fn spec_groups_sorted_desc(groups: Seq<GroupView>) -> bool {
    forall|a: int, b: int|
        0 <= a < b < groups.len() ==> groups[a].total_viewers >= groups[b].total_viewers
}

/// Inserting a group whose total respects a lower bound keeps the bound.
proof fn lemma_insert_group_desc_geq(sorted: Seq<GroupView>, g: GroupView, c: u64)
    requires
        forall|k: int| 0 <= k < sorted.len() ==> sorted[k].total_viewers >= c,
        g.total_viewers >= c,
    ensures
        forall|k: int|
            0 <= k < spec_insert_group_desc(sorted, g).len()
                ==> spec_insert_group_desc(sorted, g)[k].total_viewers >= c,
    decreases sorted.len(),
{
    let out = spec_insert_group_desc(sorted, g);
    if sorted.len() == 0 {
        assert(out[0] == g);
    } else if g.total_viewers > sorted.last().total_viewers {
        lemma_insert_group_desc_geq(sorted.drop_last(), g, c);
        let inner = spec_insert_group_desc(sorted.drop_last(), g);
        assert forall|k: int| 0 <= k < out.len() implies out[k].total_viewers >= c by {
            if k < out.len() - 1 {
                assert(out[k] == inner[k]);
            } else {
                assert(out[k] == sorted.last());
            }
        }
    } else {
        assert forall|k: int| 0 <= k < out.len() implies out[k].total_viewers >= c by {
            if k < sorted.len() {
                assert(out[k] == sorted[k]);
            } else {
                assert(out[k] == g);
            }
        }
    }
}

/// The stable descending group insertion keeps the list sorted.
pub proof fn lemma_insert_group_desc_sorted(sorted: Seq<GroupView>, g: GroupView)
    requires
        spec_groups_sorted_desc(sorted),
    ensures
        spec_groups_sorted_desc(spec_insert_group_desc(sorted, g)),
    decreases sorted.len(),
{
    if sorted.len() == 0 {
    } else if g.total_viewers > sorted.last().total_viewers {
        assert(spec_groups_sorted_desc(sorted.drop_last()));
        lemma_insert_group_desc_sorted(sorted.drop_last(), g);
        lemma_insert_group_desc_geq(sorted.drop_last(), g, sorted.last().total_viewers);
        let out = spec_insert_group_desc(sorted.drop_last(), g).push(sorted.last());
        assert forall|a: int, b: int| 0 <= a < b < out.len() implies out[a].total_viewers
            >= out[b].total_viewers by {
            if b < out.len() - 1 {
                assert(out[a] == spec_insert_group_desc(sorted.drop_last(), g)[a]);
                assert(out[b] == spec_insert_group_desc(sorted.drop_last(), g)[b]);
            }
        }
    } else {
        let out = sorted.push(g);
        assert forall|a: int, b: int| 0 <= a < b < out.len() implies out[a].total_viewers
            >= out[b].total_viewers by {
            if b == out.len() - 1 {
                if a < sorted.len() - 1 {
                    assert(sorted[a].total_viewers >= sorted[sorted.len() - 1].total_viewers);
                }
            }
        }
    }
}

/// The sorted group list really is descending by viewer total.
pub proof fn lemma_sort_groups_desc_sorted(groups: Seq<GroupView>)
    ensures
        spec_groups_sorted_desc(spec_sort_groups_desc(groups)),
    decreases groups.len(),
{
    if groups.len() > 0 {
        lemma_sort_groups_desc_sorted(groups.drop_last());
        lemma_insert_group_desc_sorted(spec_sort_groups_desc(groups.drop_last()), groups.last());
    }
}

/// The stable descending group insertion adds exactly the inserted group.
pub proof fn lemma_insert_group_desc_multiset(sorted: Seq<GroupView>, g: GroupView)
    ensures
        spec_insert_group_desc(sorted, g).to_multiset() == sorted.to_multiset().insert(g),
    decreases sorted.len(),
{
    sorted.to_multiset_ensures();
    if sorted.len() == 0 {
        assert(seq![g] =~= Seq::<GroupView>::empty().push(g));
        Seq::<GroupView>::empty().to_multiset_ensures();
    } else if g.total_viewers > sorted.last().total_viewers {
        lemma_insert_group_desc_multiset(sorted.drop_last(), g);
        sorted.drop_last().to_multiset_ensures();
        spec_insert_group_desc(sorted.drop_last(), g).to_multiset_ensures();
        assert(sorted =~= sorted.drop_last().push(sorted.last()));
        assert(spec_insert_group_desc(sorted, g).to_multiset() =~= sorted.to_multiset().insert(g));
    }
}

/// The sorted group list is a permutation of the input.
pub proof fn lemma_sort_groups_desc_permutes(groups: Seq<GroupView>)
    ensures
        spec_sort_groups_desc(groups).to_multiset() == groups.to_multiset(),
    decreases groups.len(),
{
    if groups.len() > 0 {
        let dl = groups.drop_last();
        let last = groups.last();
        lemma_sort_groups_desc_permutes(dl);
        lemma_insert_group_desc_multiset(spec_sort_groups_desc(dl), last);
        dl.to_multiset_ensures();
        assert(groups =~= dl.push(last));
        assert(dl.push(last).to_multiset() == dl.to_multiset().insert(last));
        assert(spec_sort_groups_desc(groups).to_multiset() == dl.to_multiset().insert(last));
    } else {
        assert(groups =~= Seq::<GroupView>::empty());
    }
}

/// Builds the ordered report: the streams the store lets through, grouped
/// by game in first-appearance order, each group's streams descending by
/// viewer count, and the groups descending by viewer total; both orderings
/// stable. Unknown game ids are shown as the raw id. An empty filtered
/// list yields the empty view.
pub fn build_view(store: &PreferenceStore, streams: Vec<Stream>, games: &KeyMap<Game>) -> (groups:
    Vec<GameGroup>)
    ensures
        spec_group_views(groups@) == spec_sort_groups_desc(
            spec_groups_for(
                spec_filtered(*store, streams@),
                games@,
                spec_distinct_game_ids(spec_filtered(*store, streams@)),
            ),
        ),
{
    let kept = filter_streams(store, streams);
    let gids = distinct_game_ids(&kept);
    let ghost gtexts = spec_distinct_game_ids(kept@);
    let n = gids.len();
    let mut unsorted: Vec<GameGroup> = Vec::new();
    let mut t: usize = 0;
    proof {
        assert(gtexts.take(0) =~= Seq::<Seq<char>>::empty());
        assert(spec_group_views(unsorted@) =~= spec_groups_for(kept@, games@, gtexts.take(0)));
    }
    while t < n
        invariant
            n == gids@.len(),
            t <= n,
            gtexts == spec_id_texts(gids@),
            spec_group_views(unsorted@) == spec_groups_for(kept@, games@, gtexts.take(t as int)),
        decreases n - t,
    {
        proof {
            assert(gtexts.take(t + 1).drop_last() =~= gtexts.take(t as int));
            assert(gtexts.take(t + 1).last() == gtexts[t as int]);
            assert(gtexts[t as int] == gids@[t as int]@);
        }
        let gid = &gids[t];
        let picked = streams_of_game(&kept, gid);
        let total = total_viewers(&picked);
        let sorted_streams = sort_streams_desc(picked);
        let name = game_display_name(games, gid);
        let ghost before = unsorted@;
        unsorted.push(
            GameGroup { game_id: gid.clone(), name, total_viewers: total, streams: sorted_streams },
        );
        proof {
            assert(spec_group_views(unsorted@) =~= spec_group_views(before).push(
                spec_group_for(kept@, games@, gtexts[t as int]),
            ));
        }
        t = t + 1;
    }
    proof {
        assert(gtexts.take(n as int) =~= gtexts);
    }
    let ghost gviews = spec_group_views(unsorted@);
    let mut rest = unsorted;
    let mut groups: Vec<GameGroup> = Vec::new();
    let ghost i: int = 0;
    proof {
        assert(gviews.take(0) =~= Seq::<GroupView>::empty());
        assert(spec_group_views(groups@) =~= spec_sort_groups_desc(gviews.take(0)));
    }
    while rest.len() > 0
        invariant
            0 <= i <= gviews.len(),
            rest@.len() == gviews.len() - i,
            spec_group_views(rest@) == gviews.skip(i),
            spec_group_views(groups@) == spec_sort_groups_desc(gviews.take(i)),
        decreases rest@.len(),
    {
        let ghost rest_before = rest@;
        let g = rest.remove(0);
        proof {
            assert(g == rest_before[0]);
            assert(spec_group_views(rest_before)[0] == rest_before[0]@);
            assert(gviews.skip(i)[0] == gviews[i]);
            assert(g@ == gviews[i]);
            assert forall|k: int| 0 <= k < rest@.len() implies spec_group_views(rest@)[k]
                == gviews.skip(i + 1)[k] by {
                assert(spec_group_views(rest@)[k] == rest@[k]@);
                assert(rest@[k] == rest_before[k + 1]);
                assert(spec_group_views(rest_before)[k + 1] == rest_before[k + 1]@);
                assert(spec_group_views(rest_before)[k + 1] == gviews.skip(i)[k + 1]);
                assert(gviews.skip(i)[k + 1] == gviews[i + 1 + k]);
                assert(gviews.skip(i + 1)[k] == gviews[i + 1 + k]);
            }
            assert(spec_group_views(rest@) =~= gviews.skip(i + 1));
            assert(gviews.take(i + 1).drop_last() =~= gviews.take(i));
            assert(gviews.take(i + 1).last() == gviews[i]);
        }
        let mut j: usize = groups.len();
        while j > 0 && g.total_viewers > groups[j - 1].total_viewers
            invariant
                j <= groups@.len(),
                forall|k: int|
                    j <= k < groups@.len() ==> g.total_viewers > groups@[k].total_viewers,
            decreases j,
        {
            j = j - 1;
        }
        let ghost sorted_before = spec_group_views(groups@);
        proof {
            assert(forall|k: int|
                j <= k < sorted_before.len() ==> g@.total_viewers > sorted_before[k].total_viewers);
            lemma_insert_group_desc_at(sorted_before, g@, j as int);
        }
        groups.insert(j, g);
        proof {
            assert(spec_group_views(groups@) =~= sorted_before.insert(j as int, gviews[i]));
            i = i + 1;
        }
    }
    proof {
        assert(gviews.take(i) =~= gviews);
    }
    groups
}

/// One rendered line of the report: a stream with its user's names.
#[derive(Debug, PartialEq, Eq)]
pub struct ViewItem {
    pub stream: Stream,
    /// The user's login, for the channel and chat addresses.
    pub login: String,
    /// The user's display name, the line's heading.
    pub display_name: String,
}

/// The mathematical content of a [`ViewItem`].
pub struct ItemView {
    pub stream: Stream,
    pub login: Seq<char>,
    pub display_name: Seq<char>,
}

impl View for ViewItem {
    type V = ItemView;

    open spec fn view(&self) -> ItemView {
        ItemView { stream: self.stream, login: self.login@, display_name: self.display_name@ }
    }
}

/// The views of a list of items, in order.
pub open spec fn spec_item_views(items: Seq<ViewItem>) -> Seq<ItemView> {
    items.map_values(|it: ViewItem| it@)
}

/// Whether the user map knows every stream's user.
pub open spec fn spec_users_known(users: Map<Seq<char>, User>, streams: Seq<Stream>) -> bool {
    forall|i: int| 0 <= i < streams.len() ==> users.contains_key(streams[i].user_id@)
}

/// The rendered lines for a stream list whose users are all known.
pub open spec fn spec_view_items(users: Map<Seq<char>, User>, streams: Seq<Stream>) -> Seq<ItemView>
    recommends
        spec_users_known(users, streams),
    decreases streams.len(),
{
    if streams.len() == 0 {
        Seq::empty()
    } else {
        spec_view_items(users, streams.drop_last()).push(
            ItemView {
                stream: streams.last(),
                login: users[streams.last().user_id@].login@,
                display_name: users[streams.last().user_id@].display_name@,
            },
        )
    }
}

/// Pairs each stream with its user's names for rendering. A stream whose
/// user the resolved map does not know is an upstream inconsistency: the
/// whole list is refused with [`Error::MissingUserInfo`], exactly when one
/// such stream exists.
pub fn view_items(streams: &Vec<Stream>, users: &KeyMap<User>) -> (r: Result<Vec<ViewItem>, Error>)
    ensures
        match r {
            Ok(items) => {
                &&& spec_users_known(users@, streams@)
                &&& spec_item_views(items@) == spec_view_items(users@, streams@)
            },
            Err(e) => e == Error::MissingUserInfo && !spec_users_known(users@, streams@),
        },
{
    let n = streams.len();
    let mut items: Vec<ViewItem> = Vec::new();
    let mut j: usize = 0;
    proof {
        assert(streams@.take(0) =~= Seq::<Stream>::empty());
        assert(spec_item_views(items@) =~= spec_view_items(users@, streams@.take(0)));
    }
    while j < n
        invariant
            n == streams@.len(),
            j <= n,
            forall|k: int| 0 <= k < j ==> users@.contains_key(streams@[k].user_id@),
            spec_item_views(items@) == spec_view_items(users@, streams@.take(j as int)),
        decreases n - j,
    {
        proof {
            assert(streams@.take(j + 1).drop_last() =~= streams@.take(j as int));
            assert(streams@.take(j + 1).last() == streams@[j as int]);
        }
        let s = &streams[j];
        match users.get(&s.user_id) {
            Some(u) => {
                let ghost before = items@;
                items.push(
                    ViewItem {
                        stream: s.clone(),
                        login: u.login.clone(),
                        display_name: u.display_name.clone(),
                    },
                );
                proof {
                    assert(spec_item_views(items@) =~= spec_item_views(before).push(
                        ItemView {
                            stream: streams@[j as int],
                            login: users@[streams@[j as int].user_id@].login@,
                            display_name: users@[streams@[j as int].user_id@].display_name@,
                        },
                    ));
                }
            },
            None => {
                return Err(Error::MissingUserInfo);
            },
        }
        j = j + 1;
    }
    proof {
        assert(streams@.take(n as int) =~= streams@);
    }
    Ok(items)
}

/// All streams of a group list, in group order.
pub open spec fn spec_concat_group_streams(groups: Seq<GroupView>) -> Seq<Stream>
    decreases groups.len(),
{
    if groups.len() == 0 {
        Seq::empty()
    } else {
        spec_concat_group_streams(groups.drop_last()) + groups.last().streams
    }
}

/// An empty stream list holds no items.
proof fn lemma_empty_to_multiset(s: Seq<Stream>)
    requires
        s.len() == 0,
    ensures
        s.to_multiset() == Multiset::<Stream>::empty(),
{
    s.to_multiset_ensures();
    assert(s.to_multiset() =~= Multiset::<Stream>::empty());
}

/// The items of a concatenation are the items of both parts together.
proof fn lemma_to_multiset_concat(a: Seq<Stream>, b: Seq<Stream>)
    ensures
        (a + b).to_multiset() == a.to_multiset().add(b.to_multiset()),
    decreases b.len(),
{
    if b.len() == 0 {
        assert(a + b =~= a);
        lemma_empty_to_multiset(b);
        assert(a.to_multiset().add(Multiset::<Stream>::empty()) =~= a.to_multiset());
    } else {
        let db = b.drop_last();
        let x = b.last();
        lemma_to_multiset_concat(a, db);
        db.to_multiset_ensures();
        (a + db).to_multiset_ensures();
        assert(a + b =~= (a + db).push(x));
        assert(b =~= db.push(x));
        assert((a + b).to_multiset() == (a + db).to_multiset().insert(x));
        assert(b.to_multiset() == db.to_multiset().insert(x));
        assert(a.to_multiset().add(db.to_multiset().insert(x)) =~= a.to_multiset().add(
            db.to_multiset(),
        ).insert(x));
    }
}

/// A stream list in which no stream references a game yields that game the
/// empty group.
proof fn lemma_streams_of_game_absent(streams: Seq<Stream>, g: Seq<char>)
    requires
        forall|i: int| 0 <= i < streams.len() ==> streams[i].game_id@ != g,
    ensures
        spec_streams_of_game(streams, g) == Seq::<Stream>::empty(),
    decreases streams.len(),
{
    if streams.len() > 0 {
        assert(forall|i: int|
            0 <= i < streams.drop_last().len() ==> (#[trigger] streams.drop_last()[i]).game_id@
                != g);
        lemma_streams_of_game_absent(streams.drop_last(), g);
        assert(streams[streams.len() - 1].game_id@ != g);
    }
}

/// Appending one stream to the input adds exactly that stream to its own
/// game's group and leaves every other group's items unchanged.
proof fn lemma_concat_groups_extend(
    dl: Seq<Stream>,
    x: Stream,
    games: Map<Seq<char>, Game>,
    gids: Seq<Seq<char>>,
)
    requires
        forall|i: int, j: int| 0 <= i < j < gids.len() ==> gids[i] != gids[j],
    ensures
        gids.contains(x.game_id@) ==> spec_concat_group_streams(
            spec_groups_for(dl.push(x), games, gids),
        ).to_multiset() == spec_concat_group_streams(
            spec_groups_for(dl, games, gids),
        ).to_multiset().insert(x),
        !gids.contains(x.game_id@) ==> spec_concat_group_streams(
            spec_groups_for(dl.push(x), games, gids),
        ).to_multiset() == spec_concat_group_streams(
            spec_groups_for(dl, games, gids),
        ).to_multiset(),
    decreases gids.len(),
{
    let s = dl.push(x);
    if gids.len() == 0 {
        assert(!gids.contains(x.game_id@));
    } else {
        let gd = gids.drop_last();
        let g = gids.last();
        assert forall|i: int, j: int| 0 <= i < j < gd.len() implies gd[i] != gd[j] by {
            assert(gd[i] == gids[i] && gd[j] == gids[j]);
        }
        lemma_concat_groups_extend(dl, x, games, gd);

        // membership in the whole id list, split into the front and the last id
        assert(gids.contains(x.game_id@) <==> (gd.contains(x.game_id@) || g == x.game_id@)) by {
            if gids.contains(x.game_id@) {
                let k = choose|k: int| 0 <= k < gids.len() && gids[k] == x.game_id@;
                if k < gids.len() - 1 {
                    assert(gd[k] == x.game_id@);
                }
            }
            if gd.contains(x.game_id@) {
                let k = choose|k: int| 0 <= k < gd.len() && gd[k] == x.game_id@;
                assert(gids[k] == x.game_id@);
            }
        }

        // the whole id list's group list is the front's plus the last id's group
        let front_s = spec_groups_for(s, games, gd);
        let front_d = spec_groups_for(dl, games, gd);
        assert(spec_groups_for(s, games, gids).drop_last() =~= front_s);
        assert(spec_groups_for(dl, games, gids).drop_last() =~= front_d);
        let sorted_s = spec_sort_streams_desc(spec_streams_of_game(s, g));
        let sorted_d = spec_sort_streams_desc(spec_streams_of_game(dl, g));
        lemma_to_multiset_concat(spec_concat_group_streams(front_s), sorted_s);
        lemma_to_multiset_concat(spec_concat_group_streams(front_d), sorted_d);
        lemma_sort_streams_desc_permutes(spec_streams_of_game(s, g));
        lemma_sort_streams_desc_permutes(spec_streams_of_game(dl, g));

        // what appending the stream does to the last id's selection
        assert(s.drop_last() =~= dl);
        assert(s.last() == x);
        let cf_s = spec_concat_group_streams(front_s).to_multiset();
        let cf_d = spec_concat_group_streams(front_d).to_multiset();
        let mg_d = spec_streams_of_game(dl, g).to_multiset();
        if g == x.game_id@ {
            // the last id cannot also stand in the front of a duplicate-free list
            assert(!gd.contains(x.game_id@)) by {
                if gd.contains(x.game_id@) {
                    let k = choose|k: int| 0 <= k < gd.len() && gd[k] == x.game_id@;
                    assert(gids[k] == gids[gids.len() - 1]);
                }
            }
            assert(spec_streams_of_game(s, g) == spec_streams_of_game(dl, g).push(x));
            spec_streams_of_game(dl, g).to_multiset_ensures();
            assert(cf_s == cf_d);
            assert(cf_d.add(mg_d.insert(x)) =~= cf_d.add(mg_d).insert(x));
        } else {
            assert(spec_streams_of_game(s, g) == spec_streams_of_game(dl, g));
            if gd.contains(x.game_id@) {
                assert(cf_s == cf_d.insert(x));
                assert(cf_d.insert(x).add(mg_d) =~= cf_d.add(mg_d).insert(x));
            } else {
                assert(cf_s == cf_d);
            }
        }
    }
}

/// Grouping conserves the streams: the groups of the distinct game ids
/// hold, all together, exactly the input streams.
pub proof fn lemma_groups_partition_streams(streams: Seq<Stream>, games: Map<Seq<char>, Game>)
    ensures
        spec_concat_group_streams(
            spec_groups_for(streams, games, spec_distinct_game_ids(streams)),
        ).to_multiset() == streams.to_multiset(),
    decreases streams.len(),
{
    if streams.len() == 0 {
        lemma_empty_to_multiset(streams);
        lemma_empty_to_multiset(
            spec_concat_group_streams(
                spec_groups_for(streams, games, spec_distinct_game_ids(streams)),
            ),
        );
    } else {
        let dl = streams.drop_last();
        let x = streams.last();
        assert(streams =~= dl.push(x));
        lemma_groups_partition_streams(dl, games);
        lemma_distinct_game_ids_no_dup(dl);
        let front_ids = spec_distinct_game_ids(dl);
        let all_ids = spec_distinct_game_ids(streams);
        dl.to_multiset_ensures();
        if front_ids.contains(x.game_id@) {
            assert(all_ids == front_ids);
            lemma_concat_groups_extend(dl, x, games, front_ids);
        } else {
            assert(all_ids == front_ids.push(x.game_id@));
            // the new id's group over the old streams is empty
            lemma_distinct_game_ids_contains(dl, x.game_id@);
            assert(forall|i: int| 0 <= i < dl.len() ==> dl[i].game_id@ != x.game_id@);
            lemma_streams_of_game_absent(dl, x.game_id@);
            assert(all_ids.drop_last() =~= front_ids);
            assert(all_ids.last() == x.game_id@);
            assert(spec_groups_for(dl, games, all_ids).drop_last() =~= spec_groups_for(
                dl,
                games,
                front_ids,
            ));
            let empty_group = spec_sort_streams_desc(spec_streams_of_game(dl, x.game_id@));
            lemma_sort_streams_desc_permutes(spec_streams_of_game(dl, x.game_id@));
            lemma_empty_to_multiset(spec_streams_of_game(dl, x.game_id@));
            lemma_to_multiset_concat(
                spec_concat_group_streams(spec_groups_for(dl, games, front_ids)),
                empty_group,
            );
            let c_front = spec_concat_group_streams(
                spec_groups_for(dl, games, front_ids),
            ).to_multiset();
            assert(spec_concat_group_streams(spec_groups_for(dl, games, all_ids)).to_multiset()
                =~= c_front);
            // the extended id list is still duplicate-free
            assert(forall|i: int, j: int|
                0 <= i < j < all_ids.len() ==> all_ids[i] != all_ids[j]) by {
                lemma_distinct_game_ids_no_dup(streams);
            }
            assert(all_ids.contains(x.game_id@)) by {
                assert(all_ids[all_ids.len() - 1] == x.game_id@);
            }
            lemma_concat_groups_extend(dl, x, games, all_ids);
        }
    }
}

/// The stable descending group insertion conserves the groups' streams.
proof fn lemma_concat_insert_group(sorted: Seq<GroupView>, g: GroupView)
    ensures
        spec_concat_group_streams(spec_insert_group_desc(sorted, g)).to_multiset()
            == spec_concat_group_streams(sorted).to_multiset().add(g.streams.to_multiset()),
    decreases sorted.len(),
{
    if sorted.len() == 0 {
        assert(seq![g].drop_last() =~= Seq::<GroupView>::empty());
        assert(seq![g].last() == g);
        assert(spec_concat_group_streams(seq![g].drop_last()) =~= Seq::<Stream>::empty());
        assert(spec_concat_group_streams(seq![g]) =~= Seq::<Stream>::empty() + g.streams);
        lemma_to_multiset_concat(Seq::<Stream>::empty(), g.streams);
        lemma_empty_to_multiset(Seq::<Stream>::empty());
        lemma_empty_to_multiset(spec_concat_group_streams(sorted));
        assert(Multiset::<Stream>::empty().add(g.streams.to_multiset())
            =~= spec_concat_group_streams(sorted).to_multiset().add(g.streams.to_multiset()));
    } else if g.total_viewers > sorted.last().total_viewers {
        let dl = sorted.drop_last();
        let last = sorted.last();
        lemma_concat_insert_group(dl, g);
        let ins = spec_insert_group_desc(dl, g).push(last);
        assert(ins.drop_last() =~= spec_insert_group_desc(dl, g));
        lemma_to_multiset_concat(
            spec_concat_group_streams(spec_insert_group_desc(dl, g)),
            last.streams,
        );
        lemma_to_multiset_concat(spec_concat_group_streams(dl), last.streams);
        let cd = spec_concat_group_streams(dl).to_multiset();
        let lm = last.streams.to_multiset();
        let gm = g.streams.to_multiset();
        assert(cd.add(gm).add(lm) =~= cd.add(lm).add(gm));
    } else {
        let ins = sorted.push(g);
        assert(ins.drop_last() =~= sorted);
        lemma_to_multiset_concat(spec_concat_group_streams(sorted), g.streams);
    }
}

/// Sorting the groups conserves the groups' streams.
proof fn lemma_sort_groups_concat(groups: Seq<GroupView>)
    ensures
        spec_concat_group_streams(spec_sort_groups_desc(groups)).to_multiset()
            == spec_concat_group_streams(groups).to_multiset(),
    decreases groups.len(),
{
    if groups.len() > 0 {
        let dl = groups.drop_last();
        let last = groups.last();
        lemma_sort_groups_concat(dl);
        lemma_concat_insert_group(spec_sort_groups_desc(dl), last);
        lemma_to_multiset_concat(spec_concat_group_streams(dl), last.streams);
    }
}

/// With no streams to show, the view is empty.
pub proof fn lemma_no_streams_empty_view(streams: Seq<Stream>, games: Map<Seq<char>, Game>)
    requires
        streams.len() == 0,
    ensures
        spec_sort_groups_desc(
            spec_groups_for(streams, games, spec_distinct_game_ids(streams)),
        ).len() == 0,
{
    assert(spec_distinct_game_ids(streams) =~= Seq::<Seq<char>>::empty());
    assert(spec_groups_for(streams, games, spec_distinct_game_ids(streams)) =~= Seq::<
        GroupView,
    >::empty());
}

/// Conservation law of the report: the ordered groups together hold exactly
/// the streams they were built from — grouping and both sorts lose nothing
/// and duplicate nothing. In the built view those streams are the filtered
/// online streams.
pub proof fn lemma_view_partitions_streams(streams: Seq<Stream>, games: Map<Seq<char>, Game>)
    ensures
        spec_concat_group_streams(
            spec_sort_groups_desc(spec_groups_for(streams, games, spec_distinct_game_ids(streams))),
        ).to_multiset() == streams.to_multiset(),
{
    lemma_groups_partition_streams(streams, games);
    lemma_sort_groups_concat(spec_groups_for(streams, games, spec_distinct_game_ids(streams)));
}

/// The streams of one viewer count, in order.
pub open spec fn spec_with_count(streams: Seq<Stream>, c: u64) -> Seq<Stream> {
    streams.filter(|e: Stream| e.viewer_count == c)
}

/// Appending a stream extends its own count's subsequence and no other.
proof fn lemma_with_count_push(s: Seq<Stream>, x: Stream, c: u64)
    ensures
        spec_with_count(s.push(x), c) == if x.viewer_count == c {
            spec_with_count(s, c).push(x)
        } else {
            spec_with_count(s, c)
        },
{
    reveal(Seq::filter);
    assert(s.push(x).drop_last() =~= s);
    assert(s.push(x).last() == x);
}

/// The stable descending insertion appends the new stream to its own
/// count's subsequence and leaves every other count's subsequence alone.
proof fn lemma_insert_stream_desc_stable(sorted: Seq<Stream>, x: Stream, c: u64)
    ensures
        spec_with_count(spec_insert_stream_desc(sorted, x), c) == if x.viewer_count == c {
            spec_with_count(sorted, c).push(x)
        } else {
            spec_with_count(sorted, c)
        },
    decreases sorted.len(),
{
    reveal(Seq::filter);
    if sorted.len() == 0 {
        assert(seq![x] =~= Seq::<Stream>::empty().push(x));
        lemma_with_count_push(Seq::<Stream>::empty(), x, c);
        assert(sorted =~= Seq::<Stream>::empty());
    } else if x.viewer_count > sorted.last().viewer_count {
        lemma_insert_stream_desc_stable(sorted.drop_last(), x, c);
        lemma_with_count_push(spec_insert_stream_desc(sorted.drop_last(), x), sorted.last(), c);
        lemma_with_count_push(sorted.drop_last(), sorted.last(), c);
        assert(sorted =~= sorted.drop_last().push(sorted.last()));
    } else {
        lemma_with_count_push(sorted, x, c);
    }
}

/// Ties keep input order: the streams of any one viewer count leave the
/// stable descending sort exactly in their input order.
pub proof fn lemma_sort_streams_desc_stable(streams: Seq<Stream>, c: u64)
    ensures
        spec_with_count(spec_sort_streams_desc(streams), c) == spec_with_count(streams, c),
    decreases streams.len(),
{
    reveal(Seq::filter);
    if streams.len() > 0 {
        lemma_sort_streams_desc_stable(streams.drop_last(), c);
        lemma_insert_stream_desc_stable(
            spec_sort_streams_desc(streams.drop_last()),
            streams.last(),
            c,
        );
        lemma_with_count_push(streams.drop_last(), streams.last(), c);
        assert(streams =~= streams.drop_last().push(streams.last()));
    }
}

/// The groups of one viewer total, in order.
pub open spec fn spec_with_total(groups: Seq<GroupView>, c: u64) -> Seq<GroupView> {
    groups.filter(|g: GroupView| g.total_viewers == c)
}

/// Appending a group extends its own total's subsequence and no other.
proof fn lemma_with_total_push(s: Seq<GroupView>, g: GroupView, c: u64)
    ensures
        spec_with_total(s.push(g), c) == if g.total_viewers == c {
            spec_with_total(s, c).push(g)
        } else {
            spec_with_total(s, c)
        },
{
    reveal(Seq::filter);
    assert(s.push(g).drop_last() =~= s);
    assert(s.push(g).last() == g);
}

/// The stable descending group insertion appends the new group to its own
/// total's subsequence and leaves every other total's subsequence alone.
proof fn lemma_insert_group_desc_stable(sorted: Seq<GroupView>, g: GroupView, c: u64)
    ensures
        spec_with_total(spec_insert_group_desc(sorted, g), c) == if g.total_viewers == c {
            spec_with_total(sorted, c).push(g)
        } else {
            spec_with_total(sorted, c)
        },
    decreases sorted.len(),
{
    reveal(Seq::filter);
    if sorted.len() == 0 {
        assert(seq![g] =~= Seq::<GroupView>::empty().push(g));
        lemma_with_total_push(Seq::<GroupView>::empty(), g, c);
        assert(sorted =~= Seq::<GroupView>::empty());
    } else if g.total_viewers > sorted.last().total_viewers {
        lemma_insert_group_desc_stable(sorted.drop_last(), g, c);
        lemma_with_total_push(spec_insert_group_desc(sorted.drop_last(), g), sorted.last(), c);
        lemma_with_total_push(sorted.drop_last(), sorted.last(), c);
        assert(sorted =~= sorted.drop_last().push(sorted.last()));
    } else {
        lemma_with_total_push(sorted, g, c);
    }
}

/// Ties keep first-appearance order: the groups of any one viewer total
/// leave the stable descending sort exactly in their input order.
pub proof fn lemma_sort_groups_desc_stable(groups: Seq<GroupView>, c: u64)
    ensures
        spec_with_total(spec_sort_groups_desc(groups), c) == spec_with_total(groups, c),
    decreases groups.len(),
{
    reveal(Seq::filter);
    if groups.len() > 0 {
        lemma_sort_groups_desc_stable(groups.drop_last(), c);
        lemma_insert_group_desc_stable(
            spec_sort_groups_desc(groups.drop_last()),
            groups.last(),
            c,
        );
        lemma_with_total_push(groups.drop_last(), groups.last(), c);
        assert(groups =~= groups.drop_last().push(groups.last()));
    }
}

} // verus!
