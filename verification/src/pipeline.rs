//! The aggregation pipeline's merge and validation steps.
//!
//! One run chains three dependent fetches: the operator's follows, then for
//! each chunk of followed ids the user records and the live streams, then
//! the distinct games those streams reference. The fetch loops live outside
//! the library; the functions here make every decision in between: merging
//! chunk results into keyed maps (later duplicates overwrite), refusing
//! broken stream records, and computing the distinct game-id set.

use vstd::prelude::*;

use crate::errors::Error;
use crate::keymap::IdSet;
use crate::keymap::KeyMap;
use crate::model::Game;
use crate::model::Stream;
use crate::model::StreamKind;
use crate::model::User;

verus! {

/// The texts of a list of id strings, in order.
pub open spec fn spec_id_texts(ids: Seq<String>) -> Seq<Seq<char>> {
    ids.map_values(|s: String| s@)
}

/// The user map after merging a list of user records, in order, each keyed
/// by its own id; a later record with the same id overwrites an earlier one.
pub open spec fn spec_merge_users(m: Map<Seq<char>, User>, users: Seq<User>) -> Map<Seq<char>, User>
    decreases users.len(),
{
    if users.len() == 0 {
        m
    } else {
        spec_merge_users(m, users.drop_last()).insert(users.last().id@, users.last())
    }
}

/// The ids carried by a list of user records.
pub open spec fn spec_user_ids(users: Seq<User>) -> Set<Seq<char>>
    decreases users.len(),
{
    if users.len() == 0 {
        Set::empty()
    } else {
        spec_user_ids(users.drop_last()).insert(users.last().id@)
    }
}

/// The game map after merging a list of game records, in order, each keyed
/// by its own id; a later record with the same id overwrites an earlier one.
pub open spec fn spec_merge_games(m: Map<Seq<char>, Game>, games: Seq<Game>) -> Map<Seq<char>, Game>
    decreases games.len(),
{
    if games.len() == 0 {
        m
    } else {
        spec_merge_games(m, games.drop_last()).insert(games.last().id@, games.last())
    }
}

/// The ids carried by a list of game records.
pub open spec fn spec_game_ids(games: Seq<Game>) -> Set<Seq<char>>
    decreases games.len(),
{
    if games.len() == 0 {
        Set::empty()
    } else {
        spec_game_ids(games.drop_last()).insert(games.last().id@)
    }
}

/// The merged user map's key set is the union of the original keys and the
/// merged records' own ids.
pub proof fn lemma_merge_users_dom(m: Map<Seq<char>, User>, users: Seq<User>)
    ensures
        spec_merge_users(m, users).dom() == m.dom() + spec_user_ids(users),
    decreases users.len(),
{
    if users.len() == 0 {
        assert(spec_merge_users(m, users).dom() =~= m.dom() + spec_user_ids(users));
    } else {
        lemma_merge_users_dom(m, users.drop_last());
        assert(spec_merge_users(m, users).dom() =~= m.dom() + spec_user_ids(users));
    }
}

/// A later user record overwrites an earlier one with the same id: the
/// merged map holds, under each merged id, the last record carrying it.
pub proof fn lemma_merge_users_last_wins(m: Map<Seq<char>, User>, users: Seq<User>, i: int)
    requires
        0 <= i < users.len(),
        forall|j: int| i < j < users.len() ==> users[j].id@ != users[i].id@,
    ensures
        spec_merge_users(m, users).contains_key(users[i].id@),
        spec_merge_users(m, users)[users[i].id@] == users[i],
    decreases users.len(),
{
    if i < users.len() - 1 {
        assert(users.drop_last()[i] == users[i]);
        lemma_merge_users_last_wins(m, users.drop_last(), i);
    }
}

/// Ids carried by no merged user record stay exactly as the original map
/// had them.
pub proof fn lemma_merge_users_untouched(m: Map<Seq<char>, User>, users: Seq<User>, k: Seq<char>)
    requires
        forall|i: int| 0 <= i < users.len() ==> users[i].id@ != k,
    ensures
        spec_merge_users(m, users).contains_key(k) == m.contains_key(k),
        m.contains_key(k) ==> spec_merge_users(m, users)[k] == m[k],
    decreases users.len(),
{
    if users.len() > 0 {
        assert(forall|i: int|
            0 <= i < users.drop_last().len() ==> (#[trigger] users.drop_last()[i]).id@ != k);
        lemma_merge_users_untouched(m, users.drop_last(), k);
    }
}

/// The merged game map's key set is the union of the original keys and the
/// merged records' own ids.
pub proof fn lemma_merge_games_dom(m: Map<Seq<char>, Game>, games: Seq<Game>)
    ensures
        spec_merge_games(m, games).dom() == m.dom() + spec_game_ids(games),
    decreases games.len(),
{
    if games.len() == 0 {
        assert(spec_merge_games(m, games).dom() =~= m.dom() + spec_game_ids(games));
    } else {
        lemma_merge_games_dom(m, games.drop_last());
        assert(spec_merge_games(m, games).dom() =~= m.dom() + spec_game_ids(games));
    }
}

/// A later game record overwrites an earlier one with the same id: the
/// merged map holds, under each merged id, the last record carrying it.
pub proof fn lemma_merge_games_last_wins(m: Map<Seq<char>, Game>, games: Seq<Game>, i: int)
    requires
        0 <= i < games.len(),
        forall|j: int| i < j < games.len() ==> games[j].id@ != games[i].id@,
    ensures
        spec_merge_games(m, games).contains_key(games[i].id@),
        spec_merge_games(m, games)[games[i].id@] == games[i],
    decreases games.len(),
{
    if i < games.len() - 1 {
        assert(games.drop_last()[i] == games[i]);
        lemma_merge_games_last_wins(m, games.drop_last(), i);
    }
}

/// Ids carried by no merged game record stay exactly as the original map
/// had them.
pub proof fn lemma_merge_games_untouched(m: Map<Seq<char>, Game>, games: Seq<Game>, k: Seq<char>)
    requires
        forall|i: int| 0 <= i < games.len() ==> games[i].id@ != k,
    ensures
        spec_merge_games(m, games).contains_key(k) == m.contains_key(k),
        m.contains_key(k) ==> spec_merge_games(m, games)[k] == m[k],
    decreases games.len(),
{
    if games.len() > 0 {
        assert(forall|i: int|
            0 <= i < games.drop_last().len() ==> (#[trigger] games.drop_last()[i]).id@ != k);
        lemma_merge_games_untouched(m, games.drop_last(), k);
    }
}

/// Merges one fetched chunk of user records into the run-scoped user map,
/// each keyed by its own id; a duplicate id overwrites the earlier record.
pub fn merge_users(map: &mut KeyMap<User>, chunk: Vec<User>)
    ensures
        final(map)@ == spec_merge_users(old(map)@, chunk@),
{
    let ghost orig = chunk@;
    let mut chunk = chunk;
    let ghost i: int = 0;
    while chunk.len() > 0
        invariant
            0 <= i <= orig.len(),
            chunk@ =~= orig.skip(i),
            map@ == spec_merge_users(old(map)@, orig.take(i)),
        decreases chunk@.len(),
    {
        let user = chunk.remove(0);
        proof {
            assert(user == orig[i]);
            assert(orig.take(i + 1).drop_last() =~= orig.take(i));
            assert(orig.take(i + 1).last() == orig[i]);
        }
        let id = user.id.clone();
        map.insert(id, user);
        proof {
            i = i + 1;
            assert(chunk@ =~= orig.skip(i));
        }
    }
    proof {
        assert(orig.take(i) =~= orig);
    }
}

/// Merges one fetched chunk of game records into the run-scoped game map,
/// each keyed by its own id; a duplicate id overwrites the earlier record.
pub fn merge_games(map: &mut KeyMap<Game>, chunk: Vec<Game>)
    ensures
        final(map)@ == spec_merge_games(old(map)@, chunk@),
{
    let ghost orig = chunk@;
    let mut chunk = chunk;
    let ghost i: int = 0;
    while chunk.len() > 0
        invariant
            0 <= i <= orig.len(),
            chunk@ =~= orig.skip(i),
            map@ == spec_merge_games(old(map)@, orig.take(i)),
        decreases chunk@.len(),
    {
        let game = chunk.remove(0);
        proof {
            assert(game == orig[i]);
            assert(orig.take(i + 1).drop_last() =~= orig.take(i));
            assert(orig.take(i + 1).last() == orig[i]);
        }
        let id = game.id.clone();
        map.insert(id, game);
        proof {
            i = i + 1;
            assert(chunk@ =~= orig.skip(i));
        }
    }
    proof {
        assert(orig.take(i) =~= orig);
    }
}

/// Appends one chunk of fetched stream records to the run's online list.
/// A record carrying the broken `Error` type marker is an upstream data
/// fault: the whole chunk is refused and nothing is appended.
pub fn add_streams(streams: &mut Vec<Stream>, chunk: Vec<Stream>) -> (r: Result<(), Error>)
    ensures
        match r {
            Ok(()) => {
                &&& final(streams)@ == old(streams)@ + chunk@
                &&& forall|i: int| 0 <= i < chunk@.len() ==> chunk@[i].kind == StreamKind::Live
            },
            Err(e) => {
                &&& e == Error::StreamType
                &&& *final(streams) == *old(streams)
                &&& exists|i: int| 0 <= i < chunk@.len() && chunk@[i].kind == StreamKind::Error
            },
        },
{
    let n = chunk.len();
    let mut j: usize = 0;
    while j < n
        invariant
            n == chunk@.len(),
            j <= n,
            forall|i: int| 0 <= i < j ==> chunk@[i].kind == StreamKind::Live,
        decreases n - j,
    {
        if chunk[j].kind == StreamKind::Error {
            return Err(Error::StreamType);
        }
        proof {
            assert(chunk@[j as int].kind == StreamKind::Live);
        }
        j = j + 1;
    }
    let mut chunk = chunk;
    streams.append(&mut chunk);
    Ok(())
}

/// The distinct game ids referenced by a stream list, in first-appearance
/// order.
pub open spec fn spec_distinct_game_ids(streams: Seq<Stream>) -> Seq<Seq<char>>
    decreases streams.len(),
{
    if streams.len() == 0 {
        Seq::empty()
    } else {
        let prefix = spec_distinct_game_ids(streams.drop_last());
        if prefix.contains(streams.last().game_id@) {
            prefix
        } else {
            prefix.push(streams.last().game_id@)
        }
    }
}

/// The distinct game ids really are distinct: no id appears twice.
pub proof fn lemma_distinct_game_ids_no_dup(streams: Seq<Stream>)
    ensures
        forall|i: int, j: int|
            0 <= i < j < spec_distinct_game_ids(streams).len()
                ==> spec_distinct_game_ids(streams)[i] != spec_distinct_game_ids(streams)[j],
    decreases streams.len(),
{
    if streams.len() > 0 {
        lemma_distinct_game_ids_no_dup(streams.drop_last());
        let prefix = spec_distinct_game_ids(streams.drop_last());
        let gid = streams.last().game_id@;
        if !prefix.contains(gid) {
            let out = prefix.push(gid);
            assert forall|i: int, j: int| 0 <= i < j < out.len() implies out[i] != out[j] by {
                if j < out.len() - 1 {
                    assert(out[i] == prefix[i] && out[j] == prefix[j]);
                } else {
                    assert(out[i] == prefix[i]);
                    assert(!prefix.contains(gid));
                }
            }
        }
    }
}

/// The distinct game ids are exactly the ids some stream references.
pub proof fn lemma_distinct_game_ids_contains(streams: Seq<Stream>, g: Seq<char>)
    ensures
        spec_distinct_game_ids(streams).contains(g) <==> exists|i: int|
            0 <= i < streams.len() && streams[i].game_id@ == g,
    decreases streams.len(),
{
    if streams.len() > 0 {
        lemma_distinct_game_ids_contains(streams.drop_last(), g);
        let prefix = spec_distinct_game_ids(streams.drop_last());
        let out = spec_distinct_game_ids(streams);
        let gid = streams.last().game_id@;
        if out.contains(g) {
            if prefix.contains(g) {
                let i = choose|i: int|
                    0 <= i < streams.len() - 1 && streams.drop_last()[i].game_id@ == g;
                assert(streams[i].game_id@ == g);
            } else {
                let k = choose|k: int| 0 <= k < out.len() && out[k] == g;
                assert(!prefix.contains(gid) && out == prefix.push(gid));
                if k < prefix.len() {
                    assert(prefix[k] == g);
                } else {
                    assert(g == gid);
                    assert(streams[streams.len() - 1].game_id@ == g);
                }
            }
        }
        if exists|i: int| 0 <= i < streams.len() && streams[i].game_id@ == g {
            let i = choose|i: int| 0 <= i < streams.len() && streams[i].game_id@ == g;
            if i < streams.len() - 1 {
                assert(streams.drop_last()[i].game_id@ == g);
                assert(prefix.contains(g));
                if !prefix.contains(gid) {
                    let k = choose|k: int| 0 <= k < prefix.len() && prefix[k] == g;
                    assert(prefix.push(gid)[k] == g);
                }
            } else {
                if prefix.contains(gid) {
                    assert(out.contains(g));
                } else {
                    assert(prefix.push(gid)[prefix.len() as int] == gid);
                }
            }
        }
    }
}

/// Collects the distinct game ids referenced by the collected streams, in
/// first-appearance order, ready to be chunked for the game lookup.
pub fn distinct_game_ids(streams: &Vec<Stream>) -> (ids: Vec<String>)
    ensures
        spec_id_texts(ids@) == spec_distinct_game_ids(streams@),
{
    let n = streams.len();
    let mut ids: Vec<String> = Vec::new();
    let mut seen = IdSet::new();
    let mut j: usize = 0;
    proof {
        assert(streams@.take(0) =~= Seq::<Stream>::empty());
        assert(spec_id_texts(ids@) =~= spec_distinct_game_ids(streams@.take(0)));
    }
    while j < n
        invariant
            n == streams@.len(),
            j <= n,
            spec_id_texts(ids@) == spec_distinct_game_ids(streams@.take(j as int)),
            forall|x: Seq<char>|
                seen@.contains(x) == spec_distinct_game_ids(streams@.take(j as int)).contains(x),
        decreases n - j,
    {
        let ghost prefix = spec_distinct_game_ids(streams@.take(j as int));
        proof {
            assert(streams@.take(j + 1).drop_last() =~= streams@.take(j as int));
            assert(streams@.take(j + 1).last() == streams@[j as int]);
        }
        let gid = &streams[j].game_id;
        if !seen.contains(gid) {
            ids.push(gid.clone());
            seen.insert(gid.clone());
            proof {
                assert(spec_id_texts(ids@) =~= prefix.push(gid@));
                assert forall|x: Seq<char>|
                    seen@.contains(x) == spec_distinct_game_ids(streams@.take(j + 1)).contains(
                    x,
                ) by {
                    if x == gid@ {
                        assert(spec_distinct_game_ids(streams@.take(j + 1)).last() == gid@);
                    } else {
                        assert(spec_distinct_game_ids(streams@.take(j + 1)).contains(x)
                            == prefix.contains(x)) by {
                            if prefix.contains(x) {
                                let i = choose|i: int| 0 <= i < prefix.len() && prefix[i] == x;
                                assert(prefix.push(gid@)[i] == x);
                            }
                            if prefix.push(gid@).contains(x) {
                                let i = choose|i: int|
                                    0 <= i < prefix.len() + 1 && prefix.push(gid@)[i] == x;
                                assert(prefix[i] == x);
                            }
                        }
                    }
                }
            }
        }
        j = j + 1;
    }
    proof {
        assert(streams@.take(n as int) =~= streams@);
    }
    ids
}

/// The set of ids of the collected online streams, against which the
/// hidden-stream set is reconciled.
pub open spec fn spec_stream_ids(streams: Seq<Stream>) -> Set<Seq<char>>
    decreases streams.len(),
{
    if streams.len() == 0 {
        Set::empty()
    } else {
        spec_stream_ids(streams.drop_last()).insert(streams.last().id@)
    }
}

/// Collects the id of every collected online stream.
pub fn online_stream_ids(streams: &Vec<Stream>) -> (ids: IdSet)
    ensures
        ids@ == spec_stream_ids(streams@),
{
    let n = streams.len();
    let mut ids = IdSet::new();
    let mut j: usize = 0;
    proof {
        assert(streams@.take(0) =~= Seq::<Stream>::empty());
    }
    while j < n
        invariant
            n == streams@.len(),
            j <= n,
            ids@ == spec_stream_ids(streams@.take(j as int)),
        decreases n - j,
    {
        proof {
            assert(streams@.take(j + 1).drop_last() =~= streams@.take(j as int));
            assert(streams@.take(j + 1).last() == streams@[j as int]);
        }
        ids.insert(streams[j].id.clone());
        j = j + 1;
    }
    proof {
        assert(streams@.take(n as int) =~= streams@);
    }
    ids
}

} // verus!
