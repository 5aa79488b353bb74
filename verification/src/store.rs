//! The persisted preference store and its reconciliation logic.
//!
//! The store is the only persisted entity: it is loaded once per run or
//! subcommand, mutated in memory, and written back whole. All file and
//! serialization work stays outside the library; the functions here are the
//! pure load-mutate decisions. The hidden-stream set is garbage-collected
//! against the currently online streams every run, since stream ids are
//! ephemeral per broadcast and would otherwise accumulate forever. The
//! hidden-game map is deliberately never pruned: those entries are explicit
//! user choices, while stream ids expire on their own.

use vstd::prelude::*;

use crate::errors::Error;
use crate::keymap::IdSet;
use crate::keymap::KeyMap;

verus! {

/// The persisted preference record of one user.
pub struct PreferenceStore {
    /// Bearer token for the upstream service, if one is configured.
    pub access_token: Option<String>,
    /// The operator's own user id, resolved once and never re-queried.
    pub user_id: Option<String>,
    /// Reporting is skipped while this instant (Unix seconds) lies ahead.
    pub deferred_until: Option<i64>,
    /// Quick re-defer shortcuts, each one relative-time spec as its tokens.
    pub defer_deltas: Vec<Vec<String>>,
    /// Per-user hidden games: user id to the set of game ids hidden for it.
    pub hidden_games: KeyMap<IdSet>,
    /// Hidden stream ids, garbage-collected against the online set each run.
    pub hidden_streams: IdSet,
    /// Hidden user ids, kept for newer preference files.
    pub hidden_users: IdSet,
    /// Per-user hidden title patterns, kept as their source text.
    pub hidden_titles: KeyMap<Vec<String>>,
}

/// Whether a deferral instant is still ahead at time `now`.
pub open spec fn spec_deferral_active(deferred_until: Option<i64>, now: i64) -> bool {
    match deferred_until {
        Some(t) => t >= now,
        None => false,
    }
}

/// The set of game ids hidden for one user (empty when the user has none).
pub open spec fn spec_hidden_games_for(store: PreferenceStore, user: Seq<char>) -> Set<Seq<char>> {
    if store.hidden_games@.contains_key(user) {
        store.hidden_games@[user]@
    } else {
        Set::empty()
    }
}

/// All fields of the two stores agree except possibly `deferred_until`.
pub open spec fn spec_same_but_deferred(a: PreferenceStore, b: PreferenceStore) -> bool {
    &&& a.access_token == b.access_token
    &&& a.user_id == b.user_id
    &&& a.defer_deltas == b.defer_deltas
    &&& a.hidden_games == b.hidden_games
    &&& a.hidden_streams == b.hidden_streams
    &&& a.hidden_users == b.hidden_users
    &&& a.hidden_titles == b.hidden_titles
}

/// All fields of the two stores agree except possibly `user_id`.
pub open spec fn spec_same_but_user_id(a: PreferenceStore, b: PreferenceStore) -> bool {
    &&& a.access_token == b.access_token
    &&& a.deferred_until == b.deferred_until
    &&& a.defer_deltas == b.defer_deltas
    &&& a.hidden_games == b.hidden_games
    &&& a.hidden_streams == b.hidden_streams
    &&& a.hidden_users == b.hidden_users
    &&& a.hidden_titles == b.hidden_titles
}

/// All fields of the two stores agree except possibly `hidden_streams`.
pub open spec fn spec_same_but_hidden_streams(a: PreferenceStore, b: PreferenceStore) -> bool {
    &&& a.access_token == b.access_token
    &&& a.user_id == b.user_id
    &&& a.deferred_until == b.deferred_until
    &&& a.defer_deltas == b.defer_deltas
    &&& a.hidden_games == b.hidden_games
    &&& a.hidden_users == b.hidden_users
    &&& a.hidden_titles == b.hidden_titles
}

/// All fields of the two stores agree except possibly `hidden_games`.
pub open spec fn spec_same_but_hidden_games(a: PreferenceStore, b: PreferenceStore) -> bool {
    &&& a.access_token == b.access_token
    &&& a.user_id == b.user_id
    &&& a.deferred_until == b.deferred_until
    &&& a.defer_deltas == b.defer_deltas
    &&& a.hidden_streams == b.hidden_streams
    &&& a.hidden_users == b.hidden_users
    &&& a.hidden_titles == b.hidden_titles
}

impl PreferenceStore {
    /// The all-empty state a missing preference file stands for.
    pub fn new() -> (s: Self)
        ensures
            s.access_token == None::<String>,
            s.user_id == None::<String>,
            s.deferred_until == None::<i64>,
            s.defer_deltas@ == Seq::<Vec<String>>::empty(),
            s.hidden_games@ == Map::<Seq<char>, IdSet>::empty(),
            s.hidden_streams@ == Set::<Seq<char>>::empty(),
            s.hidden_users@ == Set::<Seq<char>>::empty(),
            s.hidden_titles@ == Map::<Seq<char>, Vec<String>>::empty(),
    {
        let s = PreferenceStore {
            access_token: None,
            user_id: None,
            deferred_until: None,
            defer_deltas: Vec::new(),
            hidden_games: KeyMap::new(),
            hidden_streams: IdSet::new(),
            hidden_users: IdSet::new(),
            hidden_titles: KeyMap::new(),
        };
        proof {
            assert(s.defer_deltas@ =~= Seq::<Vec<String>>::empty());
        }
        s
    }

    /// The configured access token, or the error a run without one reports.
    pub fn token(&self) -> (r: Result<&String, Error>)
        ensures
            match r {
                Ok(t) => self.access_token == Some(*t),
                Err(e) => self.access_token is None && e == Error::MissingAccessToken,
            },
    {
        match &self.access_token {
            Some(t) => Ok(t),
            None => Err(Error::MissingAccessToken),
        }
    }

    /// Whether the whole run should be skipped at time `now` because a
    /// deferral instant is still ahead.
    pub fn is_deferred(&self, now: i64) -> (r: bool)
        ensures
            r == spec_deferral_active(self.deferred_until, now),
    {
        match self.deferred_until {
            Some(t) => t >= now,
            None => false,
        }
    }

    /// Caches the operator's resolved identity. The id is resolved at most
    /// once per persisted lifetime, so it must not already be cached.
    pub fn set_user_id(&mut self, id: String)
        requires
            old(self).user_id is None,
        ensures
            final(self).user_id == Some(id),
            spec_same_but_user_id(*final(self), *old(self)),
    {
        self.user_id = Some(id);
    }

    /// Hides a stream id; hiding an already hidden stream changes nothing.
    pub fn hide_stream(&mut self, stream_id: String)
        ensures
            final(self).hidden_streams@ == old(self).hidden_streams@.insert(stream_id@),
            spec_same_but_hidden_streams(*final(self), *old(self)),
    {
        self.hidden_streams.insert(stream_id);
    }

    /// Hides a game id for one user, creating the user's entry if absent;
    /// hiding an already hidden game changes nothing.
    pub fn hide_game(&mut self, user_id: String, game_id: String)
        ensures
            final(self).hidden_games@.dom() == old(self).hidden_games@.dom().insert(user_id@),
            final(self).hidden_games@[user_id@]@ == spec_hidden_games_for(*old(self), user_id@)
                .insert(game_id@),
            forall|k: Seq<char>|
                old(self).hidden_games@.contains_key(k) && k != user_id@
                    ==> final(self).hidden_games@[k] == old(self).hidden_games@[k],
            spec_same_but_hidden_games(*final(self), *old(self)),
    {
        let mut set = match self.hidden_games.get(&user_id) {
            Some(s) => s.clone(),
            None => IdSet::new(),
        };
        proof {
            if !old(self).hidden_games@.contains_key(user_id@) {
                assert(set@ =~= spec_hidden_games_for(*old(self), user_id@));
            }
        }
        set.insert(game_id);
        self.hidden_games.insert(user_id, set);
        proof {
            assert(final(self).hidden_games@.dom() =~= old(self).hidden_games@.dom().insert(
                user_id@,
            ));
        }
    }

    /// Garbage-collects the hidden-stream set: only ids of currently online
    /// streams survive, since a hidden stream that went offline will never
    /// reappear under the same id.
    pub fn reconcile(&mut self, online: &IdSet)
        ensures
            final(self).hidden_streams@ == old(self).hidden_streams@.intersect(online@),
            spec_same_but_hidden_streams(*final(self), *old(self)),
    {
        self.hidden_streams.intersect(online);
    }

    /// Stores the parsed deferral instant; a spec that matched no upcoming
    /// instant is a usage error and changes nothing.
    pub fn apply_defer(&mut self, parsed: Option<i64>) -> (r: Result<(), Error>)
        ensures
            match parsed {
                Some(t) => {
                    &&& r is Ok
                    &&& final(self).deferred_until == Some(t)
                    &&& spec_same_but_deferred(*final(self), *old(self))
                },
                None => r == Err::<(), Error>(Error::EmptyTimespec) && *final(self) == *old(self),
            },
    {
        match parsed {
            Some(t) => {
                self.deferred_until = Some(t);
                Ok(())
            },
            None => Err(Error::EmptyTimespec),
        }
    }
}

/// A defer subcommand must be given at least one time-spec token; checked
/// before the store is touched or any spec is parsed.
pub fn check_defer_args(args: &Vec<String>) -> (r: Result<(), Error>)
    ensures
        r is Ok <==> args@.len() > 0,
        r is Err ==> r == Err::<(), Error>(Error::MissingCliArg),
{
    if args.len() == 0 {
        Err(Error::MissingCliArg)
    } else {
        Ok(())
    }
}

/// Reconciliation is idempotent: a second pass against the same online set
/// leaves the hidden-stream set unchanged.
pub proof fn lemma_reconcile_idempotent(hidden: Set<Seq<char>>, online: Set<Seq<char>>)
    ensures
        hidden.intersect(online).intersect(online) == hidden.intersect(online),
{
    assert(hidden.intersect(online).intersect(online) =~= hidden.intersect(online));
}

/// Hiding is idempotent: inserting an id a second time changes nothing.
pub proof fn lemma_hide_idempotent(hidden: Set<Seq<char>>, id: Seq<char>)
    ensures
        hidden.insert(id).insert(id) == hidden.insert(id),
{
    assert(hidden.insert(id).insert(id) =~= hidden.insert(id));
}

} // verus!
