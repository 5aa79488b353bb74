//! Run-scoped records fetched from the upstream service.
//!
//! All records are transient: they are fetched anew each run and never
//! persisted. Ids are opaque strings assigned by the upstream service;
//! timestamps are Unix seconds.

use vstd::prelude::*;

verus! {

/// A follow relationship: who follows which broadcaster.
#[derive(Debug, PartialEq, Eq)]
pub struct Follow {
    pub follower_id: String,
    pub broadcaster_id: String,
}

/// A followed user's identity record, keyed by id in a run-scoped map.
#[derive(Debug, PartialEq, Eq)]
pub struct User {
    pub id: String,
    pub login: String,
    pub display_name: String,
}

/// Whether an upstream stream record is a real live stream or a broken
/// entry that signals an upstream data fault.
#[derive(Clone, Copy, Debug, PartialEq, Eq, Structural)]
pub enum StreamKind {
    Live,
    Error,
}

/// A live stream record.
#[derive(Debug, PartialEq, Eq)]
pub struct Stream {
    pub id: String,
    pub user_id: String,
    pub game_id: String,
    pub title: String,
    pub viewer_count: u64,
    /// When the broadcast started, as Unix seconds.
    pub started_at: i64,
    pub kind: StreamKind,
}

/// A game record, keyed by id.
#[derive(Debug, PartialEq, Eq)]
pub struct Game {
    pub id: String,
    pub name: String,
}

impl Clone for Follow {
    fn clone(&self) -> (res: Self)
        ensures
            res == *self,
    {
        Follow { follower_id: self.follower_id.clone(), broadcaster_id: self.broadcaster_id.clone() }
    }
}

impl Clone for User {
    fn clone(&self) -> (res: Self)
        ensures
            res == *self,
    {
        User {
            id: self.id.clone(),
            login: self.login.clone(),
            display_name: self.display_name.clone(),
        }
    }
}

impl Clone for Stream {
    fn clone(&self) -> (res: Self)
        ensures
            res == *self,
    {
        Stream {
            id: self.id.clone(),
            user_id: self.user_id.clone(),
            game_id: self.game_id.clone(),
            title: self.title.clone(),
            viewer_count: self.viewer_count,
            started_at: self.started_at,
            kind: self.kind,
        }
    }
}

impl Clone for Game {
    fn clone(&self) -> (res: Self)
        ensures
            res == *self,
    {
        Game { id: self.id.clone(), name: self.name.clone() }
    }
}

} // verus!
