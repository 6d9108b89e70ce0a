//! The stored records of the forum: rows of the relational store as plain
//! values. Instants are carried as unix seconds.

use vstd::prelude::*;

verus! {

/// A credential record: unique login and the one-way digest of the
/// password. The digest is never handed back to a client.
pub struct User {
    pub id: i64,
    pub login: String,
    pub password_hash: Vec<u8>,
}

/// A reaction kind that posts may receive.
pub struct AvailableReaction {
    pub id: i64,
    pub reaction: String,
}

/// A user's bookmark on a topic.
pub struct Bookmark {
    pub user_id: i64,
    pub topic_id: i64,
}

/// A post inside a topic.
pub struct Post {
    pub id: i64,
    pub topic_id: i64,
    pub author_id: i64,
    pub text: String,
}

/// A reaction a user left on a post.
pub struct Reaction {
    pub post_id: i64,
    pub author_id: i64,
    pub reaction_id: i64,
}

/// A report one user filed against another.
pub struct Report {
    pub id: i64,
    pub reported_user_id: i64,
    pub author_id: i64,
    pub reason: String,
}

/// A topic under a category; `created_at` is the creation instant in unix
/// seconds.
pub struct Topic {
    pub id: i64,
    pub author_id: i64,
    pub category_id: i64,
    pub name: String,
    pub created_at: i64,
}

/// A category that topics are filed under.
pub struct TopicCategory {
    pub id: i64,
    pub name: String,
}

} // verus!
