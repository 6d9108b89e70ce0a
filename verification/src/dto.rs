//! The request and response shapes of the REST endpoints, as plain values.
//! Instants are carried as unix seconds.

use vstd::prelude::*;
use vstd::string::StrSliceExecFns;

verus! {

/// A user as shown to clients: the digest never leaves the store.
pub struct UserDTO {
    pub id: i64,
    pub login: String,
}

/// A registration request: the login to claim and the plaintext password.
pub struct RegisterDTO {
    pub login: String,
    pub password: String,
}

/// A login request.
pub struct LoginDTO {
    pub login: String,
    pub password: String,
}

/// The reply to a successful registration or login: the new identity's id
/// and a freshly issued bearer token.
pub struct AuthorizedUserDTO {
    pub id: i64,
    pub token: String,
}

impl RegisterDTO {
    /// The length rule on registration input: both fields between six and
    /// twenty-four characters.
    pub open spec fn spec_valid(&self) -> bool {
        6 <= self.login@.len() <= 24 && 6 <= self.password@.len() <= 24
    }

    /// Check the length rule.
    pub fn validate(&self) -> (r: bool)
        ensures
            r == self.spec_valid(),
    {
        let ll = self.login.as_str().unicode_len();
        let pl = self.password.as_str().unicode_len();
        6 <= ll && ll <= 24 && 6 <= pl && pl <= 24
    }
}

/// A reaction kind as shown to clients.
pub struct AvailableReactionDTO {
    pub id: i64,
    pub reaction: String,
}

/// A request to add a reaction kind.
pub struct CreateAvailableReactionDTO {
    pub reaction: String,
}

/// A request to rename a reaction kind.
pub struct UpdateAvailableReactionDTO {
    pub reaction: Option<String>,
}

/// A bookmark as shown to clients.
pub struct BookmarkDTO {
    pub topic_id: i64,
}

/// A request to bookmark a topic.
pub struct CreateBookmarkDTO {
    pub topic_id: i64,
}

/// The uniform error reply body.
pub struct ErrorDTO {
    pub err: String,
}

/// A request to create a post in a topic.
pub struct CreatePostDTO {
    pub topic_id: i64,
    pub text: String,
}

/// The filter of a post listing.
pub struct GetPostsDTO {
    pub topic_id: Option<i64>,
}

/// A request to edit a post's text.
pub struct UpdatePostDTO {
    pub text: Option<String>,
}

/// A reaction on a post as shown to clients.
pub struct ReactionDTO {
    pub author_id: i64,
    pub reaction: String,
}

/// A request to add a reaction to a post.
pub struct AddReactionDTO {
    pub post_id: i64,
    pub reaction: String,
}

/// A request to take a reaction off a post.
pub struct RemoveReactionDTO {
    pub post_id: i64,
    pub reaction: String,
}

/// A report as shown to clients.
pub struct ReportDTO {
    pub id: i64,
    pub reported_user_id: i64,
    pub author_id: i64,
}

/// A request to file a report.
pub struct CreateReportDTO {
    pub reported_user_id: i64,
}

/// A request to change a report's reason.
pub struct UpdateReportDTO {
    pub reason: Option<String>,
}

/// The query of a topic search.
pub struct SearchQueryParamsDTO {
    pub query: String,
}

/// Site-wide counters.
pub struct ForumStatsDTO {
    pub posts_count: i64,
    pub users_count: i64,
    pub topics_count: i64,
}

/// A request to open a topic.
pub struct CreateTopicDTO {
    pub category_id: i64,
    pub name: String,
}

/// A request to edit a topic.
pub struct UpdateTopicDTO {
    pub category_id: Option<i64>,
    pub name: Option<String>,
}

/// A topic category as shown to clients.
pub struct TopicCategoryDTO {
    pub id: i64,
    pub name: String,
}

/// A request to add a topic category.
pub struct CreateTopicCategoryDTO {
    pub name: String,
}

/// A request body that has passed validation; the handler receives the
/// inner value only through this wrapper.
pub struct ValidatedJson<T>(pub T);

} // verus!
