//! The legacy flat tweet payload shape: identifiers and the author inline.

use vstd::prelude::*;

verus! {

/// A flat tweet snapshot.
pub struct TweetSnapshot {
    pub id_str: u64,
    pub user: User,
}

/// The author of a flat snapshot.
pub struct User {
    pub id_str: u64,
    pub screen_name: String,
}

impl crate::tweet::TweetSnapshot for TweetSnapshot {
    fn id(&self) -> u64 {
        self.id_str
    }

    fn user_id(&self) -> u64 {
        self.user.id_str
    }

    fn user_screen_name(&self) -> Option<&str> {
        Some(self.user.screen_name.as_str())
    }
}

} // verus!
