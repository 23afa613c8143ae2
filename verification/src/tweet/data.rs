//! The structured tweet payload shape: a `data` object with identifiers, and
//! an `includes` table carrying the referenced users.

use vstd::prelude::*;

verus! {

/// A structured tweet snapshot.
pub struct TweetSnapshot {
    pub data: Data,
    pub includes: Includes,
    pub errors: Option<Vec<Error>>,
}

/// The tweet's own identifiers.
pub struct Data {
    pub id: u64,
    pub author_id: u64,
}

/// The referenced objects of a snapshot; only users are read here.
pub struct Includes {
    pub tweets: Option<Vec<Tweet>>,
    pub users: Vec<User>,
    pub media: Option<Vec<Media>>,
    pub polls: Option<Vec<Poll>>,
    pub places: Option<Vec<Place>>,
}

/// A referenced tweet; nothing of it is read here.
pub struct Tweet {
}

/// A referenced user.
pub struct User {
    pub id: u64,
    pub username: String,
}

/// Referenced media; nothing of it is read here.
pub struct Media {
}

/// A referenced poll; nothing of it is read here.
pub struct Poll {
}

/// A referenced place; nothing of it is read here.
pub struct Place {
}

/// A reported payload error; nothing of it is read here.
pub struct Error {
}

impl TweetSnapshot {
    /// The first referenced user with the given identifier.
    pub fn lookup_user(&self, id: u64) -> (r: Option<&User>)
        ensures
            match r {
                Some(u) => u.id == id && exists|i: int|
                    0 <= i < self.includes.users@.len() && #[trigger] self.includes.users@[i]
                        == *u,
                None => forall|i: int| 0 <= i < self.includes.users@.len()
                    ==> (#[trigger] self.includes.users@[i]).id != id,
            },
    {
        let mut i: usize = 0;
        while i < self.includes.users.len()
            invariant
                0 <= i <= self.includes.users@.len(),
                forall|j: int| 0 <= j < i ==> (#[trigger] self.includes.users@[j]).id != id,
            decreases self.includes.users@.len() - i,
        {
            if self.includes.users[i].id == id {
                return Some(&self.includes.users[i]);
            }
            i += 1;
        }
        None
    }
}

impl crate::tweet::TweetSnapshot for TweetSnapshot {
    fn id(&self) -> u64 {
        self.data.id
    }

    fn user_id(&self) -> u64 {
        self.data.author_id
    }

    fn user_screen_name(&self) -> Option<&str> {
        match self.lookup_user(self.data.author_id) {
            Some(user) => Some(user.username.as_str()),
            None => None,
        }
    }
}

} // verus!
