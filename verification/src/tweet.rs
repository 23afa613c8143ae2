//! Tweet payload models: consumed only far enough to classify and route a
//! snapshot, never deeply validated here.

pub mod data;
pub mod flat;

use crate::text::{chars_to_string, push_chars, push_u64, u64_chars};
use vstd::prelude::*;

verus! {

/// A tweet snapshot payload, in either of the two recognized shapes.
pub trait TweetSnapshot {
    /// The tweet's identifier.
    fn id(&self) -> u64;

    /// The author's identifier.
    fn user_id(&self) -> u64;

    /// The author's screen name, when the payload carries it.
    fn user_screen_name(&self) -> Option<&str>;
}

/// The canonical URL of a tweet: the site, the screen name, and the tweet's
/// identifier.
pub open spec fn tweet_url_chars(screen_name: Seq<char>, id: u64, use_x: bool) -> Seq<char> {
    "https://"@ + (if use_x {
        "x"@
    } else {
        "twitter"@
    }) + ".com/"@ + screen_name + "/status/"@ + u64_chars(id as int)
}

/// Renders the canonical URL of a tweet.
pub fn canonical_tweet_url(screen_name: &str, id: u64, use_x: bool) -> (r: String)
    ensures
        r@ == tweet_url_chars(screen_name@, id, use_x),
{
    let mut out: Vec<char> = Vec::new();
    push_chars(&mut out, "https://");
    if use_x {
        push_chars(&mut out, "x");
    } else {
        push_chars(&mut out, "twitter");
    }
    push_chars(&mut out, ".com/");
    push_chars(&mut out, screen_name);
    push_chars(&mut out, "/status/");
    push_u64(&mut out, id);
    proof {
        assert(out@ =~= tweet_url_chars(screen_name@, id, use_x));
    }
    chars_to_string(&out)
}

} // verus!
