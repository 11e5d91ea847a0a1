//! The session with the broker's API: the access token it holds, when that token may
//! still be used, and how its instrument list is read page by page.
use vstd::prelude::*;

verus! {

/// How many instruments one page of the broker's instrument list holds at most.
pub const INSTRUMENTS_LIMIT: usize = 100;

/// A session with the broker's API, holding the access token it last obtained (empty
/// before the first).
pub struct Alor {
    access_token: String,
}

impl Alor {
    /// The access token the session holds.
    pub closed spec fn token(&self) -> Seq<char> {
        self.access_token@
    }

    /// A session that holds no token yet.
    pub fn new() -> (r: Alor)
        ensures
            r.token() == Seq::<char>::empty(),
    {
        Alor { access_token: String::new() }
    }

    /// The token held, where it may still be used: it is not empty, and the expiry time
    /// its claims give (Unix seconds; `None` where they cannot be read) is after `now`.
    /// Where this gives nothing, a new token is to be asked for.
    pub fn check_token(&self, expires_at: Option<i64>, now: i64) -> (r: Option<String>)
        ensures
            r is Some <==> (self.token().len() > 0 && expires_at is Some && expires_at->0
                > now),
            r matches Some(t) ==> t@ == self.token(),
    {
        if self.access_token.as_str().is_empty() {
            return None;
        }
        match expires_at {
            Some(exp) => {
                if exp > now {
                    Some(self.access_token.clone())
                } else {
                    None
                }
            },
            None => None,
        }
    }

    /// Takes the answer to a request for a new token: the session keeps the token the
    /// broker issued, if it issued one, and gives it back; with none, nothing changes.
    pub fn refreshed_token(&mut self, issued: Option<String>) -> (r: Option<String>)
        ensures
            match issued {
                Some(t) => final(self).token() == t@ && r == Some(t),
                None => final(self).token() == old(self).token() && r is None,
            },
    {
        match issued {
            Some(t) => {
                self.access_token = t.clone();
                Some(t)
            },
            None => None,
        }
    }
}

impl Default for Alor {
    fn default() -> (r: Alor)
        ensures
            r.token() == Seq::<char>::empty(),
    {
        Alor::new()
    }
}

/// Where the next page of the broker's instrument list starts, after a page of
/// `page_len` instruments read at `offset`: nowhere after a page shorter than the limit,
/// which is the last.
pub fn next_instruments_offset(offset: usize, page_len: usize) -> (r: Option<usize>)
    requires
        page_len < INSTRUMENTS_LIMIT || offset + page_len <= usize::MAX,
    ensures
        r == (if page_len < INSTRUMENTS_LIMIT {
            None
        } else {
            Some((offset + page_len) as usize)
        }),
{
    if page_len < INSTRUMENTS_LIMIT {
        None
    } else {
        Some(offset + page_len)
    }
}

} // verus!
