//! Small request helpers: pagination bounds, the acting user named by request
//! headers, and the base address of the stories service.

use vstd::prelude::*;
use vstd::string::*;
use crate::outside::{read_uuid, uuid_read};

verus! {

/// Pagination asked for by a listing request.
#[derive(Debug, Clone, Copy, PartialEq, Eq, Structural)]
pub struct PaginationQuery {
    pub limit: Option<i64>,
    pub offset: Option<i64>,
}

impl PaginationQuery {
    /// The page size: 50 by default, kept within 1..=100.
    pub open spec fn spec_limit(self) -> u64 {
        match self.limit {
            Some(l) => if l < 1 {
                1
            } else if l > 100 {
                100
            } else {
                l as u64
            },
            None => 50,
        }
    }

    /// The number of entries skipped: 0 by default, never negative.
    pub open spec fn spec_offset(self) -> u64 {
        match self.offset {
            Some(o) => if o < 0 {
                0
            } else {
                o as u64
            },
            None => 0,
        }
    }

    /// The page size and the number of entries skipped.
    pub fn resolve(&self) -> (r: (u64, u64))
        ensures
            r == (self.spec_limit(), self.spec_offset()),
    {
        let limit: u64 = match self.limit {
            Some(l) => if l < 1 {
                1
            } else if l > 100 {
                100
            } else {
                l as u64
            },
            None => 50,
        };
        let offset: u64 = match self.offset {
            Some(o) => if o < 0 {
                0
            } else {
                o as u64
            },
            None => 0,
        };
        (limit, offset)
    }
}

/// Why the acting user could not be taken from the request headers.
#[derive(Debug, Clone, Copy, PartialEq, Eq, Structural)]
pub enum ActorHeaderError {
    /// The actor id header is absent or is no identifier.
    MissingActorId,
    /// The actor name header is absent.
    MissingActorName,
}

/// The acting user, given the identifier read from the id header (if one was
/// read) and the name header: the id must be there, then the name.
pub open spec fn actor_result(id: Option<u128>, name: Option<Seq<char>>) -> Result<(u128, Seq<char>), ActorHeaderError> {
    match id {
        None => Err(ActorHeaderError::MissingActorId),
        Some(i) => match name {
            None => Err(ActorHeaderError::MissingActorName),
            Some(n) => Ok((i, n)),
        },
    }
}

/// The view of a result carrying a text.
pub open spec fn actor_view(r: Result<(u128, String), ActorHeaderError>) -> Result<(u128, Seq<char>), ActorHeaderError> {
    match r {
        Ok((i, s)) => Ok((i, s@)),
        Err(e) => Err(e),
    }
}

/// The characters of an optional text.
pub open spec fn opt_view(o: Option<&str>) -> Option<Seq<char>> {
    match o {
        Some(s) => Some(s@),
        None => None,
    }
}

/// The acting user once the id header has been read.
pub fn actor_from_parsed(actor_id: Option<u128>, actor_name: Option<&str>) -> (r: Result<(u128, String), ActorHeaderError>)
    ensures
        actor_view(r) == actor_result(actor_id, opt_view(actor_name)),
{
    match actor_id {
        None => Err(ActorHeaderError::MissingActorId),
        Some(id) => match actor_name {
            None => Err(ActorHeaderError::MissingActorName),
            Some(name) => Ok((id, name.to_owned())),
        },
    }
}

/// The acting user named by the id and name headers of a request.
pub fn extract_actor_headers(actor_id: Option<&str>, actor_name: Option<&str>) -> (r: Result<
    (u128, String),
    ActorHeaderError,
>)
    ensures
        actor_view(r) == actor_result(
            match actor_id {
                Some(s) => uuid_read(s@),
                None => None,
            },
            opt_view(actor_name),
        ),
{
    let parsed = match actor_id {
        Some(s) => read_uuid(s),
        None => None,
    };
    actor_from_parsed(parsed, actor_name)
}

/// The path every service address ends with.
pub open spec fn api_suffix() -> Seq<char> {
    seq!['/', 'a', 'p', 'i', '/', 'v', '1']
}

/// The text without its trailing slashes.
pub open spec fn without_trailing_slashes(s: Seq<char>) -> Seq<char>
    decreases s.len(),
{
    if s.len() > 0 && s.last() == '/' {
        without_trailing_slashes(s.drop_last())
    } else {
        s
    }
}

/// A base address without trailing slashes, ending with the API path.
pub open spec fn normalized_base_url(s: Seq<char>) -> Seq<char> {
    let t = without_trailing_slashes(s);
    if t.len() >= 7 && t.subrange(t.len() - 7, t.len() as int) == api_suffix() {
        t
    } else {
        t + api_suffix()
    }
}

/// The base address of the stories service: trailing slashes removed and the
/// API path appended unless it is already there.
pub fn normalize_base_url(value: &str) -> (r: String)
    ensures
        r@ == normalized_base_url(value@),
{
    let n = value.unicode_len();
    let mut k: usize = n;
    proof {
        assert(value@.subrange(0, n as int) =~= value@);
    }
    while k > 0 && value.get_char(k - 1) == '/'
        invariant
            k <= n,
            n == value@.len(),
            without_trailing_slashes(value@) == without_trailing_slashes(value@.subrange(0, k as int)),
        decreases k,
    {
        proof {
            assert(value@.subrange(0, k as int).drop_last() =~= value@.subrange(0, k - 1));
        }
        k = k - 1;
    }
    proof {
        let t = value@.subrange(0, k as int);
        if k > 0 {
            assert(t.last() == value@[k - 1]);
        }
        assert(without_trailing_slashes(t) == t);
    }
    let trimmed = value.substring_char(0, k);
    let ghost t = trimmed@;
    let mut ends = k >= 7;
    let mut j: usize = 0;
    while ends && j < 7
        invariant
            k == t.len(),
            j <= 7,
            ends ==> k >= 7 && forall|m: int| 0 <= m < j ==> t[k - 7 + m] == api_suffix()[m],
            !ends ==> !(t.len() >= 7 && t.subrange(t.len() - 7, t.len() as int) == api_suffix()),
            trimmed@ == t,
        decreases 7 - j,
    {
        let expected = if j == 0 {
            '/'
        } else if j == 1 {
            'a'
        } else if j == 2 {
            'p'
        } else if j == 3 {
            'i'
        } else if j == 4 {
            '/'
        } else if j == 5 {
            'v'
        } else {
            '1'
        };
        if trimmed.get_char(k - 7 + j) != expected {
            proof {
                assert(t.subrange(t.len() - 7, t.len() as int)[j as int] == t[k - 7 + j]);
            }
            ends = false;
        }
        j = j + 1;
    }
    if ends {
        proof {
            assert(t.subrange(t.len() - 7, t.len() as int) =~= api_suffix());
        }
        trimmed.to_owned()
    } else {
        let mut out = String::from_str(trimmed);
        out.append("/api/v1");
        proof {
            reveal_strlit("/api/v1");
            assert("/api/v1"@ =~= api_suffix());
        }
        out
    }
}

} // verus!
