//! Maps an HTTP method and path to one of the five operations.

use vstd::prelude::*;
use crate::text::{parse_u32_spec, parse_u32_from};

verus! {

#[derive(Clone, Copy, Debug, PartialEq, Eq, Structural)]
pub enum Method {
    Get,
    Post,
    Put,
    Delete,
    Other,
}

/// The operation a request asks for. `Update` and `Delete` carry the id read
/// from the path, `None` when that segment is not an unsigned number.
#[derive(Clone, Copy, Debug)]
pub enum Route {
    List,
    Create,
    Update(Option<u32>),
    Delete(Option<u32>),
    NotFound,
}

/// `/people`
pub open spec fn collection_path() -> Seq<char> {
    seq!['/', 'p', 'e', 'o', 'p', 'l', 'e']
}

/// `/people/`
pub open spec fn member_prefix() -> Seq<char> {
    collection_path().push('/')
}

pub open spec fn starts_with(s: Seq<char>, p: Seq<char>) -> bool {
    p.len() <= s.len() && s.subrange(0, p.len() as int) == p
}

/// The id segment of a member path: everything after its `/people/`.
pub open spec fn id_segment(path: Seq<char>) -> Seq<char> {
    path.subrange(member_prefix().len() as int, path.len() as int)
}

pub open spec fn route_of(m: Method, path: Seq<char>) -> Route {
    match m {
        Method::Get => if path == collection_path() {
            Route::List
        } else {
            Route::NotFound
        },
        Method::Post => if path == collection_path() {
            Route::Create
        } else {
            Route::NotFound
        },
        Method::Put => if starts_with(path, member_prefix()) {
            Route::Update(parse_u32_spec(id_segment(path)))
        } else {
            Route::NotFound
        },
        Method::Delete => if starts_with(path, member_prefix()) {
            Route::Delete(parse_u32_spec(id_segment(path)))
        } else {
            Route::NotFound
        },
        Method::Other => Route::NotFound,
    }
}

/// Whether `p` occurs in `s` at position `i`.
fn occurs_at(s: &str, p: &str, i: usize) -> (r: bool)
    requires
        i <= s@.len(),
    ensures
        r == starts_with(s@.subrange(i as int, s@.len() as int), p@),
{
    let n = s.unicode_len();
    let m = p.unicode_len();
    if m > n - i {
        return false;
    }
    let mut k: usize = 0;
    while k < m
        invariant
            n == s@.len(),
            m == p@.len(),
            i + m <= n,
            k <= m,
            forall|j: int| 0 <= j < k ==> s@[i + j] == p@[j],
        decreases m - k,
    {
        if s.get_char(i + k) != p.get_char(k) {
            assert(s@.subrange(i as int, n as int).subrange(0, m as int)[k as int] != p@[k as int]);
            return false;
        }
        k = k + 1;
    }
    assert(s@.subrange(i as int, n as int).subrange(0, m as int) =~= p@);
    true
}

/// Selects the operation for `method` and `path`, reading the id of a
/// member path.
pub fn route(method: Method, path: &str) -> (r: Route)
    ensures
        r == route_of(method, path@),
{
    let collection = "/people";
    let prefix = "/people/";
    proof {
        reveal_strlit("/people");
        reveal_strlit("/people/");
        assert(collection@ =~= collection_path());
        assert(prefix@ =~= member_prefix());
        assert(path@.subrange(0, path@.len() as int) =~= path@);
    }
    let n = path.unicode_len();
    match method {
        Method::Get | Method::Post => {
            let whole = n == 7 && occurs_at(path, collection, 0);
            proof {
                if n == 7 && whole {
                    assert(path@ =~= path@.subrange(0, 7));
                }
            }
            if !whole {
                Route::NotFound
            } else if method == Method::Get {
                Route::List
            } else {
                Route::Create
            }
        },
        Method::Put | Method::Delete => {
            if !occurs_at(path, prefix, 0) {
                return Route::NotFound;
            }
            let id = parse_u32_from(path, 8);
            if method == Method::Put {
                Route::Update(id)
            } else {
                Route::Delete(id)
            }
        },
        Method::Other => Route::NotFound,
    }
}

} // verus!
