//! Decisions of the web front: what an unknown path serves, and which dates
//! a query's year and month parameters bound.
use vstd::prelude::*;
use vstd::string::StringExecFns;
use crate::calendar::{date_of_civil, Date};
use crate::text::chars_of;

verus! {

/// What a path that matches no route serves.
#[derive(Debug, PartialEq, Eq)]
pub enum NotFoundResponse {
    /// The single-page application.
    Html,
    /// The script bundle.
    JavaScript,
    /// The site icon.
    Favicon,
    /// A plain 404 with this message, for unknown API paths.
    NotFound(String),
}

/// The position just after the last `/` of `p`, or 0 if it has none.
pub open spec fn is_last_segment_start(p: Seq<char>, j: int) -> bool {
    &&& 0 <= j <= p.len()
    &&& j == 0 || p[j - 1] == '/'
    &&& forall|k: int| j <= k < p.len() ==> p[k] != '/'
}

/// The text after the last `/` of `p`.
pub open spec fn last_segment(p: Seq<char>) -> Seq<char> {
    p.skip(choose|j: int| is_last_segment_start(p, j))
}

/// `p` starts with `k` slashes and no more.
pub open spec fn is_leading_slashes(p: Seq<char>, k: int) -> bool {
    &&& 0 <= k <= p.len()
    &&& forall|i: int| 0 <= i < k ==> p[i] == '/'
    &&& k == p.len() || p[k] != '/'
}

/// The first segment of `p` that is not empty (empty if there is none).
pub open spec fn first_nonempty_segment(p: Seq<char>) -> Seq<char> {
    let k = choose|k: int| is_leading_slashes(p, k);
    let rest = p.skip(k);
    rest.take(choose|e: int| crate::calendar::is_first_index(rest, '/', e))
}

pub open spec fn not_found_message(path: Seq<char>) -> Seq<char> {
    "404 - API path '"@ + path + "' does not exist!"@
}

/// Unknown paths under `api` get a 404 that names them; a path ending in
/// `bundle.js` or `favicon.ico` gets that file; anything else gets the page,
/// which routes on the client.
pub fn not_found_handler(path: &str) -> (r: NotFoundResponse)
    ensures
        first_nonempty_segment(path@) == "api"@ ==> r == NotFoundResponse::NotFound(r->NotFound_0)
            && r->NotFound_0@ == not_found_message(path@),
        first_nonempty_segment(path@) != "api"@ && last_segment(path@) == "bundle.js"@ ==> r
            == NotFoundResponse::JavaScript,
        first_nonempty_segment(path@) != "api"@ && last_segment(path@) != "bundle.js"@ && last_segment(path@)
            == "favicon.ico"@ ==> r == NotFoundResponse::Favicon,
        first_nonempty_segment(path@) != "api"@ && last_segment(path@) != "bundle.js"@ && last_segment(path@)
            != "favicon.ico"@ ==> r == NotFoundResponse::Html,
{
    let ghost p = path@;
    let cs = chars_of(path);
    let n = cs.len();
    // Start of the last segment.
    let mut j: usize = n;
    while j > 0 && cs[j - 1] != '/'
        invariant
            j <= n == cs.len(),
            forall|k: int| j <= k < n ==> cs@[k] != '/',
        decreases j,
    {
        j = j - 1;
    }
    proof {
        let c = choose|c: int| is_last_segment_start(p, c);
        assert(is_last_segment_start(p, j as int));
        assert(c == j) by {
            if c < j { assert(p[j - 1] == '/'); }
            if c > j { assert(p[c - 1] == '/'); }
        }
    }
    // Start and end of the first segment that is not empty.
    let mut k: usize = 0;
    while k < n && cs[k] == '/'
        invariant
            k <= n == cs.len(),
            forall|i: int| 0 <= i < k ==> cs@[i] == '/',
        decreases n - k,
    {
        k = k + 1;
    }
    let mut e: usize = k;
    while e < n && cs[e] != '/'
        invariant
            k <= e <= n == cs.len(),
            forall|i: int| k <= i < e ==> cs@[i] != '/',
        decreases n - e,
    {
        e = e + 1;
    }
    proof {
        let c = choose|c: int| is_leading_slashes(p, c);
        assert(is_leading_slashes(p, k as int));
        assert(c == k) by {
            if c < k { assert(p[c] == '/'); }
            if c > k { assert(p[k as int] == '/'); }
        }
        let rest = p.skip(k as int);
        assert(crate::calendar::is_first_index(rest, '/', e - k)) by {
            assert forall|i: int| 0 <= i < e - k implies rest[i] != '/' by {
                assert(rest[i] == cs@[k + i]);
            }
        }
        let f = choose|f: int| crate::calendar::is_first_index(rest, '/', f);
        assert(f == e - k) by {
            if f < e - k { assert(rest[f] == cs@[k + f]); }
            if f > e - k { assert(rest[e - k] == '/'); }
        }
    }
    let first = path.substring_char(k, e);
    let last = path.substring_char(j, n);
    assert(first@ =~= first_nonempty_segment(p));
    assert(last@ =~= last_segment(p));
    let api = String::from_str("api");
    let bundle = String::from_str("bundle.js");
    let favicon = String::from_str("favicon.ico");
    if first.to_owned() == api {
        let mut message = String::from_str("404 - API path '");
        message.append(path);
        message.append("' does not exist!");
        NotFoundResponse::NotFound(message)
    } else if last.to_owned() == bundle {
        NotFoundResponse::JavaScript
    } else if last.to_owned() == favicon {
        NotFoundResponse::Favicon
    } else {
        NotFoundResponse::Html
    }
}

/// A year and month parameter that name no day of the calendar.
#[derive(Clone, Copy, Debug, PartialEq, Eq, Structural)]
pub struct InvalidBound;

/// The first day of the month that a query's optional year and month name.
/// Neither given: no bound. One missing: the current year, or
/// `default_month`, stands in for it.
pub fn month_bound(year_or: Option<i32>, month_or: Option<u32>, current_year: i32, default_month: u32) -> (r: Result<
    Option<Date>,
    InvalidBound,
>)
    ensures
        year_or is None && month_or is None ==> r == Ok::<Option<Date>, InvalidBound>(None),
        !(year_or is None && month_or is None) ==> ({
            let y = match year_or {
                Some(y) => y,
                None => current_year,
            };
            let m = match month_or {
                Some(m) => m,
                None => default_month,
            };
            match date_of_civil(y as int, m as int, 1) {
                Some(d) => r == Ok::<Option<Date>, InvalidBound>(Some(d)),
                None => r == Err::<Option<Date>, InvalidBound>(InvalidBound),
            }
        }),
{
    if year_or.is_none() && month_or.is_none() {
        return Ok(None);
    }
    let year = match year_or {
        Some(y) => y,
        None => current_year,
    };
    let month = match month_or {
        Some(m) => m,
        None => default_month,
    };
    match Date::from_ymd(year, month, 1) {
        Some(d) => Ok(Some(d)),
        None => Err(InvalidBound),
    }
}

} // verus!
