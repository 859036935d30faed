//! The addresses of the service's resources, all under
//! `{base}/services/{container}` but for the service's self-description.

use vstd::prelude::*;

verus! {

/// The decimal numeral of `n`, most significant digit first, without
/// leading zeros.
pub open spec fn decimal(n: nat) -> Seq<char>
    decreases n,
{
    if n < 10 {
        seq![digit_char(n)]
    } else {
        decimal(n / 10).push(digit_char(n % 10))
    }
}

pub open spec fn digit_char(d: nat) -> char {
    ('0' as nat + d) as char
}

fn digit_str(d: u64) -> (r: &'static str)
    requires
        d < 10,
    ensures
        r@ == seq![digit_char(d as nat)],
{
    proof {
        reveal_strlit("0");
        reveal_strlit("1");
        reveal_strlit("2");
        reveal_strlit("3");
        reveal_strlit("4");
        reveal_strlit("5");
        reveal_strlit("6");
        reveal_strlit("7");
        reveal_strlit("8");
        reveal_strlit("9");
    }
    match d {
        0 => "0",
        1 => "1",
        2 => "2",
        3 => "3",
        4 => "4",
        5 => "5",
        6 => "6",
        7 => "7",
        8 => "8",
        _ => "9",
    }
}

/// The decimal numeral of `n`.
fn decimal_string(n: u64) -> (r: String)
    ensures
        r@ == decimal(n as nat),
    decreases n,
{
    if n < 10 {
        String::from_str(digit_str(n))
    } else {
        decimal_string(n / 10).concat(digit_str(n % 10))
    }
}

pub open spec fn services_url(base: Seq<char>, container: Seq<char>) -> Seq<char> {
    base + "/services/"@ + container
}

pub open spec fn search_url(base: Seq<char>, container: Seq<char>, search_id: Seq<char>) -> Seq<
    char,
> {
    services_url(base, container) + "/search/"@ + search_id
}

pub open spec fn page_url_of(
    base: Seq<char>,
    container: Seq<char>,
    search_id: Seq<char>,
    page: Option<u64>,
) -> Seq<char> {
    match page {
        None => search_url(base, container, search_id),
        Some(n) => search_url(base, container, search_id) + "?page="@ + decimal(n as nat),
    }
}

fn join(a: &str, b: &str, c: &str) -> (r: String)
    ensures
        r@ == a@ + b@ + c@,
{
    let s = String::from_str(a);
    let s = s.concat(b);
    s.concat(c)
}

/// `{base}/services/{container}`
pub fn services(base: &str, container: &str) -> (r: String)
    ensures
        r@ == services_url(base@, container@),
{
    join(base, "/services/", container)
}

/// `{base}/about`: the service's self-description.
pub fn about_url(base: &str) -> (r: String)
    ensures
        r@ == base@ + "/about"@,
{
    String::from_str(base).concat("/about")
}

/// `{base}/services/{container}/metadata`
pub fn metadata_url(base: &str, container: &str) -> (r: String)
    ensures
        r@ == services_url(base@, container@) + "/metadata"@,
{
    services(base, container).concat("/metadata")
}

/// `{base}/services/{container}/fields`
pub fn fields_url(base: &str, container: &str) -> (r: String)
    ensures
        r@ == services_url(base@, container@) + "/fields"@,
{
    services(base, container).concat("/fields")
}

/// `{base}/services/{container}/indexes`
pub fn indexes_url(base: &str, container: &str) -> (r: String)
    ensures
        r@ == services_url(base@, container@) + "/indexes"@,
{
    services(base, container).concat("/indexes")
}

/// `{base}/services/{container}/distinct-values/{field}`
pub fn distinct_values_url(base: &str, container: &str, field: &str) -> (r: String)
    ensures
        r@ == services_url(base@, container@) + "/distinct-values/"@ + field@,
{
    services(base, container).concat("/distinct-values/").concat(field)
}

/// `{base}/services/{container}/search`: where a query is posted.
pub fn search_collection_url(base: &str, container: &str) -> (r: String)
    ensures
        r@ == services_url(base@, container@) + "/search"@,
{
    services(base, container).concat("/search")
}

/// `{base}/services/{container}/search/{id}/info`: a session's description.
pub fn search_info_url(base: &str, container: &str, search_id: &str) -> (r: String)
    ensures
        r@ == search_url(base@, container@, search_id@) + "/info"@,
{
    services(base, container).concat("/search/").concat(search_id).concat("/info")
}

/// The address of one page of a session's results: the session's own
/// address for the first page, with a `page` parameter for a given index.
pub fn page_url(base: &str, container: &str, search_id: &str, page: Option<u64>) -> (r: String)
    ensures
        r@ == page_url_of(base@, container@, search_id@, page),
{
    let s = services(base, container).concat("/search/").concat(search_id);
    match page {
        None => s,
        Some(n) => {
            let d = decimal_string(n);
            s.concat("?page=").concat(d.as_str())
        },
    }
}

} // verus!
