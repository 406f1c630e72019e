//! The DDoS-Guard check in front of animepahe.ru, passed with its `__ddg2_`
//! cookie.
use vstd::prelude::*;
use vstd::string::*;

verus! {

/// The cookie that carries the DDoS-Guard value `value` for animepahe.ru.
pub open spec fn ddg2_cookie_of(value: Seq<char>) -> Seq<char> {
    "__ddg2_="@ + value + "; Path=/; Domain=animepahe.ru; HttpOnly;"@
}

/// The DDoS-Guard check: what the cookie it hands out is turned into.
pub struct DdosGuardApi;

impl DdosGuardApi {
    /// The `Set-Cookie` text that hands `value`, the `__ddg2_` value that
    /// DDoS-Guard gave, to animepahe.ru.
    pub fn ddg2_cookie(value: &str) -> (r: String)
        ensures
            r@ == ddg2_cookie_of(value@),
    {
        let mut cookie = "__ddg2_=".to_owned();
        cookie.append(value);
        cookie.append("; Path=/; Domain=animepahe.ru; HttpOnly;");
        cookie
    }
}

} // verus!
