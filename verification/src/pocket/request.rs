//! The envelope of a request: the two credentials around the request proper.

use vstd::prelude::*;

verus! {

/// A request together with the credentials that every request carries.
pub struct PockeRequest<'a, T> {
    pub consumer_key: &'a str,
    pub access_token: &'a str,
    pub extra: T,
}

impl<'a, T> PockeRequest<'a, T> {
    pub fn new(consumer_key: &'a str, access_token: &'a str, data: T) -> (request: PockeRequest<
        'a,
        T,
    >)
        ensures
            request.consumer_key@ == consumer_key@,
            request.access_token@ == access_token@,
            request.extra == data,
    {
        PockeRequest { consumer_key, access_token, extra: data }
    }
}

} // verus!
