//! The cache of directory listings.

use std::time::Duration;

use moka::sync::Cache;
use vstd::prelude::*;

verus! {

/// How long a listing is kept, in seconds.
pub const CACHE_SECONDS: u64 = 30;

/// How many listings are kept.
pub const CACHE_CAPACITY: u64 = 500;

/// `moka`'s cache.
#[verifier::external_type_specification]
#[verifier::external_body]
#[verifier::reject_recursive_types(K)]
#[verifier::reject_recursive_types(V)]
#[verifier::reject_recursive_types(S)]
pub struct ExCache<K, V, S>(moka::sync::Cache<K, V, S>);

/// The listings that were put into a cache and not discarded since, by the bytes
/// of the directory's path. A cache may have dropped any of them.
pub uninterp spec fn listings(c: moka::sync::Cache<Vec<u8>, String>) -> Map<Seq<u8>, Seq<char>>;

/// No listing at all.
pub open spec fn no_listings() -> Map<Seq<u8>, Seq<char>> {
    Map::empty()
}

/// For how many seconds a cache keeps a listing, and how many listings it keeps.
pub uninterp spec fn limits(c: moka::sync::Cache<Vec<u8>, String>) -> (u64, u64);

/// Calls `Cache::builder` with a time to live and a capacity: nothing is in the
/// cache that it builds. The builder panics on a time to live of more than a
/// thousand years.
#[verifier::external_body]
fn build(seconds: u64, capacity: u64) -> (r: Cache<Vec<u8>, String>)
    requires
        seconds <= 31_536_000_000,
    ensures
        listings(r) == no_listings(),
        limits(r) == (seconds, capacity),
{
    Cache::builder().time_to_live(Duration::from_secs(seconds)).max_capacity(capacity).build()
}

/// Calls `Cache::get`: what it finds was put there for the key and not discarded
/// since. When it finds something is left open: a listing expires, and makes room
/// for others.
#[verifier::external_body]
fn look_up(c: &Cache<Vec<u8>, String>, key: &Vec<u8>) -> (r: Option<String>)
    ensures
        r matches Some(s) ==> listings(*c).contains_key(key@) && listings(*c)[key@] == s@,
{
    c.get(key)
}

/// Calls `Cache::insert`: the listing takes the place of what was there for the
/// key.
#[verifier::external_body]
fn put(c: &mut Cache<Vec<u8>, String>, key: Vec<u8>, value: String)
    ensures
        listings(*final(c)) == listings(*old(c)).insert(key@, value@),
        limits(*final(c)) == limits(*old(c)),
{
    c.insert(key, value)
}

/// Calls `Cache::invalidate`: what was there for the key is discarded.
#[verifier::external_body]
fn discard(c: &mut Cache<Vec<u8>, String>, key: &Vec<u8>)
    ensures
        listings(*final(c)) == listings(*old(c)).remove(key@),
        limits(*final(c)) == limits(*old(c)),
{
    c.invalidate(key)
}

/// Calls `Cache::invalidate_all`: everything is discarded, as its documentation guarantees.
#[verifier::external_body]
fn discard_all(c: &mut Cache<Vec<u8>, String>)
    ensures
        listings(*final(c)) == no_listings(),
        limits(*final(c)) == limits(*old(c)),
{
    c.invalidate_all()
}

/// The cache of directory listings.
pub struct DirCache {
    cache: Cache<Vec<u8>, String>,
}

impl View for DirCache {
    type V = Map<Seq<u8>, Seq<char>>;

    closed spec fn view(&self) -> Map<Seq<u8>, Seq<char>> {
        listings(self.cache)
    }
}

impl DirCache {
    /// For how many seconds the cache keeps a listing, and how many it keeps.
    pub closed spec fn bounds(self) -> (u64, u64) {
        limits(self.cache)
    }

    /// An empty cache.
    pub fn new() -> (r: DirCache)
        ensures
            r@ == no_listings(),
            r.bounds() == (CACHE_SECONDS, CACHE_CAPACITY),
    {
        DirCache { cache: build(CACHE_SECONDS, CACHE_CAPACITY) }
    }

    /// The listing of a directory, if the cache still has it.
    pub fn get(&self, key: &Vec<u8>) -> (r: Option<String>)
        ensures
            r matches Some(s) ==> self@.contains_key(key@) && self@[key@] == s@,
    {
        look_up(&self.cache, key)
    }

    /// Keeps the listing of a directory.
    pub fn insert(&mut self, key: Vec<u8>, value: String)
        ensures
            final(self)@ == old(self)@.insert(key@, value@),
            final(self).bounds() == old(self).bounds(),
    {
        put(&mut self.cache, key, value)
    }

    /// Discards the listing of a directory.
    pub fn invalidate(&mut self, key: &Vec<u8>)
        ensures
            final(self)@ == old(self)@.remove(key@),
            final(self).bounds() == old(self).bounds(),
    {
        discard(&mut self.cache, key)
    }

    /// Discards every listing.
    pub fn invalidate_all(&mut self)
        ensures
            final(self)@ == no_listings(),
            final(self).bounds() == old(self).bounds(),
    {
        discard_all(&mut self.cache)
    }
}

} // verus!
