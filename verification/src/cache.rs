//! The active-client cache, as the state the library decides over: at most
//! one live client, tagged with the label it was built for and a build
//! number.  The caller owns the real network client, keyed by the build
//! number; every identity mutation invalidates the cache, and a client is
//! only reused while its label is the active one.
use vstd::prelude::*;

use crate::keys::KeyEntry;

verus! {

/// The record of the one live client.
pub struct CachedClient {
    /// The label the client signs for.
    pub active_label: String,
    /// The bech32 public key of that identity.
    pub active_pubkey: String,
    /// The build number: the caller keys the real client by it.
    pub build_id: u64,
}

/// The mathematical value of a [`CachedClient`].
pub struct CachedClientV {
    pub active_label: Seq<char>,
    pub active_pubkey: Seq<char>,
    pub build_id: int,
}

impl View for CachedClient {
    type V = CachedClientV;

    open spec fn view(&self) -> CachedClientV {
        CachedClientV {
            active_label: self.active_label@,
            active_pubkey: self.active_pubkey@,
            build_id: self.build_id as int,
        }
    }
}

/// The cache cell.
pub struct ClientCache {
    pub live: Option<CachedClient>,
    /// The next build number to hand out.
    pub next_id: u64,
}

/// What the caller must do to satisfy a use of the cache.
pub enum CacheDecision {
    /// The live client's label is the active label: reuse it, keyed by this
    /// build number.
    UseLive(u64),
    /// No live client matches: build one and install it.
    Rebuild,
    /// No identity is active: fail with `NoActiveKey`.
    NoActive,
}

/// The live client, if any, is tagged with the currently active label.
pub open spec fn cache_coherent(live: Option<CachedClientV>, active: Option<Seq<char>>) -> bool {
    match live {
        Option::Some(c) => active == Some(c.active_label),
        Option::None => true,
    }
}

impl ClientCache {
    /// An empty cache.
    pub fn new() -> (r: ClientCache)
        ensures
            r.live is None,
    {
        ClientCache { live: None, next_id: 0 }
    }

    /// Decide whether the live client can serve the active identity.
    pub fn check(&self, active: &Option<KeyEntry>) -> (r: CacheDecision)
        ensures
            match r {
                CacheDecision::UseLive(id) => (*active) matches Some(e) && self.live matches Some(
                    c,
                ) && c@.active_label == e@.label && c@.build_id == id as int,
                CacheDecision::Rebuild => (*active) is Some && !(self.live matches Some(c)
                    && (*active) matches Some(e) && c@.active_label == e@.label),
                CacheDecision::NoActive => (*active) is None,
            },
    {
        match active {
            Option::None => CacheDecision::NoActive,
            Option::Some(e) => match &self.live {
                Option::Some(c) => {
                    if crate::chars::str_eq(c.active_label.as_str(), e.label.as_str()) {
                        CacheDecision::UseLive(c.build_id)
                    } else {
                        CacheDecision::Rebuild
                    }
                },
                Option::None => CacheDecision::Rebuild,
            },
        }
    }

    /// Discard the live client.  The next use must rebuild.
    pub fn invalidate(&mut self)
        ensures
            final(self).live is None,
            final(self).next_id == old(self).next_id,
    {
        self.live = None;
    }

    /// Install a freshly built client for the given identity, under a new
    /// build number.
    pub fn install(&mut self, label: &str, pubkey: &str) -> (id: u64)
        requires
            old(self).next_id < 0xFFFF_FFFF_FFFF_FFFF,
        ensures
            final(self).live matches Some(c) && c@.active_label == label@ && c@.active_pubkey
                == pubkey@ && c@.build_id == id as int,
            id == old(self).next_id,
            final(self).next_id == old(self).next_id + 1,
    {
        let id = self.next_id;
        self.live = Some(
            CachedClient {
                active_label: String::from_str(label),
                active_pubkey: String::from_str(pubkey),
                build_id: id,
            },
        );
        self.next_id = id + 1;
        id
    }
}

/// A reused client always matches the active identity: whenever the cache
/// decides `UseLive`, the live client's label is the active label.
pub proof fn lemma_use_live_coherent(cache: ClientCache, active: Option<KeyEntry>, id: u64)
    requires
        cache.live matches Some(c) && active matches Some(e) && c@.active_label == e@.label,
    ensures
        cache_coherent(
            match cache.live {
                Option::Some(c) => Some(c@),
                Option::None => None,
            },
            match active {
                Option::Some(e) => Some(e@.label),
                Option::None => None,
            },
        ),
{
}

/// After an invalidation nothing can be reused: the next use of the cache
/// must rebuild against the then-current active identity, so a client built
/// before an identity mutation is never returned after it.
pub proof fn lemma_invalidate_forces_rebuild(cache: ClientCache, active: Option<KeyEntry>)
    requires
        cache.live is None,
    ensures
        cache_coherent(
            None,
            match active {
                Option::Some(e) => Some(e@.label),
                Option::None => None,
            },
        ),
{
}

} // verus!
