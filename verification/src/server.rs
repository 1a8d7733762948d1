//! The tool dispatcher's state and semantics: the key store, the settings
//! store and the client cache behind one handle.  Every identity mutation
//! goes through here and ends by discarding the cached client; none of them
//! touches the settings table, which is what keeps settings keyed by public
//! key stable across renames.
use vstd::prelude::*;

use crate::cache::{CacheDecision, ClientCache};
use crate::error::Error;
use crate::keys::{has_label, spec_insert, spec_remove, KeyEntry};
use crate::keystore::KeyStore;
use crate::secrets::mem_lookup;
use crate::settings::{KeySettings, SettingsStore};

verus! {

/// Arguments of the generate tool.
pub struct GenerateArgs {
    pub label: String,
    pub make_active: Option<bool>,
    pub persist_secret: Option<bool>,
}

/// Arguments of the import tool.
pub struct ImportArgs {
    pub label: String,
    pub key_material: String,
    pub make_active: Option<bool>,
    pub persist_secret: Option<bool>,
}

/// Arguments of the remove tool.
pub struct RemoveArgs {
    pub label: String,
}

/// Arguments of the set-active tool.
pub struct SetActiveArgs {
    pub label: String,
}

/// Arguments of the rename tool; without `from`, the active key is renamed.
pub struct RenameLabelArgs {
    pub from: Option<String>,
    pub to: String,
}

/// Arguments of tools that take none.
pub struct EmptyArgs {}

/// Arguments of the export tool.
pub struct ExportArgs {
    pub label: Option<String>,
    pub format: crate::keystore::ExportFormat,
    pub include_private: bool,
}

/// Arguments of the verify tool.
pub struct VerifyArgs {
    pub key: String,
}

/// Arguments of the derive-public tool.
pub struct DerivePublicArgs {
    pub private_key: String,
}

/// Arguments of the config-dir tool.
pub struct ConfigDirArgs {
    pub path: Option<String>,
}

/// The dispatcher's state: the stores and the client cache.
pub struct ServiceState {
    pub keystore: KeyStore,
    pub settings: SettingsStore,
    pub cache: ClientCache,
}

impl ServiceState {
    /// Well-formed: both stores are.
    pub open spec fn wf(&self) -> bool {
        &&& self.keystore.wf()
        &&& self.settings.wf()
    }

    /// Generate a new identity; on any outcome the cached client is gone.
    pub fn keys_generate(&mut self, label: &str, make_active: bool, persist_secret: bool) -> (r:
        Result<(KeyEntry, String), Error>)
        requires
            old(self).wf(),
        ensures
            final(self).wf(),
            final(self).cache.live is None,
            final(self).cache.next_id == old(self).cache.next_id,
            final(self).settings == old(self).settings,
            r matches Ok(p) ==> p.0@.label == label@ && !has_label(
                old(self).keystore.data@.keys,
                label@,
            ) && final(self).keystore.data@.keys == spec_insert(
                old(self).keystore.data@.keys,
                p.0@,
            ),
    {
        let r = self.keystore.generate(label, make_active, persist_secret);
        self.cache.invalidate();
        r
    }

    /// Import key material; on any outcome the cached client is gone.
    pub fn keys_import(
        &mut self,
        label: &str,
        material: &str,
        make_active: bool,
        persist_secret: bool,
    ) -> (r: Result<(KeyEntry, String), Error>)
        requires
            old(self).wf(),
        ensures
            final(self).wf(),
            final(self).cache.live is None,
            final(self).cache.next_id == old(self).cache.next_id,
            final(self).settings == old(self).settings,
            r matches Ok(p) ==> p.0@.label == label@ && final(self).keystore.data@.keys
                == spec_insert(old(self).keystore.data@.keys, p.0@),
    {
        let r = self.keystore.import_secret(label, material, make_active, persist_secret);
        self.cache.invalidate();
        r
    }

    /// Remove an identity; on any outcome the cached client is gone.
    pub fn keys_remove(&mut self, label: &str) -> (r: Result<(Option<KeyEntry>, String), Error>)
        requires
            old(self).wf(),
        ensures
            final(self).wf(),
            final(self).cache.live is None,
            final(self).cache.next_id == old(self).cache.next_id,
            final(self).settings == old(self).settings,
            final(self).keystore.data@.keys == spec_remove(old(self).keystore.data@.keys, label@),
            (r is Ok && (*old(self)).keystore.secrets is Memory) ==> mem_lookup(
                final(self).keystore.secrets.mem(),
                label@,
            ) is None,
    {
        let r = self.keystore.remove(label);
        self.cache.invalidate();
        r
    }

    /// Make an identity active; on any outcome the cached client is gone.
    pub fn keys_set_active(&mut self, label: &str) -> (r: Result<(KeyEntry, String), Error>)
        requires
            old(self).wf(),
        ensures
            final(self).wf(),
            final(self).cache.live is None,
            final(self).cache.next_id == old(self).cache.next_id,
            final(self).settings == old(self).settings,
            has_label(old(self).keystore.data@.keys, label@) ==> final(self).keystore.data@.active == Some(label@) && final(self).keystore.data@.keys == old(self).keystore.data@.keys,
    {
        let r = self.keystore.set_active(label);
        self.cache.invalidate();
        r
    }

    /// Rename an identity; the settings table, keyed by public key, is left
    /// exactly as it was, and the cached client is gone.
    pub fn keys_rename(&mut self, from: Option<&str>, to: &str) -> (r: Result<
        (KeyEntry, String),
        Error,
    >)
        requires
            old(self).wf(),
        ensures
            final(self).wf(),
            final(self).cache.live is None,
            final(self).cache.next_id == old(self).cache.next_id,
            final(self).settings == old(self).settings,
            from is None && old(self).keystore.data@.active is None ==> r == Err::<
                (KeyEntry, String),
                Error,
            >(Error::NoActiveKey),
    {
        let source: String = match from {
            Option::Some(f) => String::from_str(f),
            Option::None => {
                match self.keystore.get_active() {
                    Option::Some(e) => e.label,
                    Option::None => {
                        self.cache.invalidate();
                        return Err(Error::NoActiveKey);
                    },
                }
            },
        };
        let r = self.keystore.rename_label(source.as_str(), to);
        self.cache.invalidate();
        r
    }

    /// The active entry.
    pub fn keys_active(&self) -> (r: Option<KeyEntry>)
        requires
            self.wf(),
        ensures
            match r {
                Option::Some(e) => self.keystore.data@.active == Some(e@.label),
                Option::None => self.keystore.data@.active is None,
            },
    {
        self.keystore.get_active()
    }

    /// A snapshot of the entries.
    pub fn keys_list(&self) -> (r: Vec<KeyEntry>)
        ensures
            r@.map_values(|e: KeyEntry| e@) == self.keystore.data@.keys,
    {
        self.keystore.list()
    }

    /// Store settings for a public key.  The key index and the cached
    /// client are untouched.
    pub fn save_settings(&mut self, pubkey_hex: &str, settings: KeySettings) -> (r: Result<
        String,
        Error,
    >)
        requires
            old(self).wf(),
        ensures
            final(self).wf(),
            final(self).keystore == old(self).keystore,
            final(self).cache == old(self).cache,
            crate::settings::settings_lookup(final(self).settings.data@.settings, pubkey_hex@)
                == Some(settings@),
            forall|x: Seq<char>|
                x != pubkey_hex@ ==> #[trigger] crate::settings::settings_lookup(
                    final(self).settings.data@.settings,
                    x,
                ) == crate::settings::settings_lookup(old(self).settings.data@.settings, x),
    {
        self.settings.save_settings(pubkey_hex, settings)
    }

    /// The settings stored for a public key.
    pub fn get_settings(&self, pubkey_hex: &str) -> (r: Option<KeySettings>)
        requires
            self.wf(),
        ensures
            match r {
                Option::Some(v) => crate::settings::settings_lookup(
                    self.settings.data@.settings,
                    pubkey_hex@,
                ) == Some(v@),
                Option::None => crate::settings::settings_lookup(
                    self.settings.data@.settings,
                    pubkey_hex@,
                ) is None,
            },
    {
        self.settings.get_settings(pubkey_hex)
    }

    /// Decide whether the cached client can serve the current active
    /// identity: the first step of `ensure`.
    pub fn ensure_decision(&self) -> (r: CacheDecision)
        requires
            self.wf(),
        ensures
            match r {
                CacheDecision::UseLive(id) => self.cache.live matches Some(c)
                    && self.keystore.data@.active == Some(c@.active_label) && c@.build_id
                    == id as int,
                CacheDecision::Rebuild => self.keystore.data@.active is Some,
                CacheDecision::NoActive => self.keystore.data@.active is None,
            },
    {
        let active = self.keystore.get_active();
        let r = self.cache.check(&active);
        proof {
            match r {
                CacheDecision::UseLive(_) => {
                    let e = active->Some_0;
                    assert(self.keystore.data@.active == Some(e@.label));
                },
                CacheDecision::Rebuild => {},
                CacheDecision::NoActive => {},
            }
        }
        r
    }

    /// Record a freshly built client for the current active identity: the
    /// last step of `ensure`.  Afterwards the cache is coherent with the
    /// index.
    pub fn note_built(&mut self, label: &str, pubkey: &str) -> (id: u64)
        requires
            old(self).wf(),
            old(self).cache.next_id < 0xFFFF_FFFF_FFFF_FFFF,
            old(self).keystore.data@.active == Some(label@),
        ensures
            final(self).wf(),
            final(self).keystore == old(self).keystore,
            final(self).settings == old(self).settings,
            final(self).cache.live matches Some(c) && c@.active_label == label@ && c@.build_id
                == id as int,
            final(self).keystore.data@.active == Some(label@),
    {
        self.cache.install(label, pubkey)
    }
}

} // verus!
