//! Taking over what other computers sent, and noting what the server has.

use vstd::prelude::*;

use crate::clock;
use crate::clock::{now_unix, Clock};
use crate::error;
use crate::error::AliazError;
use crate::laws;
use crate::model;
use crate::names::{validate_name, DEFAULT_COLLECTION_NAME};
use crate::outside;
use crate::outside::random_uuid;
use crate::records;
use crate::records::{AliasPayload, CollectionPayload, RemoteRecord};
use crate::rows::{AliasRow, BackupRow, CollectionRow};
use crate::store::Store;
use crate::text::{cat3, same_text};

verus! {

impl Store {
    /// Takes over a collection, unless a later local change is still to be sent. Says whether it
    /// was taken over.
    pub fn apply_remote_collection(
        &mut self,
        record: &RemoteRecord,
        payload: &CollectionPayload,
        clock: &Clock,
    ) -> (r: Result<bool, AliazError>)
        requires
            old(self).wf(),
        ensures
            final(self).wf(),
            (final(self)@, error::seen(r)) == model::remote_collection_applied(
                old(self)@,
                records::remote_collection(*record, *payload),
                clock::time_of(*clock),
            ),
    {
        proof {
            laws::law_remote_collection_keeps_order(
                self@,
                records::remote_collection(*record, *payload),
                clock::time_of(*clock),
            );
        }
        if let Err(e) = validate_name(payload.name.as_str()) {
            return Err(e);
        }
        let deleted = payload.deleted && !same_text(
            payload.name.as_str(),
            DEFAULT_COLLECTION_NAME,
        );
        if let Ok(i) = self.live_row(payload.name.as_str()) {
            let local = &self.tables.collections[i];
            if local.dirty && local.updated_at > payload.updated_at {
                return Ok(false);
            }
        }
        let now = match now_unix(clock) {
            Ok(now) => now,
            Err(e) => {
                return Err(e);
            },
        };
        match self.tables.named_row(payload.name.as_str()) {
            Some(i) => {
                let there = &self.tables.collections[i];
                let row = CollectionRow {
                    id: there.id.clone(),
                    name: there.name.clone(),
                    deleted,
                    dirty: false,
                    sync_version: record.version,
                    created_at: there.created_at,
                    updated_at: payload.updated_at,
                };
                self.tables.set_collection(i, row);
            },
            None => {
                if self.tables.collection_row(record.id.as_str()).is_some() {
                    return Err(AliazError::DuplicateCollectionId);
                }
                let row = CollectionRow {
                    id: record.id.clone(),
                    name: payload.name.clone(),
                    deleted,
                    dirty: false,
                    sync_version: record.version,
                    created_at: now,
                    updated_at: payload.updated_at,
                };
                self.tables.add_collection(row);
            },
        }
        Ok(true)
    }

    /// Makes sure that a collection that an incoming alias belongs to is there and is not deleted.
    pub fn ensure_remote_collection(&mut self, id: &str, name: &str, clock: &Clock) -> (r: Result<
        (),
        AliazError,
    >)
        requires
            old(self).wf(),
        ensures
            final(self).wf(),
            (final(self)@, error::seen(r)) == model::remote_collection_ensured(
                old(self)@,
                id@,
                name@,
                clock::time_of(*clock),
            ),
    {
        proof {
            laws::law_ensure_remote_keeps_order(self@, id@, name@, clock::time_of(*clock));
        }
        if let Err(e) = validate_name(name) {
            return Err(e);
        }
        if self.live_row(name).is_ok() {
            return Ok(());
        }
        let now = match now_unix(clock) {
            Ok(now) => now,
            Err(e) => {
                return Err(e);
            },
        };
        match self.tables.named_row(name) {
            Some(i) => {
                let there = &self.tables.collections[i];
                let row = CollectionRow {
                    id: there.id.clone(),
                    name: there.name.clone(),
                    deleted: false,
                    dirty: there.dirty,
                    sync_version: there.sync_version,
                    created_at: there.created_at,
                    updated_at: there.updated_at,
                };
                self.tables.set_collection(i, row);
            },
            None => {
                if self.tables.collection_row(id).is_some() {
                    return Err(AliazError::DuplicateCollectionId);
                }
                let row = CollectionRow {
                    id: id.to_owned(),
                    name: name.to_owned(),
                    deleted: false,
                    dirty: false,
                    sync_version: 0,
                    created_at: now,
                    updated_at: now,
                };
                self.tables.add_collection(row);
            },
        }
        Ok(())
    }

    /// Takes over an alias. A later local change that is still to be sent is kept; an earlier one
    /// is backed up under the given id before it is replaced. Says whether the alias was taken
    /// over.
    pub fn apply_remote_alias_with_backup_id(
        &mut self,
        record: &RemoteRecord,
        payload: &AliasPayload,
        backup_id: String,
        clock: &Clock,
    ) -> (r: Result<bool, AliazError>)
        requires
            old(self).wf(),
        ensures
            final(self).wf(),
            (final(self)@, error::seen(r)) == model::remote_alias_applied(
                old(self)@,
                records::remote_alias(*record, *payload),
                backup_id@,
                clock::time_of(*clock),
            ),
    {
        let ghost remote = records::remote_alias(*record, *payload);
        proof {
            laws::law_remote_alias_keeps_order(
                self@,
                remote,
                backup_id@,
                clock::time_of(*clock),
            );
            laws::law_ensure_remote_keeps_order(
                self@,
                remote.collection_id,
                remote.collection_name,
                clock::time_of(*clock),
            );
        }
        if let Err(e) = validate_name(payload.name.as_str()) {
            return Err(e);
        }
        if let Err(e) = self.ensure_remote_collection(
            payload.collection_id.as_str(),
            payload.collection_name.as_str(),
            clock,
        ) {
            return Err(e);
        }
        let ghost mid = self@;
        let i = match self.live_row(payload.collection_name.as_str()) {
            Ok(i) => i,
            Err(e) => {
                return Err(e);
            },
        };
        let cid = self.tables.collections[i].id.clone();
        let ghost key = (cid@, payload.name@);
        let there = self.tables.alias_row(cid.as_str(), payload.name.as_str());
        if let Some(k) = there {
            let local = &self.tables.aliases[k];
            if local.dirty && local.updated_at > payload.updated_at {
                return Ok(false);
            }
        }
        let now = match now_unix(clock) {
            Ok(now) => now,
            Err(e) => {
                return Err(e);
            },
        };
        if let Some(k) = there {
            let local = &self.tables.aliases[k];
            if local.dirty {
                if self.tables.has_backup(backup_id.as_str()) {
                    return Err(AliazError::DuplicateBackupId);
                }
                let alias_name = cat3(
                    self.tables.collections[i].name.as_str(),
                    "/",
                    local.name.as_str(),
                );
                let row = BackupRow {
                    id: backup_id,
                    alias_name,
                    command: local.command.clone(),
                    remote_version: record.version,
                    created_at: now,
                };
                self.tables.add_backup(row);
            }
        }
        let ghost backed_up = self@;
        if let Some(k) = self.tables.alias_id_row(record.id.as_str()) {
            let other = &self.tables.aliases[k];
            if !same_text(other.collection_id.as_str(), cid.as_str()) || !same_text(
                other.name.as_str(),
                payload.name.as_str(),
            ) {
                proof {
                    let other_key = (other.collection_id@, other.name@);
                    assert(mid.aliases.contains_key(other_key) && other_key != key);
                    assert(model::alias_id_taken_by_other(mid, record.id@, key));
                }
                return Err(AliazError::DuplicateAliasId);
            }
        }
        assert(!model::alias_id_taken_by_other(mid, record.id@, key)) by {
            if model::alias_id_taken_by_other(mid, record.id@, key) {
                let k = choose|k: model::AliasKey| #[trigger]
                    mid.aliases.contains_key(k) && k != key && mid.aliases[k].id == record.id@;
                assert(backed_up.aliases.contains_key(k));
                assert(model::alias_id_taken(backed_up, record.id@));
            }
        }
        let created_at = match there {
            Some(k) => self.tables.aliases[k].created_at,
            None => now,
        };
        let row = AliasRow {
            id: record.id.clone(),
            collection_id: cid,
            name: payload.name.clone(),
            command: payload.command.clone(),
            deleted: payload.deleted,
            dirty: false,
            sync_version: record.version,
            created_at,
            updated_at: payload.updated_at,
        };
        let ghost added = row@;
        match there {
            Some(k) => {
                self.tables.set_alias(k, row);
                assert(self@ =~= model::with_alias(backed_up, added));
            },
            None => {
                self.tables.add_alias(row);
            },
        }
        Ok(true)
    }

    /// Takes over an alias. A local change that it replaces is backed up under a random id.
    pub fn apply_remote_alias(
        &mut self,
        record: &RemoteRecord,
        payload: &AliasPayload,
        clock: &Clock,
    ) -> (r: Result<bool, AliazError>)
        requires
            old(self).wf(),
        ensures
            final(self).wf(),
            exists|id: Seq<char>|
                #![trigger outside::is_random_uuid(id)]
                outside::is_random_uuid(id) && (final(self)@, error::seen(r))
                    == model::remote_alias_applied(
                    old(self)@,
                    records::remote_alias(*record, *payload),
                    id,
                    clock::time_of(*clock),
                ),
    {
        let id = random_uuid();
        self.apply_remote_alias_with_backup_id(record, payload, id, clock)
    }

    /// Notes that the server has a collection in the given version.
    pub fn mark_collection_synced(&mut self, id: &str, version: i64)
        requires
            old(self).wf(),
        ensures
            final(self).wf(),
            final(self)@ == model::collection_synced(old(self)@, id@, version),
    {
        proof {
            laws::law_synced_keeps_order(self@, id@, version);
        }
        if let Some(i) = self.tables.collection_row(id) {
            let there = &self.tables.collections[i];
            let row = CollectionRow {
                id: there.id.clone(),
                name: there.name.clone(),
                deleted: there.deleted,
                dirty: false,
                sync_version: version,
                created_at: there.created_at,
                updated_at: there.updated_at,
            };
            self.tables.set_collection(i, row);
        }
    }

    /// Notes that the server has an alias in the given version.
    pub fn mark_alias_synced(&mut self, id: &str, version: i64)
        requires
            old(self).wf(),
        ensures
            final(self).wf(),
            final(self)@ == model::alias_synced(old(self)@, id@, version),
    {
        let ghost before = self@;
        proof {
            laws::law_synced_keeps_order(self@, id@, version);
        }
        if let Some(i) = self.tables.alias_id_row(id) {
            let there = &self.tables.aliases[i];
            let ghost key = (there.collection_id@, there.name@);
            let row = AliasRow {
                id: there.id.clone(),
                collection_id: there.collection_id.clone(),
                name: there.name.clone(),
                command: there.command.clone(),
                deleted: there.deleted,
                dirty: false,
                sync_version: version,
                created_at: there.created_at,
                updated_at: there.updated_at,
            };
            self.tables.set_alias(i, row);
            assert(before.aliases.contains_key(key));
            assert(self@ =~= model::alias_synced(before, id@, version));
        } else {
            assert forall|k: model::AliasKey| before.aliases.contains_key(k) implies (
            #[trigger] before.aliases[k]).id != id@ by {
                assert(before.aliases.contains_key(k));
            }
            assert(self@ =~= model::alias_synced(before, id@, version));
        }
    }
}

} // verus!
