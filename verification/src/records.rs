//! Records as they travel to and from the sync server.

use vstd::prelude::*;

use crate::model::{AliasInfo, CollectionInfo, RemoteAlias, RemoteCollection};
use crate::names::{
    default_collection_id,
    default_collection_name,
    DEFAULT_COLLECTION_ID,
    DEFAULT_COLLECTION_NAME,
};
use crate::store::{Alias, Collection};

verus! {

/// A record as the server sends it.
#[derive(Debug)]
pub struct RemoteRecord {
    pub id: String,
    pub record_type: String,
    pub encrypted_blob: String,
    pub version: i64,
}

/// What the server answers to a request for records.
#[derive(Debug)]
pub struct PullResponse {
    pub latest_version: i64,
    pub records: Vec<RemoteRecord>,
}

/// A record as it is sent to the server.
#[derive(Debug)]
pub struct UploadRecord {
    pub id: String,
    pub record_type: String,
    pub encrypted_blob: String,
    pub updated_at: i64,
}

/// The version that the server gave to a record.
#[derive(Debug)]
pub struct PushedRecord {
    pub id: String,
    pub version: i64,
}

/// What the server answers to records that were sent.
#[derive(Debug)]
pub struct PushResponse {
    pub latest_version: i64,
    pub records: Vec<PushedRecord>,
}

/// What a record of a collection says once it is decrypted.
#[derive(Debug)]
pub struct CollectionPayload {
    pub name: String,
    pub deleted: bool,
    pub updated_at: i64,
}

/// What a record of an alias says once it is decrypted.
#[derive(Debug)]
pub struct AliasPayload {
    pub collection_id: String,
    pub collection_name: String,
    pub name: String,
    pub command: String,
    pub deleted: bool,
    pub updated_at: i64,
}

/// The collection that a record and its payload describe.
pub open spec fn remote_collection(
    record: RemoteRecord,
    payload: CollectionPayload,
) -> RemoteCollection {
    RemoteCollection {
        id: record.id@,
        version: record.version,
        name: payload.name@,
        deleted: payload.deleted,
        updated_at: payload.updated_at,
    }
}

/// The alias that a record and its payload describe.
pub open spec fn remote_alias(record: RemoteRecord, payload: AliasPayload) -> RemoteAlias {
    RemoteAlias {
        id: record.id@,
        version: record.version,
        collection_id: payload.collection_id@,
        collection_name: payload.collection_name@,
        name: payload.name@,
        command: payload.command@,
        deleted: payload.deleted,
        updated_at: payload.updated_at,
    }
}

// ---------------------------------------------------------------------------
// Payloads
// ---------------------------------------------------------------------------
/// The payload of an alias. One that names no collection is one of the shared collection.
pub fn alias_payload(
    collection_id: Option<String>,
    collection_name: Option<String>,
    name: String,
    command: String,
    deleted: bool,
    updated_at: i64,
) -> (r: AliasPayload)
    ensures
        match collection_id {
            Some(id) => r.collection_id == id,
            None => r.collection_id@ == DEFAULT_COLLECTION_ID@,
        },
        match collection_name {
            Some(n) => r.collection_name == n,
            None => r.collection_name@ == DEFAULT_COLLECTION_NAME@,
        },
        r.name == name,
        r.command == command,
        r.deleted == deleted,
        r.updated_at == updated_at,
{
    let collection_id = match collection_id {
        Some(id) => id,
        None => default_collection_id(),
    };
    let collection_name = match collection_name {
        Some(name) => name,
        None => default_collection_name(),
    };
    AliasPayload { collection_id, collection_name, name, command, deleted, updated_at }
}

/// The payload says what the collection is.
pub open spec fn describes_collection(payload: CollectionPayload, c: CollectionInfo) -> bool {
    &&& payload.name@ == c.name
    &&& payload.deleted == c.deleted
    &&& payload.updated_at == c.updated_at
}

/// The payload says what the alias is.
pub open spec fn describes_alias(payload: AliasPayload, a: AliasInfo) -> bool {
    &&& payload.collection_id@ == a.collection_id
    &&& payload.collection_name@ == a.collection_name
    &&& payload.name@ == a.name
    &&& payload.command@ == a.command
    &&& payload.deleted == a.deleted
    &&& payload.updated_at == a.updated_at
}

/// The payload of a collection that is to be sent.
pub fn payload_of_collection(collection: &Collection) -> (r: CollectionPayload)
    ensures
        describes_collection(r, collection@),
{
    CollectionPayload {
        name: collection.name.clone(),
        deleted: collection.deleted,
        updated_at: collection.updated_at,
    }
}

/// The payload of an alias that is to be sent.
pub fn payload_of_alias(alias: &Alias) -> (r: AliasPayload)
    ensures
        describes_alias(r, alias@),
{
    AliasPayload {
        collection_id: alias.collection_id.clone(),
        collection_name: alias.collection_name.clone(),
        name: alias.name.clone(),
        command: alias.command.clone(),
        deleted: alias.deleted,
        updated_at: alias.updated_at,
    }
}

/// What is taken over has the id and the version of the record and all else from the payload.
pub proof fn law_record_and_payload(
    record: RemoteRecord,
    collection: CollectionPayload,
    alias: AliasPayload,
)
    ensures
        ({
            let c = remote_collection(record, collection);
            &&& c.id == record.id@
            &&& c.version == record.version
            &&& c.name == collection.name@
            &&& c.deleted == collection.deleted
            &&& c.updated_at == collection.updated_at
        }),
        ({
            let a = remote_alias(record, alias);
            &&& a.id == record.id@
            &&& a.version == record.version
            &&& a.collection_id == alias.collection_id@
            &&& a.collection_name == alias.collection_name@
            &&& a.name == alias.name@
            &&& a.command == alias.command@
            &&& a.deleted == alias.deleted
            &&& a.updated_at == alias.updated_at
        }),
{
}

/// Two payloads that describe the same record, and two records that the same payload describes, are
/// alike in all that is sent.
pub proof fn law_payload_describes_one(
    p: AliasPayload,
    q: AliasPayload,
    a: AliasInfo,
    b: AliasInfo,
)
    requires
        describes_alias(p, a),
    ensures
        describes_alias(q, a) ==> p.collection_id@ == q.collection_id@ && p.collection_name@
            == q.collection_name@ && p.name@ == q.name@ && p.command@ == q.command@ && p.deleted
            == q.deleted && p.updated_at == q.updated_at,
        describes_alias(p, b) ==> a.collection_id == b.collection_id && a.collection_name
            == b.collection_name && a.name == b.name && a.command == b.command && a.deleted
            == b.deleted && a.updated_at == b.updated_at,
{
}

} // verus!
