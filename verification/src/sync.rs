//! Synchronising with the server, as a session that says what to do next and is told what came of
//! it.
//!
//! A session pulls the records that are new, takes over the collections among them and then the
//! aliases, and pushes what is still to be sent. Talking to the server, and turning payloads into
//! bytes and back, is left to the caller.

use vstd::prelude::*;

use crate::account;
use crate::account::{pull_url, push_url, SyncConfig};
use crate::clock;
use crate::clock::Clock;
use crate::crypto;
use crate::crypto::{decrypt_record, derive_key, encrypt_record};
use crate::effects;
use crate::error::{AliazError, Failure};
use crate::laws;
use crate::model;
use crate::model::{AliasInfo, AliasKey, CollectionInfo, StoreState};
use crate::outside;
use crate::outside::{random_uuid, HASH_LIMIT};
use crate::records;
use crate::records::{
    payload_of_alias,
    payload_of_collection,
    AliasPayload,
    CollectionPayload,
    PullResponse,
    PushResponse,
    PushedRecord,
    RemoteRecord,
    UploadRecord,
};
use crate::rows;
use crate::store::{Alias, Collection, Store};
use crate::text::same_text;

verus! {

/// What a session did.
#[derive(Clone, Copy, Debug, PartialEq, Eq, Structural)]
pub struct SyncResult {
    /// How many records were taken over.
    pub pulled: usize,
    /// How many records were sent.
    pub pushed: usize,
}

/// What is to be done next.
#[derive(Debug)]
pub enum SyncAction {
    /// Ask the server for records.
    Pull {
        url: String,
        token: String,
    },
    /// Read the payload of a collection from bytes.
    ParseCollection(Vec<u8>),
    /// Read the payload of an alias from bytes.
    ParseAlias(Vec<u8>),
    /// Write the payload of a collection as bytes.
    EncodeCollection(CollectionPayload),
    /// Write the payload of an alias as bytes.
    EncodeAlias(AliasPayload),
    /// Send records to the server.
    Push {
        url: String,
        token: String,
        records: Vec<UploadRecord>,
    },
    /// Nothing: the session is over.
    Done(SyncResult),
}

/// Where a session stands.
#[derive(Clone, Copy, Debug, PartialEq, Eq, Structural)]
pub enum Stage {
    /// Nothing was done yet.
    New,
    /// Records are being pulled.
    Pulling,
    /// Records are being taken over, one by one.
    Applying,
    /// Records to be sent are being written, one by one.
    Encoding,
    /// Records are being pushed.
    Pushing,
    /// The session is over.
    Finished,
}

/// A session.
#[derive(Debug)]
pub struct SyncSession {
    key: [u8; 32],
    stage: Stage,
    records: Vec<RemoteRecord>,
    order: Vec<usize>,
    position: usize,
    latest_version: i64,
    pulled: usize,
    pending_collections: Vec<Collection>,
    pending_aliases: Vec<Alias>,
    uploads: Vec<UploadRecord>,
    pushed: usize,
}

/// A session, as mathematics.
#[verifier::ext_equal]
pub struct SyncState {
    pub key: Seq<u8>,
    pub stage: Stage,
    /// The records that were pulled.
    pub records: Seq<RemoteRecord>,
    /// How many of those that count were taken over or passed over.
    pub position: nat,
    /// The version that the server has.
    pub latest_version: i64,
    /// How many records were taken over.
    pub pulled: nat,
    /// The collections that are to be sent.
    pub pending_collections: Seq<CollectionInfo>,
    /// The aliases that are to be sent.
    pub pending_aliases: Seq<AliasInfo>,
    /// The records that are ready to be sent.
    pub uploads: Seq<UploadRecord>,
    /// How many records were sent.
    pub pushed: nat,
}

// ---------------------------------------------------------------------------
// The order of the records
// ---------------------------------------------------------------------------
/// Where the records of a type are.
pub open spec fn positions_of(all: Seq<RemoteRecord>, kind: Seq<char>) -> Seq<int>
    decreases all.len(),
{
    if all.len() == 0 {
        Seq::empty()
    } else if all.last().record_type@ == kind {
        positions_of(all.drop_last(), kind).push(all.len() - 1)
    } else {
        positions_of(all.drop_last(), kind)
    }
}

/// The collections, then the aliases. Records of other types do not count.
pub open spec fn order_of(all: Seq<RemoteRecord>) -> Seq<int> {
    positions_of(all, "collection"@) + positions_of(all, "alias"@)
}

/// The record that is next.
pub open spec fn next_record(s: SyncState) -> RemoteRecord {
    s.records[order_of(s.records)[s.position as int]]
}

proof fn lemma_positions(all: Seq<RemoteRecord>, kind: Seq<char>)
    ensures
        positions_of(all, kind).len() <= all.len(),
        forall|i: int|
            0 <= i < positions_of(all, kind).len() ==> 0 <= #[trigger] positions_of(all, kind)[i]
                < all.len() && all[positions_of(all, kind)[i]].record_type@ == kind,
    decreases all.len(),
{
    if all.len() > 0 {
        lemma_positions(all.drop_last(), kind);
        let before = positions_of(all.drop_last(), kind);
        let after = positions_of(all, kind);
        assert forall|i: int| 0 <= i < after.len() implies 0 <= #[trigger] after[i] < all.len()
            && all[after[i]].record_type@ == kind by {
            if i < before.len() {
                assert(after[i] == before[i]);
                assert(all.drop_last()[before[i]] == all[before[i]]);
            }
        }
    }
}

proof fn lemma_order(all: Seq<RemoteRecord>)
    ensures
        forall|i: int|
            0 <= i < order_of(all).len() ==> 0 <= #[trigger] order_of(all)[i] < all.len() && (
            all[order_of(all)[i]].record_type@ == "collection"@ || all[order_of(
                all,
            )[i]].record_type@ == "alias"@),
{
    lemma_positions(all, "collection"@);
    lemma_positions(all, "alias"@);
}

spec fn as_ints(v: Seq<usize>) -> Seq<int> {
    v.map_values(|i: usize| i as int)
}

/// Adds the places of the records of a type.
fn add_positions(order: &mut Vec<usize>, all: &Vec<RemoteRecord>, kind: &str)
    ensures
        as_ints(final(order)@) == as_ints(old(order)@) + positions_of(all@, kind@),
{
    let ghost start = as_ints(order@);
    assert(all@.take(0) =~= Seq::<RemoteRecord>::empty());
    assert(start + Seq::<int>::empty() =~= start);
    for i in 0..all.len()
        invariant
            start == as_ints(old(order)@),
            as_ints(order@) =~= start + positions_of(all@.take(i as int), kind@),
    {
        assert(all@.take(i + 1).drop_last() =~= all@.take(i as int));
        let ghost before = as_ints(order@);
        if same_text(all[i].record_type.as_str(), kind) {
            order.push(i);
            assert(as_ints(order@) =~= before.push(i as int));
        }
    }
    assert(all@.take(all@.len() as int) =~= all@);
}

// ---------------------------------------------------------------------------
// What comes next
// ---------------------------------------------------------------------------
/// The next record is decrypted, and its payload is to be read.
pub open spec fn is_record_action(s: SyncState, r: Result<SyncAction, AliazError>) -> bool {
    match crypto::opened_record(s.key, next_record(s).encrypted_blob@) {
        Err(f) => r matches Err(e) && e@ == f,
        Ok(plaintext) => if next_record(s).record_type@ == "collection"@ {
            r matches Ok(SyncAction::ParseCollection(bytes)) && bytes@ == plaintext
        } else {
            r matches Ok(SyncAction::ParseAlias(bytes)) && bytes@ == plaintext
        },
    }
}

/// How many records are to be sent.
pub open spec fn pending_count(s: SyncState) -> nat {
    s.pending_collections.len() + s.pending_aliases.len()
}

/// The next payload is to be written; where all are, the records are to be pushed; where there are
/// none, the session is over.
pub open spec fn is_upload_action(
    s: SyncState,
    config: SyncConfig,
    action: SyncAction,
    after: SyncState,
) -> bool {
    let n = s.uploads.len();
    if n < s.pending_collections.len() {
        &&& action matches SyncAction::EncodeCollection(payload)
        &&& records::describes_collection(payload, s.pending_collections[n as int])
        &&& after == s
    } else if n < pending_count(s) {
        &&& action matches SyncAction::EncodeAlias(payload)
        &&& records::describes_alias(
            payload,
            s.pending_aliases[n - s.pending_collections.len()],
        )
        &&& after == s
    } else if n > 0 {
        &&& action matches SyncAction::Push { url, token, records: sent }
        &&& url@ == account::push_url_of(config)
        &&& token@ == config.token@
        &&& sent@ == s.uploads
        &&& after == (SyncState { stage: Stage::Pushing, uploads: Seq::empty(), pushed: n, ..s })
    } else {
        &&& action matches SyncAction::Done(result)
        &&& result.pulled == s.pulled
        &&& result.pushed == 0
        &&& after == (SyncState { stage: Stage::Finished, pushed: 0, ..s })
    }
}

/// After a record was taken over: the next one is decrypted; where none is left, the version of
/// the server is noted, and what is still to be sent is written.
pub open spec fn advanced(
    s: SyncState,
    st: StoreState,
    config: SyncConfig,
    after: SyncState,
    config_after: SyncConfig,
    r: Result<SyncAction, AliazError>,
) -> bool {
    if s.position < order_of(s.records).len() {
        &&& after == s
        &&& config_after == config
        &&& is_record_action(s, r)
    } else {
        &&& config_after == (SyncConfig { latest_version: s.latest_version, ..config })
        &&& exists|pc: Seq<CollectionInfo>, pa: Seq<AliasInfo>|
            {
                &&& #[trigger] model::is_pending_collection_list(pc, st)
                &&& #[trigger] model::is_pending_alias_list(pa, st)
                &&& r matches Ok(action) && is_upload_action(
                    SyncState {
                        stage: Stage::Encoding,
                        pending_collections: pc,
                        pending_aliases: pa,
                        uploads: Seq::empty(),
                        ..s
                    },
                    config_after,
                    action,
                    after,
                )
            }
    }
}

/// What came was not what was asked for.
pub open spec fn unexpected(r: Result<SyncAction, AliazError>) -> bool {
    r matches Err(e) && e@ == Failure::UnexpectedEvent
}

/// The records after the version that was reached are to be pulled.
pub open spec fn begun(
    s: SyncState,
    config: SyncConfig,
    after: SyncState,
    r: Result<SyncAction, AliazError>,
) -> bool {
    &&& after == (SyncState { stage: Stage::Pulling, ..s })
    &&& r matches Ok(SyncAction::Pull { url, token }) && url@ == account::pull_url_of(config)
        && token@ == config.token@
}

/// The records that the server sent are to be taken over, from the first on.
pub open spec fn answered(s: SyncState, response: PullResponse) -> SyncState {
    SyncState {
        stage: Stage::Applying,
        records: response.records@,
        position: 0,
        latest_version: response.latest_version,
        pulled: 0,
        ..s
    }
}

/// All was sent: the version of the server is noted, and the session is over.
pub open spec fn finished(
    s: SyncState,
    config: SyncConfig,
    version: i64,
    after: SyncState,
    config_after: SyncConfig,
    r: Result<SyncAction, AliazError>,
) -> bool {
    &&& after == (SyncState { stage: Stage::Finished, ..s })
    &&& config_after == (SyncConfig { latest_version: version, ..config })
    &&& r matches Ok(SyncAction::Done(result)) && result.pulled == s.pulled && result.pushed
        == s.pushed
}

/// The record that is to be sent next.
pub open spec fn is_upload(s: SyncState, upload: UploadRecord, plaintext: Seq<u8>) -> bool {
    let n = s.uploads.len();
    let (id, kind, updated_at) = if n < s.pending_collections.len() {
        let c = s.pending_collections[n as int];
        (c.id, "collection"@, c.updated_at)
    } else {
        let a = s.pending_aliases[n - s.pending_collections.len()];
        (a.id, "alias"@, a.updated_at)
    };
    &&& upload.id@ == id
    &&& upload.record_type@ == kind
    &&& upload.updated_at == updated_at
    &&& crypto::opened_record(s.key, upload.encrypted_blob@) == Ok::<Seq<u8>, Failure>(plaintext)
    &&& exists|nonce: Seq<u8>| #[trigger]
        nonce.len() == 24 && upload.encrypted_blob@ == crypto::sealed_record(
            s.key,
            nonce,
            plaintext,
        )
}

/// One more record is ready to be sent.
pub open spec fn made_ready(s: SyncState, upload: UploadRecord) -> SyncState {
    SyncState { uploads: s.uploads.push(upload), ..s }
}

/// Notes the versions that the server gave: to a collection where a collection of that id was
/// sent, to an alias otherwise.
pub open spec fn all_marked(
    st: StoreState,
    pending: Seq<CollectionInfo>,
    pushed: Seq<PushedRecord>,
) -> StoreState
    decreases pushed.len(),
{
    if pushed.len() == 0 {
        st
    } else {
        let before = all_marked(st, pending, pushed.drop_last());
        let record = pushed.last();
        if exists|i: int| 0 <= i < pending.len() && (#[trigger] pending[i]).id == record.id@ {
            model::collection_synced(before, record.id@, record.version)
        } else {
            model::alias_synced(before, record.id@, record.version)
        }
    }
}

/// Whether a collection of the given id was sent.
fn was_sent(pending: &Vec<Collection>, id: &str) -> (r: bool)
    ensures
        r == exists|i: int|
            0 <= i < rows::recs(pending@).len() && (#[trigger] rows::recs(pending@)[i]).id == id@,
{
    let ghost all = rows::recs(pending@);
    for i in 0..pending.len()
        invariant
            all == rows::recs(pending@),
            forall|k: int| 0 <= k < i ==> (#[trigger] all[k]).id != id@,
    {
        assert(all[i as int] == pending@[i as int]@);
        if same_text(pending[i].id.as_str(), id) {
            return true;
        }
    }
    false
}

impl View for SyncSession {
    type V = SyncState;

    closed spec fn view(&self) -> SyncState {
        SyncState {
            key: self.key@,
            stage: self.stage,
            records: self.records@,
            position: self.position as nat,
            latest_version: self.latest_version,
            pulled: self.pulled as nat,
            pending_collections: rows::recs(self.pending_collections@),
            pending_aliases: rows::recs(self.pending_aliases@),
            uploads: self.uploads@,
            pushed: self.pushed as nat,
        }
    }
}

impl SyncSession {
    /// What holds of every session.
    pub closed spec fn wf(&self) -> bool {
        &&& as_ints(self.order@) == order_of(self.records@)
        &&& self.position <= self.order@.len()
        &&& self.pulled <= self.position
        &&& self.uploads@.len() <= self.pending_collections@.len() + self.pending_aliases@.len()
    }

    /// A session with the key that a recovery phrase stands for.
    pub fn new(recovery_phrase: &str) -> (r: Result<SyncSession, AliazError>)
        ensures
            if vstd::utf8::encode_utf8(recovery_phrase@).len() + 64 < HASH_LIMIT {
                r matches Ok(session) && session.wf() && session@ == (SyncState {
                    key: crypto::key_of(recovery_phrase@),
                    stage: Stage::New,
                    records: Seq::empty(),
                    position: 0,
                    latest_version: 0,
                    pulled: 0,
                    pending_collections: Seq::empty(),
                    pending_aliases: Seq::empty(),
                    uploads: Seq::empty(),
                    pushed: 0,
                })
            } else {
                r matches Err(e) && e@ == Failure::KeyDerivation
            },
    {
        let key = match derive_key(recovery_phrase) {
            Ok(key) => key,
            Err(e) => {
                return Err(e);
            },
        };
        let session = SyncSession {
            key,
            stage: Stage::New,
            records: Vec::new(),
            order: Vec::new(),
            position: 0,
            latest_version: 0,
            pulled: 0,
            pending_collections: Vec::new(),
            pending_aliases: Vec::new(),
            uploads: Vec::new(),
            pushed: 0,
        };
        assert(as_ints(session.order@) =~= order_of(session.records@));
        assert(session@.pending_collections =~= Seq::<CollectionInfo>::empty());
        assert(session@.pending_aliases =~= Seq::<AliasInfo>::empty());
        Ok(session)
    }

    /// Begins: the records after the version that was reached are to be pulled.
    pub fn begin(&mut self, config: &SyncConfig) -> (r: Result<SyncAction, AliazError>)
        requires
            old(self).wf(),
        ensures
            final(self).wf(),
            if old(self)@.stage == Stage::New {
                begun(old(self)@, *config, final(self)@, r)
            } else {
                &&& final(self)@ == old(self)@
                &&& unexpected(r)
            },
    {
        if self.stage != Stage::New {
            return Err(AliazError::UnexpectedEvent);
        }
        self.stage = Stage::Pulling;
        Ok(SyncAction::Pull { url: pull_url(config), token: config.token.clone() })
    }

    fn next_upload(&mut self, config: &SyncConfig) -> (action: SyncAction)
        requires
            old(self).wf(),
            old(self)@.stage == Stage::Encoding,
        ensures
            final(self).wf(),
            is_upload_action(old(self)@, *config, action, final(self)@),
    {
        let n: usize = self.uploads.len();
        let collections: usize = self.pending_collections.len();
        if n < collections {
            return SyncAction::EncodeCollection(
                payload_of_collection(&self.pending_collections[n]),
            );
        }
        if n - collections < self.pending_aliases.len() {
            return SyncAction::EncodeAlias(payload_of_alias(&self.pending_aliases[n - collections]));
        }
        self.pushed = n;
        if n > 0 {
            let mut sent: Vec<UploadRecord> = Vec::new();
            std::mem::swap(&mut sent, &mut self.uploads);
            self.stage = Stage::Pushing;
            return SyncAction::Push { url: push_url(config), token: config.token.clone(), records: sent };
        }
        self.stage = Stage::Finished;
        SyncAction::Done(SyncResult { pulled: self.pulled, pushed: 0 })
    }

    fn advance(&mut self, store: &Store, config: &mut SyncConfig) -> (r: Result<
        SyncAction,
        AliazError,
    >)
        requires
            old(self).wf(),
            old(self)@.stage == Stage::Applying,
            store.wf(),
        ensures
            final(self).wf(),
            advanced(old(self)@, store@, *old(config), final(self)@, *final(config), r),
    {
        proof {
            lemma_order(self.records@);
        }
        if self.position < self.order.len() {
            proof {
                assert(as_ints(self.order@)[self.position as int]
                    == self.order@[self.position as int]);
            }
            let record = &self.records[self.order[self.position]];
            return match decrypt_record(&self.key, record.encrypted_blob.as_str()) {
                Ok(plaintext) => {
                    if same_text(record.record_type.as_str(), "collection") {
                        Ok(SyncAction::ParseCollection(plaintext))
                    } else {
                        Ok(SyncAction::ParseAlias(plaintext))
                    }
                },
                Err(e) => Err(e),
            };
        }
        config.latest_version = self.latest_version;
        let ghost before = self@;
        self.pending_collections = store.pending_collections();
        self.pending_aliases = store.pending_aliases();
        self.uploads = Vec::new();
        self.stage = Stage::Encoding;
        let ghost ready = self@;
        assert(ready == (SyncState {
            stage: Stage::Encoding,
            pending_collections: rows::recs(self.pending_collections@),
            pending_aliases: rows::recs(self.pending_aliases@),
            uploads: Seq::empty(),
            ..before
        }));
        let action = self.next_upload(config);
        assert(model::is_pending_collection_list(ready.pending_collections, store@));
        assert(model::is_pending_alias_list(ready.pending_aliases, store@));
        Ok(action)
    }

    /// The server answered to the request for records.
    pub fn pulled(
        &mut self,
        response: PullResponse,
        store: &Store,
        config: &mut SyncConfig,
    ) -> (r: Result<SyncAction, AliazError>)
        requires
            old(self).wf(),
            store.wf(),
        ensures
            final(self).wf(),
            if old(self)@.stage == Stage::Pulling {
                advanced(
                    answered(old(self)@, response),
                    store@,
                    *old(config),
                    final(self)@,
                    *final(config),
                    r,
                )
            } else {
                &&& final(self)@ == old(self)@
                &&& *final(config) == *old(config)
                &&& unexpected(r)
            },
    {
        if self.stage != Stage::Pulling {
            return Err(AliazError::UnexpectedEvent);
        }
        let mut order: Vec<usize> = Vec::new();
        assert(as_ints(order@) =~= Seq::<int>::empty());
        add_positions(&mut order, &response.records, "collection");
        add_positions(&mut order, &response.records, "alias");
        assert(as_ints(order@) =~= order_of(response.records@));
        self.order = order;
        self.position = 0;
        self.pulled = 0;
        self.latest_version = response.latest_version;
        self.records = response.records;
        self.stage = Stage::Applying;
        self.advance(store, config)
    }
}

/// A record of the given type is next.
pub open spec fn awaits(s: SyncState, kind: Seq<char>) -> bool {
    s.stage == Stage::Applying && s.position < order_of(s.records).len() && next_record(
        s,
    ).record_type@ == kind
}

/// One more record was gone through, and taken over or not.
pub open spec fn gone_through(s: SyncState, taken_over: bool) -> SyncState {
    SyncState {
        position: s.position + 1,
        pulled: if taken_over {
            s.pulled + 1
        } else {
            s.pulled
        },
        ..s
    }
}

/// After an attempt to take a record over.
pub open spec fn after_attempt(
    s: SyncState,
    attempt: (StoreState, Result<bool, Failure>),
    config: SyncConfig,
    after: SyncState,
    st_after: StoreState,
    config_after: SyncConfig,
    r: Result<SyncAction, AliazError>,
) -> bool {
    &&& st_after == attempt.0
    &&& match attempt.1 {
        Err(f) => {
            &&& r matches Err(e) && e@ == f
            &&& after == s
            &&& config_after == config
        },
        Ok(taken_over) => advanced(
            gone_through(s, taken_over),
            st_after,
            config,
            after,
            config_after,
            r,
        ),
    }
}

impl SyncSession {
    /// The index of the record that is next, where it is of the given type.
    fn awaited(&self, kind: &str) -> (r: Option<usize>)
        requires
            self.wf(),
        ensures
            match r {
                Some(i) => awaits(self@, kind@) && i < self.records@.len() && self.records@[i as int]
                    == next_record(self@),
                None => !awaits(self@, kind@),
            },
    {
        if self.stage != Stage::Applying || self.position >= self.order.len() {
            return None;
        }
        proof {
            lemma_order(self.records@);
            assert(as_ints(self.order@)[self.position as int] == self.order@[self.position as int]);
        }
        let i: usize = self.order[self.position];
        if same_text(self.records[i].record_type.as_str(), kind) {
            Some(i)
        } else {
            None
        }
    }

    fn count(&mut self, taken_over: bool)
        requires
            old(self).wf(),
            old(self)@.position < order_of(old(self)@.records).len(),
        ensures
            final(self).wf(),
            final(self)@ == gone_through(old(self)@, taken_over),
    {
        let total: usize = self.order.len();
        assert(as_ints(self.order@).len() == total);
        if taken_over {
            self.pulled = self.pulled + 1;
        }
        self.position = self.position + 1;
    }

    /// The payload of a collection was read: it is taken over.
    pub fn parsed_collection(
        &mut self,
        payload: &CollectionPayload,
        store: &mut Store,
        config: &mut SyncConfig,
        clock: &Clock,
    ) -> (r: Result<SyncAction, AliazError>)
        requires
            old(self).wf(),
            old(store).wf(),
        ensures
            final(self).wf(),
            final(store).wf(),
            if awaits(old(self)@, "collection"@) {
                after_attempt(
                    old(self)@,
                    model::remote_collection_applied(
                        old(store)@,
                        records::remote_collection(next_record(old(self)@), *payload),
                        clock::time_of(*clock),
                    ),
                    *old(config),
                    final(self)@,
                    final(store)@,
                    *final(config),
                    r,
                )
            } else {
                &&& final(self)@ == old(self)@
                &&& final(store)@ == old(store)@
                &&& *final(config) == *old(config)
                &&& unexpected(r)
            },
    {
        let i = match self.awaited("collection") {
            Some(i) => i,
            None => {
                return Err(AliazError::UnexpectedEvent);
            },
        };
        match store.apply_remote_collection(&self.records[i], payload, clock) {
            Ok(taken_over) => {
                self.count(taken_over);
                self.advance(store, config)
            },
            Err(e) => Err(e),
        }
    }

    /// The payload of an alias was read: it is taken over. A local change that it replaces is
    /// backed up under the given id.
    pub fn parsed_alias_with_backup_id(
        &mut self,
        payload: &AliasPayload,
        backup_id: String,
        store: &mut Store,
        config: &mut SyncConfig,
        clock: &Clock,
    ) -> (r: Result<SyncAction, AliazError>)
        requires
            old(self).wf(),
            old(store).wf(),
        ensures
            final(self).wf(),
            final(store).wf(),
            if awaits(old(self)@, "alias"@) {
                after_attempt(
                    old(self)@,
                    model::remote_alias_applied(
                        old(store)@,
                        records::remote_alias(next_record(old(self)@), *payload),
                        backup_id@,
                        clock::time_of(*clock),
                    ),
                    *old(config),
                    final(self)@,
                    final(store)@,
                    *final(config),
                    r,
                )
            } else {
                &&& final(self)@ == old(self)@
                &&& final(store)@ == old(store)@
                &&& *final(config) == *old(config)
                &&& unexpected(r)
            },
    {
        let i = match self.awaited("alias") {
            Some(i) => i,
            None => {
                return Err(AliazError::UnexpectedEvent);
            },
        };
        match store.apply_remote_alias_with_backup_id(&self.records[i], payload, backup_id, clock) {
            Ok(taken_over) => {
                self.count(taken_over);
                self.advance(store, config)
            },
            Err(e) => Err(e),
        }
    }

    /// The payload of an alias was read: it is taken over. A local change that it replaces is
    /// backed up under a random id.
    pub fn parsed_alias(
        &mut self,
        payload: &AliasPayload,
        store: &mut Store,
        config: &mut SyncConfig,
        clock: &Clock,
    ) -> (r: Result<SyncAction, AliazError>)
        requires
            old(self).wf(),
            old(store).wf(),
        ensures
            final(self).wf(),
            final(store).wf(),
            if awaits(old(self)@, "alias"@) {
                exists|id: Seq<char>|
                    #![trigger outside::is_random_uuid(id)]
                    outside::is_random_uuid(id) && after_attempt(
                        old(self)@,
                        model::remote_alias_applied(
                            old(store)@,
                            records::remote_alias(next_record(old(self)@), *payload),
                            id,
                            clock::time_of(*clock),
                        ),
                        *old(config),
                        final(self)@,
                        final(store)@,
                        *final(config),
                        r,
                    )
            } else {
                &&& final(self)@ == old(self)@
                &&& final(store)@ == old(store)@
                &&& *final(config) == *old(config)
                &&& unexpected(r)
            },
    {
        let id = random_uuid();
        self.parsed_alias_with_backup_id(payload, id, store, config, clock)
    }

    /// A payload was written as bytes: it is encrypted, and made ready to be sent.
    pub fn encoded(&mut self, plaintext: &Vec<u8>, config: &SyncConfig) -> (r: Result<
        SyncAction,
        AliazError,
    >)
        requires
            old(self).wf(),
        ensures
            final(self).wf(),
            if old(self)@.stage != Stage::Encoding || old(self)@.uploads.len() >= pending_count(
                old(self)@,
            ) {
                &&& final(self)@ == old(self)@
                &&& unexpected(r)
            } else if !crypto::can_be_sealed(plaintext@) {
                &&& final(self)@ == old(self)@
                &&& r matches Err(e) && e@ == Failure::EncryptionFailed
            } else {
                exists|upload: UploadRecord| #[trigger]
                    is_upload(old(self)@, upload, plaintext@) && (r matches Ok(action)
                        && is_upload_action(
                        made_ready(old(self)@, upload),
                        *config,
                        action,
                        final(self)@,
                    ))
            },
    {
        let n: usize = self.uploads.len();
        let collections: usize = self.pending_collections.len();
        if self.stage != Stage::Encoding || (n >= collections && n - collections
            >= self.pending_aliases.len()) {
            return Err(AliazError::UnexpectedEvent);
        }
        let encrypted_blob = match encrypt_record(&self.key, plaintext.as_slice()) {
            Ok(blob) => blob,
            Err(e) => {
                return Err(e);
            },
        };
        let upload = if n < collections {
            let collection = &self.pending_collections[n];
            UploadRecord {
                id: collection.id.clone(),
                record_type: "collection".to_owned(),
                encrypted_blob,
                updated_at: collection.updated_at,
            }
        } else {
            let alias = &self.pending_aliases[n - collections];
            UploadRecord {
                id: alias.id.clone(),
                record_type: "alias".to_owned(),
                encrypted_blob,
                updated_at: alias.updated_at,
            }
        };
        assert(is_upload(self@, upload, plaintext@));
        self.uploads.push(upload);
        Ok(self.next_upload(config))
    }

    /// The server answered to the records that were sent: their versions are noted.
    pub fn pushed(
        &mut self,
        response: &PushResponse,
        store: &mut Store,
        config: &mut SyncConfig,
    ) -> (r: Result<SyncAction, AliazError>)
        requires
            old(self).wf(),
            old(store).wf(),
        ensures
            final(self).wf(),
            final(store).wf(),
            if old(self)@.stage == Stage::Pushing {
                &&& final(store)@ == all_marked(
                    old(store)@,
                    old(self)@.pending_collections,
                    response.records@,
                )
                &&& finished(
                    old(self)@,
                    *old(config),
                    response.latest_version,
                    final(self)@,
                    *final(config),
                    r,
                )
            } else {
                &&& final(self)@ == old(self)@
                &&& final(store)@ == old(store)@
                &&& *final(config) == *old(config)
                &&& unexpected(r)
            },
    {
        if self.stage != Stage::Pushing {
            return Err(AliazError::UnexpectedEvent);
        }
        let ghost start = store@;
        let ghost pending = rows::recs(self.pending_collections@);
        assert(response.records@.take(0) =~= Seq::<PushedRecord>::empty());
        for i in 0..response.records.len()
            invariant
                store.wf(),
                start == old(store)@,
                pending == rows::recs(self.pending_collections@),
                store@ == all_marked(start, pending, response.records@.take(i as int)),
        {
            assert(response.records@.take(i + 1).drop_last() =~= response.records@.take(i as int));
            let record = &response.records[i];
            if was_sent(&self.pending_collections, record.id.as_str()) {
                store.mark_collection_synced(record.id.as_str(), record.version);
            } else {
                store.mark_alias_synced(record.id.as_str(), record.version);
            }
        }
        assert(response.records@.take(response.records@.len() as int) =~= response.records@);
        config.latest_version = response.latest_version;
        self.stage = Stage::Finished;
        Ok(SyncAction::Done(SyncResult { pulled: self.pulled, pushed: self.pushed }))
    }
}

// ---------------------------------------------------------------------------
// What a session comes to
// ---------------------------------------------------------------------------
spec fn acknowledged(pushed: Seq<PushedRecord>, id: Seq<char>) -> bool {
    exists|i: int| 0 <= i < pushed.len() && (#[trigger] pushed[i]).id@ == id
}

proof fn lemma_marked(
    st: StoreState,
    pending: Seq<CollectionInfo>,
    pushed: Seq<PushedRecord>,
)
    requires
        model::consistent(st),
        model::is_pending_collection_list(pending, st),
    ensures
        model::consistent(all_marked(st, pending, pushed)),
        all_marked(st, pending, pushed).collections.dom() == st.collections.dom(),
        all_marked(st, pending, pushed).aliases.dom() == st.aliases.dom(),
        forall|id: Seq<char>| #[trigger]
            model::dirty_ids(all_marked(st, pending, pushed)).contains(id)
                <==> model::dirty_ids(st).contains(id) && !acknowledged(pushed, id),
        forall|k: AliasKey| #[trigger]
            model::dirty_keys(all_marked(st, pending, pushed)).contains(k)
                ==> model::dirty_keys(st).contains(k) && (!acknowledged(pushed, st.aliases[k].id)
                || model::dirty_ids(st).contains(st.aliases[k].id)),
        forall|k: AliasKey| #[trigger]
            st.aliases.contains_key(k) ==> all_marked(st, pending, pushed).aliases[k].id
                == st.aliases[k].id,
    decreases pushed.len(),
{
    if pushed.len() > 0 {
        let before = pushed.drop_last();
        lemma_marked(st, pending, before);
        let mid = all_marked(st, pending, before);
        let record = pushed.last();
        let after = all_marked(st, pending, pushed);
        let id = record.id@;
        let n = pushed.len() - 1;
        laws::law_synced_keeps_order(mid, id, record.version);
        laws::law_synced_is_not_pending(mid, id, record.version);
        let collection = exists|i: int|
            0 <= i < pending.len() && (#[trigger] pending[i]).id == record.id@;
        assert(collection == model::dirty_ids(st).contains(id)) by {
            if collection {
                let i = choose|i: int|
                    0 <= i < pending.len() && (#[trigger] pending[i]).id == record.id@;
                assert(model::dirty_ids(st).contains(pending[i].id));
            }
            if model::dirty_ids(st).contains(id) {
                let info = model::collection_info(st, id);
                assert(pending.contains(info));
                let i = pending.index_of(info);
                assert(pending[i] == info);
                assert(pending[i].id == id);
            }
        }
        assert forall|other: Seq<char>| #[trigger] acknowledged(pushed, other) == (acknowledged(
            before,
            other,
        ) || other == id) by {
            if acknowledged(pushed, other) {
                let i = choose|i: int| 0 <= i < pushed.len() && (#[trigger] pushed[i]).id@ == other;
                if i < n {
                    assert(before[i].id@ == other);
                }
            }
            if acknowledged(before, other) {
                let i = choose|i: int| 0 <= i < before.len() && (#[trigger] before[i]).id@ == other;
                assert(pushed[i].id@ == other);
            }
            if other == id {
                assert(pushed[n].id@ == other);
            }
        }
        if collection {
            assert(mid.collections.dom().contains(id) == st.collections.dom().contains(id));
            assert(after.collections.dom() =~= st.collections.dom());
            assert forall|k: AliasKey| #[trigger] model::dirty_keys(after).contains(k) implies
                model::dirty_keys(st).contains(k) && (!acknowledged(pushed, st.aliases[k].id)
                || model::dirty_ids(st).contains(st.aliases[k].id)) by {
                assert(model::dirty_keys(mid).contains(k));
                assert(acknowledged(pushed, st.aliases[k].id) == (acknowledged(
                    before,
                    st.aliases[k].id,
                ) || st.aliases[k].id == id));
            }
            assert forall|other: Seq<char>| #[trigger] model::dirty_ids(after).contains(other)
                <==> model::dirty_ids(st).contains(other) && !acknowledged(pushed, other) by {
                assert(model::dirty_ids(mid).contains(other) == (model::dirty_ids(st).contains(
                    other,
                ) && !acknowledged(before, other)));
                assert(acknowledged(pushed, other) == (acknowledged(before, other) || other
                    == id));
            }
        } else {
            assert(after.aliases.dom() =~= st.aliases.dom());
            assert forall|k: AliasKey| #[trigger] model::dirty_keys(after).contains(k) implies
                model::dirty_keys(st).contains(k) && (!acknowledged(pushed, st.aliases[k].id)
                || model::dirty_ids(st).contains(st.aliases[k].id)) by {
                assert(model::dirty_keys(mid).contains(k) && mid.aliases[k].id != id);
                assert(st.aliases.dom().contains(k));
                assert(st.aliases.contains_key(k));
                assert(acknowledged(pushed, st.aliases[k].id) == (acknowledged(
                    before,
                    st.aliases[k].id,
                ) || st.aliases[k].id == id));
            }
            assert forall|other: Seq<char>| #[trigger] model::dirty_ids(after).contains(other)
                <==> model::dirty_ids(st).contains(other) && !acknowledged(pushed, other) by {
                assert(model::dirty_ids(mid).contains(other) == (model::dirty_ids(st).contains(
                    other,
                ) && !acknowledged(before, other)));
                assert(acknowledged(pushed, other) == (acknowledged(before, other) || other
                    == id));
            }
        }
        assert forall|k: AliasKey| #[trigger] st.aliases.contains_key(k) implies after.aliases[k].id
            == st.aliases[k].id by {
            assert(mid.aliases.dom().contains(k));
        }
    }
}

/// When the server has acknowledged all that was sent, nothing is left to be sent. An alias with
/// the id of a collection that was sent is left out: the server cannot tell them apart.
pub proof fn law_acknowledged_is_not_pending(
    st: StoreState,
    pending: Seq<CollectionInfo>,
    pushed: Seq<PushedRecord>,
)
    requires
        model::consistent(st),
        model::is_pending_collection_list(pending, st),
        forall|id: Seq<char>| #[trigger]
            model::dirty_ids(st).contains(id) ==> exists|i: int|
                0 <= i < pushed.len() && (#[trigger] pushed[i]).id@ == id,
        forall|k: AliasKey| #[trigger]
            model::pending_keys(st).contains(k) ==> !model::dirty_ids(st).contains(
                st.aliases[k].id,
            ) && exists|i: int|
                0 <= i < pushed.len() && (#[trigger] pushed[i]).id@ == st.aliases[k].id,
    ensures
        model::dirty_ids(all_marked(st, pending, pushed)) == Set::<Seq<char>>::empty(),
        model::pending_keys(all_marked(st, pending, pushed)) == Set::<AliasKey>::empty(),
{
    lemma_marked(st, pending, pushed);
    let after = all_marked(st, pending, pushed);
    assert forall|id: Seq<char>| !model::dirty_ids(after).contains(id) by {
        if model::dirty_ids(after).contains(id) {
            assert(model::dirty_ids(st).contains(id));
            assert(acknowledged(pushed, id));
        }
    }
    assert forall|k: AliasKey| !model::pending_keys(after).contains(k) by {
        if model::pending_keys(after).contains(k) {
            assert(model::dirty_keys(after).contains(k));
            assert(after.collections.dom().contains(k.0));
            assert(model::pending_keys(st).contains(k));
            assert(acknowledged(pushed, st.aliases[k].id));
        }
    }
    assert(model::dirty_ids(after) =~= Set::<Seq<char>>::empty());
    assert(model::pending_keys(after) =~= Set::<AliasKey>::empty());
}

/// A session with the same recovery phrase reads from a record that was sent the bytes that were
/// written for it.
pub proof fn law_sent_record_is_read(
    sender: SyncState,
    upload: UploadRecord,
    plaintext: Seq<u8>,
    reader: SyncState,
    r: Result<SyncAction, AliazError>,
)
    requires
        is_upload(sender, upload, plaintext),
        reader.key == sender.key,
        next_record(reader).encrypted_blob@ == upload.encrypted_blob@,
        is_record_action(reader, r),
    ensures
        r matches Ok(action) && match action {
            SyncAction::ParseCollection(bytes) => bytes@ == plaintext,
            SyncAction::ParseAlias(bytes) => bytes@ == plaintext,
            _ => false,
        },
{
}

/// An alias that another computer takes over from what was sent for it is the same alias there.
pub proof fn law_sent_alias_arrives(
    a: AliasInfo,
    payload: AliasPayload,
    record: RemoteRecord,
    st: StoreState,
    backup_id: Seq<char>,
    now: Option<i64>,
)
    requires
        records::describes_alias(payload, a),
        record.id@ == a.id,
        model::consistent(st),
        model::remote_alias_applied(
            st,
            records::remote_alias(record, payload),
            backup_id,
            now,
        ).1 == Ok::<bool, Failure>(true),
    ensures
        ({
            let after = model::remote_alias_applied(
                st,
                records::remote_alias(record, payload),
                backup_id,
                now,
            ).0;
            let named = model::collection_named(after, a.collection_name);
            let there = after.aliases[(named->Ok_0, a.name)];
            &&& named is Ok
            &&& after.aliases.contains_key((named->Ok_0, a.name))
            &&& there.id == a.id
            &&& there.command == a.command
            &&& there.deleted == a.deleted
            &&& there.updated_at == a.updated_at
            &&& !there.dirty
        }),
{
    laws::law_taken_over_is_there(st, records::remote_alias(record, payload), backup_id, now);
}

// ---------------------------------------------------------------------------
// The steps of a session
// ---------------------------------------------------------------------------
proof fn lemma_positions_are(all: Seq<RemoteRecord>, kind: Seq<char>)
    ensures
        forall|i: int|
            0 <= i < all.len() && (#[trigger] all[i]).record_type@ == kind ==> positions_of(
                all,
                kind,
            ).contains(i),
        forall|m: int, n: int|
            0 <= m < n < positions_of(all, kind).len() ==> #[trigger] positions_of(all, kind)[m]
                < #[trigger] positions_of(all, kind)[n],
    decreases all.len(),
{
    if all.len() > 0 {
        let rest = all.drop_last();
        lemma_positions_are(rest, kind);
        lemma_positions(rest, kind);
        let before = positions_of(rest, kind);
        let after = positions_of(all, kind);
        assert forall|i: int| 0 <= i < all.len() && (#[trigger] all[i]).record_type@
            == kind implies after.contains(i) by {
            if i < rest.len() {
                assert(rest[i] == all[i]);
                let n = before.index_of(i);
                assert(after[n] == before[n]);
            } else {
                assert(after[after.len() - 1] == i);
            }
        }
        assert forall|m: int, n: int| 0 <= m < n < after.len() implies #[trigger] after[m]
            < #[trigger] after[n] by {
            assert(after[m] == before[m]);
            if n < before.len() {
                assert(after[n] == before[n]);
            }
        }
    }
}

/// Every collection and every alias that was pulled is gone through once, and nothing else is: all
/// collections before any alias, and each type in the order in which it came.
pub proof fn law_order(all: Seq<RemoteRecord>)
    ensures
        forall|i: int|
            0 <= i < all.len() ==> (order_of(all).contains(i) <==> (
            #[trigger] all[i]).record_type@ == "collection"@ || all[i].record_type@ == "alias"@),
        forall|n: int| 0 <= n < order_of(all).len() ==> 0 <= #[trigger] order_of(all)[n] < all.len(),
        forall|m: int, n: int|
            0 <= m < n < order_of(all).len() ==> {
                let first = all[#[trigger] order_of(all)[m]].record_type@;
                let second = all[#[trigger] order_of(all)[n]].record_type@;
                &&& first == second ==> order_of(all)[m] < order_of(all)[n]
                &&& first != second ==> first == "collection"@ && second == "alias"@
            },
{
    let a = positions_of(all, "collection"@);
    let b = positions_of(all, "alias"@);
    let order = order_of(all);
    reveal_strlit("collection");
    reveal_strlit("alias");
    assert("collection"@ != "alias"@) by {
        assert("collection"@.len() != "alias"@.len());
    }
    lemma_positions(all, "collection"@);
    lemma_positions(all, "alias"@);
    lemma_positions_are(all, "collection"@);
    lemma_positions_are(all, "alias"@);
    assert forall|n: int| 0 <= n < order.len() implies 0 <= #[trigger] order[n] < all.len() && (
    n < a.len() ==> all[order[n]].record_type@ == "collection"@) && (n >= a.len()
        ==> all[order[n]].record_type@ == "alias"@) by {
        if n < a.len() {
            assert(order[n] == a[n]);
        } else {
            assert(order[n] == b[n - a.len()]);
        }
    }
    assert forall|i: int| 0 <= i < all.len() implies (order.contains(i) <==> (
    #[trigger] all[i]).record_type@ == "collection"@ || all[i].record_type@ == "alias"@) by {
        if order.contains(i) {
            let n = order.index_of(i);
            assert(order[n] == i);
        }
        if a.contains(i) {
            let n = a.index_of(i);
            assert(order[n] == i);
        }
        if b.contains(i) {
            let n = b.index_of(i);
            assert(order[a.len() + n] == i);
        }
    }
    assert forall|m: int, n: int| 0 <= m < n < order.len() implies {
        let first = all[#[trigger] order[m]].record_type@;
        let second = all[#[trigger] order[n]].record_type@;
        &&& first == second ==> order[m] < order[n]
        &&& first != second ==> first == "collection"@ && second == "alias"@
    } by {
        if n < a.len() {
            assert(order[m] == a[m] && order[n] == a[n]);
        } else if m >= a.len() {
            assert(order[m] == b[m - a.len()] && order[n] == b[n - a.len()]);
        }
    }
}

/// The next record is read as what its type says, if it can be decrypted with the session's key.
pub proof fn law_next_record_is_read(s: SyncState, i: int, r: Result<SyncAction, AliazError>)
    requires
        s.position < order_of(s.records).len(),
        order_of(s.records)[s.position as int] == i,
        is_record_action(s, r),
    ensures
        ({
            let opened = crypto::opened_record(s.key, s.records[i].encrypted_blob@);
            let collection = s.records[i].record_type@ == "collection"@;
            &&& r is Ok <==> opened is Ok
            &&& r matches Err(e) ==> e@ == opened->Err_0
            &&& r is Ok && collection ==> r->Ok_0 is ParseCollection
                && r->Ok_0->ParseCollection_0@ == opened->Ok_0
            &&& r is Ok && !collection ==> r->Ok_0 is ParseAlias && r->Ok_0->ParseAlias_0@
                == opened->Ok_0
        }),
{
}

/// A record counts as pulled if and only if it was taken over. Where taking it over failed, the
/// session stays as it is; otherwise it goes on with the next record, and the records, the key and
/// the version of the server stay.
pub proof fn law_records_are_counted(
    s: SyncState,
    attempt: (StoreState, Result<bool, Failure>),
    config: SyncConfig,
    after: SyncState,
    st_after: StoreState,
    config_after: SyncConfig,
    r: Result<SyncAction, AliazError>,
)
    requires
        after_attempt(s, attempt, config, after, st_after, config_after, r),
    ensures
        st_after == attempt.0,
        attempt.1 matches Err(f) ==> after == s && config_after == config && (r matches Err(e)
            && e@ == f),
        attempt.1 == Ok::<bool, Failure>(true) ==> after.pulled == s.pulled + 1,
        attempt.1 == Ok::<bool, Failure>(false) ==> after.pulled == s.pulled,
        attempt.1 is Ok ==> {
            &&& after.position == s.position + 1
            &&& after.records == s.records
            &&& after.key == s.key
            &&& after.latest_version == s.latest_version
        },
{
}

/// While records are left, nothing is sent and the version that was reached stays.
pub proof fn law_records_come_first(
    s: SyncState,
    st: StoreState,
    config: SyncConfig,
    after: SyncState,
    config_after: SyncConfig,
    r: Result<SyncAction, AliazError>,
)
    requires
        s.position < order_of(s.records).len(),
        advanced(s, st, config, after, config_after, r),
    ensures
        after == s,
        config_after == config,
        r is Err || r->Ok_0 is ParseCollection || r->Ok_0 is ParseAlias,
{
}

/// Once all records were gone through, the version of the server is noted and nothing else of the
/// configuration changes. Where no record is marked as changed, the session is over.
pub proof fn law_nothing_to_send(
    s: SyncState,
    st: StoreState,
    config: SyncConfig,
    after: SyncState,
    config_after: SyncConfig,
    r: Result<SyncAction, AliazError>,
)
    requires
        model::consistent(st),
        s.position >= order_of(s.records).len(),
        advanced(s, st, config, after, config_after, r),
        forall|id: Seq<char>| #[trigger]
            st.collections.contains_key(id) ==> !st.collections[id].dirty,
        forall|k: AliasKey| #[trigger]
            st.aliases.contains_key(k) && st.collections.contains_key(k.0) ==> !st.aliases[k].dirty,
    ensures
        config_after.latest_version == s.latest_version,
        config_after.sync_url == config.sync_url,
        config_after.username == config.username,
        config_after.user_id == config.user_id,
        config_after.token == config.token,
        r is Ok,
        r->Ok_0 is Done,
        r->Ok_0->Done_0.pulled == s.pulled,
        r->Ok_0->Done_0.pushed == 0,
        after.stage == Stage::Finished,
        after.pulled == s.pulled,
{
    let (pc, pa) = choose|pc: Seq<CollectionInfo>, pa: Seq<AliasInfo>|
        {
            &&& #[trigger] model::is_pending_collection_list(pc, st)
            &&& #[trigger] model::is_pending_alias_list(pa, st)
            &&& r matches Ok(action) && is_upload_action(
                SyncState {
                    stage: Stage::Encoding,
                    pending_collections: pc,
                    pending_aliases: pa,
                    uploads: Seq::empty(),
                    ..s
                },
                config_after,
                action,
                after,
            )
        };
    effects::law_pending_collection_list(pc, st);
    effects::law_pending_list(pa, st);
    if pc.len() > 0 {
        assert(effects::shows_collection(st, pc[0]));
    }
    if pa.len() > 0 {
        assert(effects::shows(st, pa[0]));
    }
}

/// Where a record is marked as changed, the session goes on to send: it has every collection and
/// every alias that waits, and none is written yet. The version of the server is noted here too.
pub proof fn law_something_to_send(
    s: SyncState,
    st: StoreState,
    config: SyncConfig,
    after: SyncState,
    config_after: SyncConfig,
    r: Result<SyncAction, AliazError>,
)
    requires
        model::consistent(st),
        s.position >= order_of(s.records).len(),
        advanced(s, st, config, after, config_after, r),
        (exists|id: Seq<char>| #[trigger]
            st.collections.contains_key(id) && st.collections[id].dirty) || (exists|k: AliasKey|
         #[trigger]
            st.aliases.contains_key(k) && st.collections.contains_key(k.0) && st.aliases[k].dirty),
    ensures
        config_after.latest_version == s.latest_version,
        config_after.sync_url == config.sync_url,
        config_after.username == config.username,
        config_after.user_id == config.user_id,
        config_after.token == config.token,
        after.stage == Stage::Encoding,
        after.uploads.len() == 0,
        after.pulled == s.pulled,
        after.key == s.key,
        model::is_pending_collection_list(after.pending_collections, st),
        model::is_pending_alias_list(after.pending_aliases, st),
        r is Ok,
        after.pending_collections.len() > 0 ==> r->Ok_0 is EncodeCollection
            && r->Ok_0->EncodeCollection_0.name@ == after.pending_collections[0].name,
        after.pending_collections.len() == 0 ==> r->Ok_0 is EncodeAlias
            && r->Ok_0->EncodeAlias_0.name@ == after.pending_aliases[0].name,
{
    let (pc, pa) = choose|pc: Seq<CollectionInfo>, pa: Seq<AliasInfo>|
        {
            &&& #[trigger] model::is_pending_collection_list(pc, st)
            &&& #[trigger] model::is_pending_alias_list(pa, st)
            &&& r matches Ok(action) && is_upload_action(
                SyncState {
                    stage: Stage::Encoding,
                    pending_collections: pc,
                    pending_aliases: pa,
                    uploads: Seq::empty(),
                    ..s
                },
                config_after,
                action,
                after,
            )
        };
    effects::law_pending_collection_list(pc, st);
    effects::law_pending_list(pa, st);
    if exists|id: Seq<char>| #[trigger]
        st.collections.contains_key(id) && st.collections[id].dirty {
        let id = choose|id: Seq<char>| #[trigger]
            st.collections.contains_key(id) && st.collections[id].dirty;
        assert(effects::lists_collection(pc, id));
    } else {
        let k = choose|k: AliasKey| #[trigger]
            st.aliases.contains_key(k) && st.collections.contains_key(k.0) && st.aliases[k].dirty;
        assert(effects::lists(pa, k));
    }
}

/// The payloads are written one after the other, those of the collections first; each says what its
/// record is.
pub proof fn law_payloads_in_turn(
    s: SyncState,
    config: SyncConfig,
    action: SyncAction,
    after: SyncState,
)
    requires
        is_upload_action(s, config, action, after),
        s.uploads.len() < s.pending_collections.len() + s.pending_aliases.len(),
    ensures
        after == s,
        ({
            let n = s.uploads.len();
            if n < s.pending_collections.len() {
                let c = s.pending_collections[n as int];
                &&& action is EncodeCollection
                &&& action->EncodeCollection_0.name@ == c.name
                &&& action->EncodeCollection_0.deleted == c.deleted
                &&& action->EncodeCollection_0.updated_at == c.updated_at
            } else {
                let a = s.pending_aliases[n - s.pending_collections.len()];
                &&& action is EncodeAlias
                &&& action->EncodeAlias_0.collection_id@ == a.collection_id
                &&& action->EncodeAlias_0.collection_name@ == a.collection_name
                &&& action->EncodeAlias_0.name@ == a.name
                &&& action->EncodeAlias_0.command@ == a.command
                &&& action->EncodeAlias_0.deleted == a.deleted
                &&& action->EncodeAlias_0.updated_at == a.updated_at
            }
        }),
{
}

/// Once every payload was written, all that was made ready is sent, and as many count as sent.
pub proof fn law_all_is_pushed(
    s: SyncState,
    config: SyncConfig,
    action: SyncAction,
    after: SyncState,
)
    requires
        is_upload_action(s, config, action, after),
        s.uploads.len() == s.pending_collections.len() + s.pending_aliases.len(),
        s.uploads.len() > 0,
    ensures
        action is Push,
        action->records@ == s.uploads,
        action->Push_url@ == account::push_url_of(config),
        action->Push_token@ == config.token@,
        after.stage == Stage::Pushing,
        after.pushed == s.pending_collections.len() + s.pending_aliases.len(),
        after.pulled == s.pulled,
        after.pending_collections == s.pending_collections,
{
}

/// A record that is made ready has the id and the time of the collection or alias whose payload it
/// holds, says which of the two it is, and gives the payload back to whoever has the key.
pub proof fn law_upload_is_labelled(s: SyncState, upload: UploadRecord, plaintext: Seq<u8>)
    requires
        is_upload(s, upload, plaintext),
        s.uploads.len() < s.pending_collections.len() + s.pending_aliases.len(),
    ensures
        ({
            let n = s.uploads.len();
            let collections = s.pending_collections.len();
            &&& n < collections ==> upload.record_type@ == "collection"@ && upload.id@
                == s.pending_collections[n as int].id && upload.updated_at
                == s.pending_collections[n as int].updated_at
            &&& n >= collections ==> upload.record_type@ == "alias"@ && upload.id@
                == s.pending_aliases[n - collections].id && upload.updated_at
                == s.pending_aliases[n - collections].updated_at
            &&& crypto::opened_record(s.key, upload.encrypted_blob@) == Ok::<Seq<u8>, Failure>(
                plaintext,
            )
        }),
{
}

/// The answers of the server are noted one after the other.
pub proof fn law_answers_in_turn(
    st: StoreState,
    pending: Seq<CollectionInfo>,
    a: Seq<PushedRecord>,
    b: Seq<PushedRecord>,
)
    ensures
        all_marked(st, pending, a + b) == all_marked(all_marked(st, pending, a), pending, b),
        all_marked(st, pending, Seq::empty()) == st,
    decreases b.len(),
{
    if b.len() == 0 {
        assert(a + b =~= a);
    } else {
        assert((a + b).drop_last() =~= a + b.drop_last());
        assert((a + b).last() == b.last());
        law_answers_in_turn(st, pending, a, b.drop_last());
    }
}

/// An answer gives its version to the collection of its id, where one was sent, and otherwise to
/// the alias of its id; that record no longer waits, and no other one changes.
pub proof fn law_one_answer(
    st: StoreState,
    pending: Seq<CollectionInfo>,
    record: PushedRecord,
)
    requires
        model::consistent(st),
    ensures
        ({
            let after = all_marked(st, pending, seq![record]);
            let id = record.id@;
            let collection = effects::lists_collection(pending, id);
            &&& after.active == st.active
            &&& after.backups == st.backups
            &&& after.collections.dom() == st.collections.dom()
            &&& after.aliases.dom() == st.aliases.dom()
            &&& forall|other: Seq<char>| #[trigger]
                st.collections.contains_key(other) && (other != id || !collection)
                    ==> after.collections[other] == st.collections[other]
            &&& forall|k: AliasKey| #[trigger]
                st.aliases.contains_key(k) && (st.aliases[k].id != id || collection)
                    ==> after.aliases[k] == st.aliases[k]
            &&& collection && st.collections.contains_key(id) ==> !after.collections[id].dirty
                && after.collections[id].sync_version == record.version
                && after.collections[id].deleted == st.collections[id].deleted
                && after.collections[id].updated_at == st.collections[id].updated_at
            &&& forall|k: AliasKey| #[trigger]
                st.aliases.contains_key(k) && st.aliases[k].id == id && !collection
                    ==> !after.aliases[k].dirty && after.aliases[k].sync_version == record.version
                    && after.aliases[k].command == st.aliases[k].command && after.aliases[k].deleted
                    == st.aliases[k].deleted && after.aliases[k].updated_at
                    == st.aliases[k].updated_at
        }),
{
    reveal_with_fuel(all_marked, 2);
    assert(seq![record].drop_last() =~= Seq::<PushedRecord>::empty());
    let id = record.id@;
    effects::law_collection_is_noted(st, id, record.version);
    effects::law_alias_is_noted(st, id, record.version);
    let collection = effects::lists_collection(pending, id);
    assert(collection == exists|i: int|
        0 <= i < pending.len() && (#[trigger] pending[i]).id == record.id@);
    let after = all_marked(st, pending, seq![record]);
    if collection {
        assert(after == model::collection_synced(st, id, record.version));
        assert forall|other: Seq<char>| #[trigger]
            st.collections.contains_key(other) && other != id implies after.collections[other]
            == st.collections[other] by {
            assert(after.collections.remove(id)[other] == st.collections.remove(id)[other]);
        }
    } else {
        assert(after == model::alias_synced(st, id, record.version));
    }
}

/// A session begins with a request for what is new since the version that was reached, with the
/// user's token, and keeps its key.
pub proof fn law_begin(
    s: SyncState,
    config: SyncConfig,
    after: SyncState,
    r: Result<SyncAction, AliazError>,
)
    requires
        begun(s, config, after, r),
    ensures
        r is Ok,
        r->Ok_0 is Pull,
        r->Ok_0->Pull_url@ == account::pull_url_of(config),
        r->Ok_0->Pull_token@ == config.token@,
        after.stage == Stage::Pulling,
        after.key == s.key,
{
}

/// Every record that the server sent is gone through, from the first on, and none was taken over
/// before.
pub proof fn law_answer_is_gone_through(s: SyncState, response: PullResponse)
    ensures
        answered(s, response).records == response.records@,
        answered(s, response).position == 0,
        answered(s, response).pulled == 0,
        answered(s, response).latest_version == response.latest_version,
        answered(s, response).stage == Stage::Applying,
        answered(s, response).key == s.key,
{
}

/// A session that sent something ends with the version that the server then has, and reports what
/// was pulled and what was pushed. Nothing else of the configuration changes.
pub proof fn law_finish(
    s: SyncState,
    config: SyncConfig,
    version: i64,
    after: SyncState,
    config_after: SyncConfig,
    r: Result<SyncAction, AliazError>,
)
    requires
        finished(s, config, version, after, config_after, r),
    ensures
        config_after.latest_version == version,
        config_after.sync_url == config.sync_url,
        config_after.username == config.username,
        config_after.user_id == config.user_id,
        config_after.token == config.token,
        after.stage == Stage::Finished,
        r is Ok,
        r->Ok_0 is Done,
        r->Ok_0->Done_0.pulled == s.pulled,
        r->Ok_0->Done_0.pushed == s.pushed,
{
}

/// A payload is waited for if and only if records are being taken over and the next one is of its
/// type.
pub proof fn law_awaited(s: SyncState, kind: Seq<char>)
    ensures
        awaits(s, kind) <==> s.stage == Stage::Applying && s.position < order_of(s.records).len()
            && s.records[order_of(s.records)[s.position as int]].record_type@ == kind,
{
}

/// Where nothing is to be sent, the session is over with what was pulled.
pub proof fn law_nothing_is_pushed(
    s: SyncState,
    config: SyncConfig,
    action: SyncAction,
    after: SyncState,
)
    requires
        is_upload_action(s, config, action, after),
        s.uploads.len() == 0,
        s.pending_collections.len() == 0,
        s.pending_aliases.len() == 0,
    ensures
        action is Done,
        action->Done_0.pulled == s.pulled,
        action->Done_0.pushed == 0,
        after.stage == Stage::Finished,
{
}

/// Records that are ready stay so, in their order, when one more is.
pub proof fn law_ready_records_stay(s: SyncState, upload: UploadRecord)
    ensures
        made_ready(s, upload).uploads == s.uploads + seq![upload],
        made_ready(s, upload).pending_collections == s.pending_collections,
        made_ready(s, upload).pending_aliases == s.pending_aliases,
        made_ready(s, upload).pulled == s.pulled,
        made_ready(s, upload).stage == s.stage,
        made_ready(s, upload).key == s.key,
{
    assert(made_ready(s, upload).uploads =~= s.uploads + seq![upload]);
}

} // verus!
