//! The persistence model: conversations, messages, settings, and the
//! full-text search index over message content.
//!
//! The store is an in-memory table model with the same observable contracts
//! as the on-disk engine: soft or hard deletion of conversations, an
//! append-only message log ordered by `(timestamp, insertion order)`, and a
//! search index that mirrors exactly the non-deleted messages within every
//! unit of work.

use vstd::prelude::*;

use crate::text::contains_seq;

verus! {

pub open spec fn opt_str_view(o: Option<String>) -> Option<Seq<char>> {
    match o {
        Some(s) => Some(s@),
        None => None,
    }
}

pub open spec fn opt_i64_view(o: Option<i64>) -> Option<int> {
    match o {
        Some(t) => Some(t as int),
        None => None,
    }
}

/// A stored conversation, as handed to callers.
#[derive(Debug)]
pub struct Conversation {
    pub id: String,
    pub title: String,
    pub created_at: i64,
    pub updated_at: i64,
    pub model: String,
    pub provider: String,
    pub system_prompt: Option<String>,
}

/// The model of a [`Conversation`].
pub ghost struct ConvV {
    pub id: Seq<char>,
    pub title: Seq<char>,
    pub created_at: int,
    pub updated_at: int,
    pub model: Seq<char>,
    pub provider: Seq<char>,
    pub system_prompt: Option<Seq<char>>,
}

impl View for Conversation {
    type V = ConvV;

    open spec fn view(&self) -> ConvV {
        ConvV {
            id: self.id@,
            title: self.title@,
            created_at: self.created_at as int,
            updated_at: self.updated_at as int,
            model: self.model@,
            provider: self.provider@,
            system_prompt: opt_str_view(self.system_prompt),
        }
    }
}

/// What a caller supplies to create a conversation.
#[derive(Debug)]
pub struct NewConversation {
    pub title: String,
    pub model: String,
    pub provider: String,
    pub system_prompt: Option<String>,
}

/// Caller-supplied conversation with identity and timestamps, for imports.
#[derive(Debug)]
pub struct NewConversationWithId {
    pub id: String,
    pub title: String,
    pub model: String,
    pub provider: String,
    pub system_prompt: Option<String>,
    pub created_at: i64,
    pub updated_at: i64,
}

/// A stored message, as handed to callers.
#[derive(Debug)]
pub struct Message {
    pub id: String,
    pub conversation_id: String,
    pub role: String,
    pub content: String,
    pub timestamp: i64,
    pub tokens_used: Option<i64>,
}

/// The model of a [`Message`].
pub ghost struct MsgV {
    pub id: Seq<char>,
    pub conversation_id: Seq<char>,
    pub role: Seq<char>,
    pub content: Seq<char>,
    pub timestamp: int,
    pub tokens_used: Option<int>,
}

impl View for Message {
    type V = MsgV;

    open spec fn view(&self) -> MsgV {
        MsgV {
            id: self.id@,
            conversation_id: self.conversation_id@,
            role: self.role@,
            content: self.content@,
            timestamp: self.timestamp as int,
            tokens_used: opt_i64_view(self.tokens_used),
        }
    }
}

/// What a caller supplies to create a message.
#[derive(Debug)]
pub struct NewMessage {
    pub conversation_id: String,
    pub role: String,
    pub content: String,
    pub tokens_used: Option<i64>,
}

/// Caller-supplied message with identity and timestamp, for imports.
#[derive(Debug)]
pub struct NewMessageWithId {
    pub id: String,
    pub conversation_id: String,
    pub role: String,
    pub content: String,
    pub timestamp: i64,
    pub tokens_used: Option<i64>,
}

/// One configuration entry.
#[derive(Debug)]
pub struct Setting {
    pub key: String,
    pub value: String,
    pub updated_at: i64,
}

/// The model of a [`Setting`].
pub ghost struct SettingV {
    pub key: Seq<char>,
    pub value: Seq<char>,
    pub updated_at: int,
}

impl View for Setting {
    type V = SettingV;

    open spec fn view(&self) -> SettingV {
        SettingV { key: self.key@, value: self.value@, updated_at: self.updated_at as int }
    }
}

/// How `delete_conversation` treats the row: flag it, or remove it and its
/// messages outright.
#[derive(Debug, Clone, Copy, PartialEq, Eq, Structural)]
pub enum DeletionPolicy {
    Soft,
    Hard,
}

/// Why a store operation was refused.
#[derive(Debug, Clone, Copy, PartialEq, Eq, Structural)]
pub enum StoreError {
    /// The referenced conversation does not exist or is deleted.
    MissingConversation,
    /// The supplied identifier is already taken.
    DuplicateId,
    /// A message role other than `user`, `assistant` or `system`.
    InvalidRole,
    /// The engine's row-identity counter is spent.
    Exhausted,
}

impl StoreError {
    /// A human-readable description, as carried by error responses.
    pub fn message(&self) -> (r: String)
        ensures
            r@ == store_error_text(*self),
    {
        match self {
            StoreError::MissingConversation => String::from_str("Conversation not found"),
            StoreError::DuplicateId => String::from_str("Identifier already exists"),
            StoreError::InvalidRole => String::from_str("Invalid message role"),
            StoreError::Exhausted => String::from_str("Storage engine capacity exhausted"),
        }
    }
}

pub open spec fn store_error_text(e: StoreError) -> Seq<char> {
    match e {
        StoreError::MissingConversation => "Conversation not found"@,
        StoreError::DuplicateId => "Identifier already exists"@,
        StoreError::InvalidRole => "Invalid message role"@,
        StoreError::Exhausted => "Storage engine capacity exhausted"@,
    }
}

/// A conversation row: the caller-visible record plus deletion state.
#[derive(Debug)]
pub struct ConversationRow {
    pub data: Conversation,
    pub deleted: bool,
    pub deleted_at: Option<i64>,
}

/// A message row: the caller-visible record, its insertion identity, and
/// deletion state.
#[derive(Debug)]
pub struct MessageRow {
    pub seq_no: u64,
    pub data: Message,
    pub deleted: bool,
}

/// One entry of the search index: the content of a non-deleted message,
/// keyed by the message's row identity.
#[derive(Debug)]
pub struct IndexEntry {
    pub seq_no: u64,
    pub content: String,
    pub conversation_id: String,
}

/// The model of an [`IndexEntry`].
pub ghost struct IdxV {
    pub seq_no: int,
    pub content: Seq<char>,
    pub conversation_id: Seq<char>,
}

impl View for IndexEntry {
    type V = IdxV;

    open spec fn view(&self) -> IdxV {
        IdxV {
            seq_no: self.seq_no as int,
            content: self.content@,
            conversation_id: self.conversation_id@,
        }
    }
}

/// The index entry a live message row ought to have.
pub open spec fn entry_of(m: MessageRow) -> IdxV {
    IdxV {
        seq_no: m.seq_no as int,
        content: m.data.content@,
        conversation_id: m.data.conversation_id@,
    }
}

/// The models of a sequence of index entries.
pub open spec fn idx_views(s: Seq<IndexEntry>) -> Seq<IdxV> {
    s.map_values(|e: IndexEntry| e@)
}

/// The index the message log calls for: one entry per non-deleted
/// message, in log order.
pub open spec fn live_index_v(msgs: Seq<MessageRow>) -> Seq<IdxV>
    decreases msgs.len(),
{
    if msgs.len() == 0 {
        Seq::empty()
    } else {
        let rest = live_index_v(msgs.drop_last());
        if !msgs.last().deleted {
            rest.push(entry_of(msgs.last()))
        } else {
            rest
        }
    }
}

pub open spec fn role_ok(r: Seq<char>) -> bool {
    r == "user"@ || r == "assistant"@ || r == "system"@
}

/// Some conversation row (deleted or not) carries this id.
pub open spec fn has_conv_row(rows: Seq<ConversationRow>, id: Seq<char>) -> bool {
    exists|k: int| 0 <= k < rows.len() && (#[trigger] rows[k]).data.id@ == id
}

/// Some non-deleted conversation row carries this id.
pub open spec fn has_live_conv(rows: Seq<ConversationRow>, id: Seq<char>) -> bool {
    exists|k: int| 0 <= k < rows.len() && (#[trigger] rows[k]).data.id@ == id && !rows[k].deleted
}

/// Some message row carries this id.
pub open spec fn has_msg_row(rows: Seq<MessageRow>, id: Seq<char>) -> bool {
    exists|k: int| 0 <= k < rows.len() && (#[trigger] rows[k]).data.id@ == id
}

/// The store: three tables, the derived search index, and the row-identity
/// counter.  All operations go through a caller-held exclusive reference,
/// which models the single process-wide storage lock.
pub struct Database {
    pub policy: DeletionPolicy,
    pub conversations: Vec<ConversationRow>,
    pub messages: Vec<MessageRow>,
    pub index: Vec<IndexEntry>,
    pub settings: Vec<Setting>,
    pub next_seq: u64,
}

impl Database {
    /// Conversation ids are unique across all rows, deleted ones included.
    pub open spec fn conv_ids_unique(self) -> bool {
        forall|a: int, b: int|
            0 <= a < b < self.conversations@.len() ==> (#[trigger] self.conversations@[a]).data.id@
                != (#[trigger] self.conversations@[b]).data.id@
    }

    /// Message row identities grow with the log and stay below the counter.
    pub open spec fn msg_seqs_increasing(self) -> bool {
        &&& forall|a: int, b: int|
            0 <= a < b < self.messages@.len() ==> (#[trigger] self.messages@[a]).seq_no < (
            #[trigger] self.messages@[b]).seq_no
        &&& forall|a: int|
            0 <= a < self.messages@.len() ==> (#[trigger] self.messages@[a]).seq_no
                < self.next_seq
    }

    pub open spec fn msg_ids_unique(self) -> bool {
        forall|a: int, b: int|
            0 <= a < b < self.messages@.len() ==> (#[trigger] self.messages@[a]).data.id@ != (
            #[trigger] self.messages@[b]).data.id@
    }

    pub open spec fn msg_roles_ok(self) -> bool {
        forall|a: int|
            0 <= a < self.messages@.len() ==> role_ok(
                (#[trigger] self.messages@[a]).data.role@,
            )
    }

    /// Every message references some conversation row.
    pub open spec fn msg_fk_ok(self) -> bool {
        forall|a: int|
            0 <= a < self.messages@.len() ==> has_conv_row(
                self.conversations@,
                (#[trigger] self.messages@[a]).data.conversation_id@,
            )
    }

    /// The search index is exactly the non-deleted messages' content.
    pub open spec fn index_ok(self) -> bool {
        idx_views(self.index@) == live_index_v(self.messages@)
    }

    pub open spec fn setting_keys_unique(self) -> bool {
        forall|a: int, b: int|
            0 <= a < b < self.settings@.len() ==> (#[trigger] self.settings@[a]).key@ != (
            #[trigger] self.settings@[b]).key@
    }

    /// The store's well-formedness invariant: every operation requires and
    /// preserves it.
    pub open spec fn wf(self) -> bool {
        &&& self.conv_ids_unique()
        &&& self.msg_seqs_increasing()
        &&& self.msg_ids_unique()
        &&& self.msg_roles_ok()
        &&& self.msg_fk_ok()
        &&& self.index_ok()
        &&& self.setting_keys_unique()
    }

    /// An empty store under the given deletion policy.
    pub fn new(policy: DeletionPolicy) -> (db: Database)
        ensures
            db.wf(),
            db.policy == policy,
            db.conversations@.len() == 0,
            db.messages@.len() == 0,
            db.index@.len() == 0,
            db.settings@.len() == 0,
    {
        let db = Database {
            policy,
            conversations: Vec::new(),
            messages: Vec::new(),
            index: Vec::new(),
            settings: Vec::new(),
            next_seq: 0,
        };
        proof {
            assert(idx_views(db.index@) =~= live_index_v(db.messages@));
        }
        db
    }
}

/// `updated_at` after a write at wall-clock time `now`, given the previous
/// value: the wall clock, but never standing still or going backwards.
pub open spec fn bump(old_ts: int, now: int) -> int {
    let least = if old_ts < i64::MAX {
        old_ts + 1
    } else {
        old_ts
    };
    if now > least {
        now
    } else {
        least
    }
}

pub fn bump_ts(old_ts: i64, now: i64) -> (r: i64)
    ensures
        r as int == bump(old_ts as int, now as int),
{
    let least = if old_ts < i64::MAX {
        old_ts + 1
    } else {
        old_ts
    };
    if now > least {
        now
    } else {
        least
    }
}

fn clone_opt_string(o: &Option<String>) -> (r: Option<String>)
    ensures
        opt_str_view(r) == opt_str_view(*o),
{
    match o {
        Some(s) => Some(s.clone()),
        None => None,
    }
}

fn clone_conversation(c: &Conversation) -> (r: Conversation)
    ensures
        r@ == c@,
{
    Conversation {
        id: c.id.clone(),
        title: c.title.clone(),
        created_at: c.created_at,
        updated_at: c.updated_at,
        model: c.model.clone(),
        provider: c.provider.clone(),
        system_prompt: clone_opt_string(&c.system_prompt),
    }
}

fn clone_message(m: &Message) -> (r: Message)
    ensures
        r@ == m@,
{
    Message {
        id: m.id.clone(),
        conversation_id: m.conversation_id.clone(),
        role: m.role.clone(),
        content: m.content.clone(),
        timestamp: m.timestamp,
        tokens_used: m.tokens_used,
    }
}

impl Database {
    /// Upserts a key: overwrites the value in place, or appends a fresh row.
    #[verifier::loop_isolation(false)]
    pub fn set_setting(&mut self, key: &str, value: &str, now: i64)
        requires
            old(self).wf(),
        ensures
            final(self).wf(),
            final(self).spec_get_setting(key@) == Some((value@, now as int)),
            forall|k: Seq<char>|
                k != key@ ==> final(self).spec_get_setting(k) == old(self).spec_get_setting(k),
            final(self).conversations@ == old(self).conversations@,
            final(self).messages@ == old(self).messages@,
            final(self).index@ == old(self).index@,
            final(self).policy == old(self).policy,
            final(self).next_seq == old(self).next_seq,
    {
        let n = self.settings.len();
        let mut i: usize = 0;
        while i < n
            invariant
                i <= n,
                n == self.settings@.len(),
                self == old(self),
                forall|k: int| 0 <= k < i ==> (#[trigger] self.settings@[k]).key@ != key@,
        decreases n - i,
        {
            if str_eq(self.settings[i].key.as_str(), key) {
                let row = Setting {
                    key: String::from_str(key),
                    value: String::from_str(value),
                    updated_at: now,
                };
                let _ = self.settings.remove(i);
                self.settings.insert(i, row);
                proof {
                    lemma_settings_update(old(self).settings@, self.settings@, i as int);
                }
                return ;
            }
            i = i + 1;
        }
        self.settings.push(
            Setting { key: String::from_str(key), value: String::from_str(value), updated_at: now },
        );
        proof {
            let post = self.settings@;
            let pre = old(self).settings@;
            assert(post.drop_last() =~= pre);
            assert forall|a: int, b: int|
                0 <= a < b < post.len() implies (#[trigger] post[a]).key@ != (
            #[trigger] post[b]).key@ by {
                if b == post.len() - 1 {
                    assert(post[a] == pre[a]);
                } else {
                    assert(post[a] == pre[a]);
                    assert(post[b] == pre[b]);
                }
            }
            assert forall|k: Seq<char>| k != key@ implies self.spec_get_setting(k) == old(
                self,
            ).spec_get_setting(k) by {
                assert(spec_settings_lookup(post, k) == spec_settings_lookup(post.drop_last(), k));
            }
        }
    }

    /// What the settings table binds `key` to: its value and write time.
    pub open spec fn spec_get_setting(self, key: Seq<char>) -> Option<(Seq<char>, int)> {
        spec_settings_lookup(self.settings@, key)
    }

    /// The stored value for `key`, if any.
    #[verifier::loop_isolation(false)]
    pub fn get_setting(&self, key: &str) -> (r: Option<String>)
        requires
            self.wf(),
        ensures
            match r {
                Some(v) => self.spec_get_setting(key@) matches Some(p) && p.0 == v@,
                None => self.spec_get_setting(key@) is None,
            },
    {
        let n = self.settings.len();
        let mut i: usize = 0;
        while i < n
            invariant
                i <= n,
                n == self.settings@.len(),
                forall|k: int| 0 <= k < i ==> (#[trigger] self.settings@[k]).key@ != key@,
        decreases n - i,
        {
            if str_eq(self.settings[i].key.as_str(), key) {
                let v = self.settings[i].value.clone();
                proof {
                    lemma_settings_lookup_found(self.settings@, key@, i as int);
                    assert(self.spec_get_setting(key@) == Some(
                        (v@, self.settings@[i as int].updated_at as int),
                    ));
                }
                return Some(v);
            }
            i = i + 1;
        }
        proof {
            lemma_settings_lookup_absent(self.settings@, key@);
        }
        None
    }

    /// All settings rows, in table order.
    #[verifier::loop_isolation(false)]
    pub fn get_all_settings(&self) -> (r: Vec<Setting>)
        requires
            self.wf(),
        ensures
            r@.len() == self.settings@.len(),
            forall|k: int| 0 <= k < r@.len() ==> (#[trigger] r@[k])@ == self.settings@[k]@,
    {
        let n = self.settings.len();
        let mut out: Vec<Setting> = Vec::new();
        let mut i: usize = 0;
        while i < n
            invariant
                i <= n,
                n == self.settings@.len(),
                out@.len() == i,
                forall|k: int| 0 <= k < i ==> (#[trigger] out@[k])@ == self.settings@[k]@,
            decreases n - i,
        {
            let row = &self.settings[i];
            out.push(
                Setting {
                    key: row.key.clone(),
                    value: row.value.clone(),
                    updated_at: row.updated_at,
                },
            );
            i = i + 1;
        }
        out
    }

    /// Removes `key` if present.
    #[verifier::loop_isolation(false)]
    pub fn delete_setting(&mut self, key: &str)
        requires
            old(self).wf(),
        ensures
            final(self).wf(),
            final(self).spec_get_setting(key@) is None,
            forall|k: Seq<char>|
                k != key@ ==> final(self).spec_get_setting(k) == old(self).spec_get_setting(k),
            final(self).conversations@ == old(self).conversations@,
            final(self).messages@ == old(self).messages@,
            final(self).index@ == old(self).index@,
            final(self).policy == old(self).policy,
            final(self).next_seq == old(self).next_seq,
    {
        let n = self.settings.len();
        let mut i: usize = 0;
        while i < n
            invariant
                i <= n,
                n == self.settings@.len(),
                self == old(self),
                forall|k: int| 0 <= k < i ==> (#[trigger] self.settings@[k]).key@ != key@,
        decreases n - i,
        {
            if str_eq(self.settings[i].key.as_str(), key) {
                let _ = self.settings.remove(i);
                proof {
                    lemma_settings_remove(old(self).settings@, self.settings@, i as int, key@);
                }
                return ;
            }
            i = i + 1;
        }
        proof {
            lemma_settings_lookup_absent(self.settings@, key@);
        }
    }
}

/// Looks a key up in a settings table; later rows win, though under the
/// uniqueness invariant at most one row matches.
pub open spec fn spec_settings_lookup(rows: Seq<Setting>, key: Seq<char>) -> Option<
    (Seq<char>, int),
>
    decreases rows.len(),
{
    if rows.len() == 0 {
        None
    } else if rows.last().key@ == key {
        Some((rows.last().value@, rows.last().updated_at as int))
    } else {
        spec_settings_lookup(rows.drop_last(), key)
    }
}

proof fn lemma_settings_lookup_found(rows: Seq<Setting>, key: Seq<char>, i: int)
    requires
        0 <= i < rows.len(),
        rows[i].key@ == key,
        forall|a: int, b: int|
            0 <= a < b < rows.len() ==> (#[trigger] rows[a]).key@ != (#[trigger] rows[b]).key@,
    ensures
        spec_settings_lookup(rows, key) == Some((rows[i].value@, rows[i].updated_at as int)),
    decreases rows.len(),
{
    if i == rows.len() - 1 {
    } else {
        assert(rows.drop_last()[i] == rows[i]);
        lemma_settings_lookup_found(rows.drop_last(), key, i);
    }
}

proof fn lemma_settings_lookup_absent(rows: Seq<Setting>, key: Seq<char>)
    requires
        forall|k: int| 0 <= k < rows.len() ==> (#[trigger] rows[k]).key@ != key,
    ensures
        spec_settings_lookup(rows, key) is None,
    decreases rows.len(),
{
    if rows.len() > 0 {
        assert(forall|k: int|
            0 <= k < rows.drop_last().len() ==> (#[trigger] rows.drop_last()[k]) == rows[k]);
        lemma_settings_lookup_absent(rows.drop_last(), key);
    }
}

proof fn lemma_settings_update(pre: Seq<Setting>, post: Seq<Setting>, i: int)
    requires
        0 <= i < pre.len(),
        post.len() == pre.len(),
        post[i].key@ == pre[i].key@,
        forall|k: int| 0 <= k < pre.len() && k != i ==> post[k] == pre[k],
        forall|a: int, b: int|
            0 <= a < b < pre.len() ==> (#[trigger] pre[a]).key@ != (#[trigger] pre[b]).key@,
    ensures
        spec_settings_lookup(post, pre[i].key@) == Some(
            (post[i].value@, post[i].updated_at as int),
        ),
        forall|k: Seq<char>|
            k != pre[i].key@ ==> spec_settings_lookup(post, k) == spec_settings_lookup(pre, k),
        forall|a: int, b: int|
            0 <= a < b < post.len() ==> (#[trigger] post[a]).key@ != (#[trigger] post[b]).key@,
{
    assert(forall|a: int, b: int|
        0 <= a < b < post.len() ==> (#[trigger] post[a]).key@ != (#[trigger] post[b]).key@);
    lemma_settings_lookup_found(post, pre[i].key@, i);
    assert forall|k: Seq<char>| k != pre[i].key@ implies spec_settings_lookup(post, k)
        == spec_settings_lookup(pre, k) by {
        lemma_settings_lookup_frame(pre, post, i, k);
    }
}

proof fn lemma_settings_lookup_frame(pre: Seq<Setting>, post: Seq<Setting>, i: int, k: Seq<char>)
    requires
        0 <= i < pre.len(),
        post.len() == pre.len(),
        post[i].key@ == pre[i].key@,
        k != pre[i].key@,
        forall|j: int| 0 <= j < pre.len() && j != i ==> post[j] == pre[j],
    ensures
        spec_settings_lookup(post, k) == spec_settings_lookup(pre, k),
    decreases pre.len(),
{
    if pre.len() > 0 {
        if i == pre.len() - 1 {
            assert(pre.drop_last() =~= post.drop_last());
        } else {
            assert(post.last() == pre.last());
            if pre.last().key@ == k {
            } else {
                assert(forall|j: int|
                    0 <= j < pre.drop_last().len() && j != i ==> #[trigger] post.drop_last()[j]
                        == pre.drop_last()[j]);
                assert(post.drop_last()[i] == post[i]);
                assert(pre.drop_last()[i] == pre[i]);
                lemma_settings_lookup_frame(pre.drop_last(), post.drop_last(), i, k);
            }
        }
    }
}

proof fn lemma_settings_remove(pre: Seq<Setting>, post: Seq<Setting>, i: int, key: Seq<char>)
    requires
        0 <= i < pre.len(),
        pre[i].key@ == key,
        post == pre.remove(i),
        forall|a: int, b: int|
            0 <= a < b < pre.len() ==> (#[trigger] pre[a]).key@ != (#[trigger] pre[b]).key@,
    ensures
        spec_settings_lookup(post, key) is None,
        forall|k: Seq<char>| k != key ==> spec_settings_lookup(post, k) == spec_settings_lookup(
            pre,
            k,
        ),
        forall|a: int, b: int|
            0 <= a < b < post.len() ==> (#[trigger] post[a]).key@ != (#[trigger] post[b]).key@,
{
    assert(forall|j: int| 0 <= j < i ==> #[trigger] post[j] == pre[j]);
    assert(forall|j: int| i <= j < post.len() ==> #[trigger] post[j] == pre[j + 1]);
    assert forall|j: int| 0 <= j < post.len() implies (#[trigger] post[j]).key@ != key by {
        if j < i {
        } else {
            assert(post[j] == pre[j + 1]);
        }
    }
    lemma_settings_lookup_absent(post, key);
    assert forall|k: Seq<char>| k != key implies spec_settings_lookup(post, k)
        == spec_settings_lookup(pre, k) by {
        lemma_settings_lookup_remove_frame(pre, i, k);
    }
}

proof fn lemma_settings_lookup_remove_frame(pre: Seq<Setting>, i: int, k: Seq<char>)
    requires
        0 <= i < pre.len(),
        k != pre[i].key@,
    ensures
        spec_settings_lookup(pre.remove(i), k) == spec_settings_lookup(pre, k),
    decreases pre.len(),
{
    let post = pre.remove(i);
    if i == pre.len() - 1 {
        assert(post =~= pre.drop_last());
    } else {
        assert(post.last() == pre.last());
        if pre.last().key@ == k {
        } else {
            assert(post.drop_last() =~= pre.drop_last().remove(i));
            assert(pre.drop_last()[i] == pre[i]);
            lemma_settings_lookup_remove_frame(pre.drop_last(), i, k);
        }
    }
}

/// Equality of string slices, by their characters.
pub fn str_eq(a: &str, b: &str) -> (r: bool)
    ensures
        r == (a@ == b@),
{
    let av = crate::ext::str_to_chars(a);
    let bv = crate::ext::str_to_chars(b);
    let n = av.len();
    if n != bv.len() {
        proof {
            assert(a@ != b@);
        }
        return false;
    }
    let mut i: usize = 0;
    while i < n
        invariant
            i <= n,
            n == av@.len(),
            n == bv@.len(),
            av@ == a@,
            bv@ == b@,
            forall|k: int| 0 <= k < i ==> av@[k] == bv@[k],
        decreases n - i,
    {
        if av[i] != bv[i] {
            proof {
                assert(a@[i as int] != b@[i as int]);
            }
            return false;
        }
        i = i + 1;
    }
    proof {
        assert(a@ =~= b@);
    }
    true
}

/// The messages that survive a cascade delete of conversation `cid`.
pub open spec fn keep_msgs(msgs: Seq<MessageRow>, cid: Seq<char>) -> Seq<MessageRow>
    decreases msgs.len(),
{
    if msgs.len() == 0 {
        Seq::empty()
    } else {
        let rest = keep_msgs(msgs.drop_last(), cid);
        if msgs.last().data.conversation_id@ != cid {
            rest.push(msgs.last())
        } else {
            rest
        }
    }
}

/// Each survivor of [`keep_msgs`] is one of the original rows, still in
/// insertion order, and none belongs to `cid`.
pub proof fn lemma_keep_msgs(msgs: Seq<MessageRow>, cid: Seq<char>)
    ensures
        forall|i: int|
            0 <= i < keep_msgs(msgs, cid).len() ==> exists|j: int|
                0 <= j < msgs.len() && (#[trigger] keep_msgs(msgs, cid)[i]) == msgs[j],
        forall|i: int|
            0 <= i < keep_msgs(msgs, cid).len() ==> (#[trigger] keep_msgs(
                msgs,
                cid,
            )[i]).data.conversation_id@ != cid,
        (forall|a: int, b: int|
            0 <= a < b < msgs.len() ==> (#[trigger] msgs[a]).seq_no < (#[trigger] msgs[b]).seq_no)
            ==> (forall|a: int, b: int|
            0 <= a < b < keep_msgs(msgs, cid).len() ==> (#[trigger] keep_msgs(msgs, cid)[a]).seq_no
                < (#[trigger] keep_msgs(msgs, cid)[b]).seq_no),
        (forall|a: int, b: int|
            0 <= a < b < msgs.len() ==> (#[trigger] msgs[a]).data.id@ != (
            #[trigger] msgs[b]).data.id@) ==> (forall|a: int, b: int|
            0 <= a < b < keep_msgs(msgs, cid).len() ==> (#[trigger] keep_msgs(msgs, cid)[a]).data.id@
                != (#[trigger] keep_msgs(msgs, cid)[b]).data.id@),
    decreases msgs.len(),
{
    if msgs.len() > 0 {
        let rest = msgs.drop_last();
        lemma_keep_msgs(rest, cid);
        assert(forall|j: int| 0 <= j < rest.len() ==> #[trigger] rest[j] == msgs[j]);
        let kept = keep_msgs(msgs, cid);
        if msgs.last().data.conversation_id@ != cid {
            assert forall|i: int| 0 <= i < kept.len() implies exists|j: int|
                0 <= j < msgs.len() && (#[trigger] kept[i]) == msgs[j] by {
                if i < kept.len() - 1 {
                    assert(kept[i] == keep_msgs(rest, cid)[i]);
                    let j = choose|j: int| 0 <= j < rest.len() && keep_msgs(rest, cid)[i] == rest[j];
                    assert(kept[i] == msgs[j]);
                } else {
                    assert(kept[i] == msgs[msgs.len() - 1]);
                }
            }
        } else {
            assert forall|i: int| 0 <= i < kept.len() implies exists|j: int|
                0 <= j < msgs.len() && (#[trigger] kept[i]) == msgs[j] by {
                let j = choose|j: int| 0 <= j < rest.len() && keep_msgs(rest, cid)[i] == rest[j];
                assert(kept[i] == msgs[j]);
            }
        }
        if (forall|a: int, b: int|
            0 <= a < b < msgs.len() ==> (#[trigger] msgs[a]).seq_no < (#[trigger] msgs[b]).seq_no) {
            assert forall|a: int, b: int| 0 <= a < b < kept.len() implies (
            #[trigger] kept[a]).seq_no < (#[trigger] kept[b]).seq_no by {
                if b < kept.len() - 1 || msgs.last().data.conversation_id@ == cid {
                } else {
                    // kept[b] is the appended last row; kept[a] sits somewhere in rest
                    let j = choose|j: int| 0 <= j < rest.len() && keep_msgs(rest, cid)[a] == rest[j];
                    assert(kept[a] == msgs[j]);
                    assert(msgs[j].seq_no < msgs[msgs.len() - 1].seq_no);
                }
            }
        }
        if (forall|a: int, b: int|
            0 <= a < b < msgs.len() ==> (#[trigger] msgs[a]).data.id@ != (
            #[trigger] msgs[b]).data.id@) {
            assert forall|a: int, b: int| 0 <= a < b < kept.len() implies (
            #[trigger] kept[a]).data.id@ != (#[trigger] kept[b]).data.id@ by {
                if b < kept.len() - 1 || msgs.last().data.conversation_id@ == cid {
                } else {
                    let j = choose|j: int| 0 <= j < rest.len() && keep_msgs(rest, cid)[a] == rest[j];
                    assert(kept[a] == msgs[j]);
                    assert(msgs[j].data.id@ != msgs[msgs.len() - 1].data.id@);
                }
            }
        }
    }
}

/// The row as a cascade delete of conversation `cid` leaves it: flagged
/// deleted when it belongs to `cid`, untouched otherwise.
pub open spec fn flag_row(row: MessageRow, cid: Seq<char>) -> MessageRow {
    if row.data.conversation_id@ == cid {
        MessageRow { seq_no: row.seq_no, data: row.data, deleted: true }
    } else {
        row
    }
}

/// The message log after a cascade soft delete of conversation `cid`.
pub open spec fn flag_msgs(msgs: Seq<MessageRow>, cid: Seq<char>) -> Seq<MessageRow> {
    Seq::new(msgs.len(), |j: int| flag_row(msgs[j], cid))
}

/// The row as a cascade restore of conversation `cid` leaves it: the flag
/// cleared when it belongs to `cid`, untouched otherwise.
pub open spec fn unflag_row(row: MessageRow, cid: Seq<char>) -> MessageRow {
    if row.data.conversation_id@ == cid {
        MessageRow { seq_no: row.seq_no, data: row.data, deleted: false }
    } else {
        row
    }
}

/// The message log after a cascade restore of conversation `cid`.
pub open spec fn unflag_msgs(msgs: Seq<MessageRow>, cid: Seq<char>) -> Seq<MessageRow> {
    Seq::new(msgs.len(), |j: int| unflag_row(msgs[j], cid))
}

impl Database {
    /// The position of the conversation row carrying `id`, deleted or not.
    #[verifier::loop_isolation(false)]
    fn find_conv_row(&self, id: &str) -> (r: Option<usize>)
        ensures
            match r {
                Some(k) => k < self.conversations@.len()
                    && self.conversations@[k as int].data.id@ == id@,
                None => !has_conv_row(self.conversations@, id@),
            },
    {
        let n = self.conversations.len();
        let mut i: usize = 0;
        while i < n
            invariant
                i <= n,
                forall|k: int| 0 <= k < i ==> (#[trigger] self.conversations@[k]).data.id@ != id@,
            decreases n - i,
        {
            if str_eq(self.conversations[i].data.id.as_str(), id) {
                return Some(i);
            }
            i = i + 1;
        }
        None
    }

    /// The position of the non-deleted conversation row carrying `id`.
    #[verifier::loop_isolation(false)]
    fn find_live_conv(&self, id: &str) -> (r: Option<usize>)
        ensures
            match r {
                Some(k) => k < self.conversations@.len()
                    && self.conversations@[k as int].data.id@ == id@
                    && !self.conversations@[k as int].deleted,
                None => !has_live_conv(self.conversations@, id@),
            },
    {
        let n = self.conversations.len();
        let mut i: usize = 0;
        while i < n
            invariant
                i <= n,
                forall|k: int|
                    0 <= k < i ==> ((#[trigger] self.conversations@[k]).data.id@ != id@
                        || self.conversations@[k].deleted),
            decreases n - i,
        {
            if !self.conversations[i].deleted && str_eq(self.conversations[i].data.id.as_str(), id)
            {
                return Some(i);
            }
            i = i + 1;
        }
        None
    }

    /// Rebuilds the search index from the message log.
    #[verifier::loop_isolation(false)]
    fn rebuild_index(msgs: &Vec<MessageRow>) -> (r: Vec<IndexEntry>)
        ensures
            idx_views(r@) == live_index_v(msgs@),
    {
        let n = msgs.len();
        let mut out: Vec<IndexEntry> = Vec::new();
        proof {
            assert(idx_views(out@) =~= live_index_v(msgs@.take(0)));
        }
        let mut i: usize = 0;
        while i < n
            invariant
                i <= n,
                idx_views(out@) == live_index_v(msgs@.take(i as int)),
            decreases n - i,
        {
            let ghost pre = out@;
            let row = &msgs[i];
            if !row.deleted {
                out.push(
                    IndexEntry {
                        seq_no: row.seq_no,
                        content: row.data.content.clone(),
                        conversation_id: row.data.conversation_id.clone(),
                    },
                );
                proof {
                    assert(idx_views(out@) =~= idx_views(pre).push(entry_of(msgs@[i as int])));
                }
            }
            proof {
                assert(msgs@.take(i + 1).drop_last() =~= msgs@.take(i as int));
                assert(msgs@.take(i + 1).last() == msgs@[i as int]);
            }
            i = i + 1;
        }
        proof {
            assert(msgs@.take(n as int) =~= msgs@);
        }
        out
    }

    /// Flags every message of conversation `id` deleted and rebuilds the
    /// index, the message half of a cascade soft delete.
    #[verifier::loop_isolation(false)]
    #[verifier::rlimit(60)]
    fn flag_conversation_messages(db: &mut Database, id: &str)
        requires
            old(db).wf(),
        ensures
            final(db).wf(),
            final(db).policy == old(db).policy,
            final(db).conversations@ == old(db).conversations@,
            final(db).settings@ == old(db).settings@,
            final(db).next_seq == old(db).next_seq,
            final(db).messages@ == flag_msgs(old(db).messages@, id@),
    {
        let n = db.messages.len();
        let mut i: usize = 0;
        while i < n
            invariant
                i <= n,
                n == db.messages@.len(),
                db.conversations@ == old(db).conversations@,
                db.policy == old(db).policy,
                db.settings@ == old(db).settings@,
                db.next_seq == old(db).next_seq,
                forall|j: int|
                    0 <= j < i ==> #[trigger] db.messages@[j] == flag_row(
                        old(db).messages@[j],
                        id@,
                    ),
                forall|j: int| i <= j < n ==> #[trigger] db.messages@[j] == old(db).messages@[j],
            decreases n - i,
        {
            let ghost pre = db.messages@;
            if str_eq(db.messages[i].data.conversation_id.as_str(), id) {
                let mut row = db.messages.remove(i);
                row.deleted = true;
                db.messages.insert(i, row);
                proof {
                    assert(db.messages@ =~= pre.update(i as int, db.messages@[i as int]));
                }
            }
            proof {
                assert(db.messages@[i as int] == flag_row(old(db).messages@[i as int], id@));
            }
            i = i + 1;
        }
        proof {
            assert(db.messages@ =~= flag_msgs(old(db).messages@, id@));
        }
        db.index = Database::rebuild_index(&db.messages);
        proof {
            let post = db.messages@;
            let pre = old(db).messages@;
            assert(forall|a: int|
                0 <= a < post.len() ==> (#[trigger] post[a]).seq_no == pre[a].seq_no && post[a].data
                    == pre[a].data);
        }
    }

    /// Clears the deleted flag on every message of conversation `id` and
    /// rebuilds the index, the message half of a cascade restore.
    #[verifier::loop_isolation(false)]
    #[verifier::rlimit(60)]
    fn unflag_conversation_messages(db: &mut Database, id: &str)
        requires
            old(db).wf(),
        ensures
            final(db).wf(),
            final(db).policy == old(db).policy,
            final(db).conversations@ == old(db).conversations@,
            final(db).settings@ == old(db).settings@,
            final(db).next_seq == old(db).next_seq,
            final(db).messages@ == unflag_msgs(old(db).messages@, id@),
    {
        let n = db.messages.len();
        let mut i: usize = 0;
        while i < n
            invariant
                i <= n,
                n == db.messages@.len(),
                db.conversations@ == old(db).conversations@,
                db.policy == old(db).policy,
                db.settings@ == old(db).settings@,
                db.next_seq == old(db).next_seq,
                forall|j: int|
                    0 <= j < i ==> #[trigger] db.messages@[j] == unflag_row(
                        old(db).messages@[j],
                        id@,
                    ),
                forall|j: int| i <= j < n ==> #[trigger] db.messages@[j] == old(db).messages@[j],
            decreases n - i,
        {
            let ghost pre = db.messages@;
            if str_eq(db.messages[i].data.conversation_id.as_str(), id) {
                let mut row = db.messages.remove(i);
                row.deleted = false;
                db.messages.insert(i, row);
                proof {
                    assert(db.messages@ =~= pre.update(i as int, db.messages@[i as int]));
                }
            }
            proof {
                assert(db.messages@[i as int] == unflag_row(old(db).messages@[i as int], id@));
            }
            i = i + 1;
        }
        proof {
            assert(db.messages@ =~= unflag_msgs(old(db).messages@, id@));
        }
        db.index = Database::rebuild_index(&db.messages);
        proof {
            let post = db.messages@;
            let pre = old(db).messages@;
            assert(forall|a: int|
                0 <= a < post.len() ==> (#[trigger] post[a]).seq_no == pre[a].seq_no && post[a].data
                    == pre[a].data);
        }
    }
}

impl Conversation {
    /// Inserts a conversation with caller-chosen identity and timestamps.
    /// Fails, leaving the store unchanged, exactly when the id is taken.
    #[verifier::loop_isolation(false)]
    pub fn create_with_id(db: &mut Database, new_conv: NewConversationWithId) -> (r: Result<
        Conversation,
        StoreError,
    >)
        requires
            old(db).wf(),
        ensures
            final(db).wf(),
            final(db).policy == old(db).policy,
            final(db).next_seq == old(db).next_seq,
            final(db).messages@ == old(db).messages@,
            final(db).index@ == old(db).index@,
            final(db).settings@ == old(db).settings@,
            match r {
                Ok(c) => {
                    &&& !has_conv_row(old(db).conversations@, new_conv.id@)
                    &&& c@ == (ConvV {
                        id: new_conv.id@,
                        title: new_conv.title@,
                        created_at: new_conv.created_at as int,
                        updated_at: new_conv.updated_at as int,
                        model: new_conv.model@,
                        provider: new_conv.provider@,
                        system_prompt: opt_str_view(new_conv.system_prompt),
                    })
                    &&& final(db).conversations@.len() == old(db).conversations@.len() + 1
                    &&& forall|k: int|
                        0 <= k < old(db).conversations@.len() ==> final(db).conversations@[k]
                            == old(db).conversations@[k]
                    &&& final(db).conversations@.last().data@ == c@
                    &&& !final(db).conversations@.last().deleted
                    &&& final(db).conversations@.last().deleted_at is None
                },
                Err(e) => {
                    &&& e == StoreError::DuplicateId
                    &&& has_conv_row(old(db).conversations@, new_conv.id@)
                    &&& *final(db) == *old(db)
                },
            },
    {
        match db.find_conv_row(new_conv.id.as_str()) {
            Some(_) => Err(StoreError::DuplicateId),
            None => {
                let data = Conversation {
                    id: new_conv.id,
                    title: new_conv.title,
                    created_at: new_conv.created_at,
                    updated_at: new_conv.updated_at,
                    model: new_conv.model,
                    provider: new_conv.provider,
                    system_prompt: new_conv.system_prompt,
                };
                let copy = clone_conversation(&data);
                db.conversations.push(
                    ConversationRow { data, deleted: false, deleted_at: None },
                );
                proof {
                    let post = db.conversations@;
                    let pre = old(db).conversations@;
                    assert forall|a: int, b: int|
                        0 <= a < b < post.len() implies (#[trigger] post[a]).data.id@ != (
                    #[trigger] post[b]).data.id@ by {
                        if b < post.len() - 1 {
                            assert(post[a] == pre[a]);
                            assert(post[b] == pre[b]);
                        } else {
                            assert(post[a] == pre[a]);
                        }
                    }
                    assert forall|a: int|
                        0 <= a < final(db).messages@.len() implies has_conv_row(
                        post,
                        (#[trigger] final(db).messages@[a]).data.conversation_id@,
                    ) by {
                        let cid = final(db).messages@[a].data.conversation_id@;
                        let j = choose|j: int| 0 <= j < pre.len() && (#[trigger] pre[j]).data.id@ == cid;
                        assert(post[j].data.id@ == cid);
                    }
                }
                Ok(copy)
            },
        }
    }

    /// Inserts a conversation under a supplied fresh id at wall-clock time
    /// `now`: both timestamps start at `now`.
    pub fn create_at(db: &mut Database, new_conv: NewConversation, id: String, now: i64) -> (r:
        Result<Conversation, StoreError>)
        requires
            old(db).wf(),
        ensures
            final(db).wf(),
            final(db).policy == old(db).policy,
            final(db).next_seq == old(db).next_seq,
            final(db).messages@ == old(db).messages@,
            final(db).index@ == old(db).index@,
            final(db).settings@ == old(db).settings@,
            match r {
                Ok(c) => {
                    &&& !has_conv_row(old(db).conversations@, id@)
                    &&& c@ == (ConvV {
                        id: id@,
                        title: new_conv.title@,
                        created_at: now as int,
                        updated_at: now as int,
                        model: new_conv.model@,
                        provider: new_conv.provider@,
                        system_prompt: opt_str_view(new_conv.system_prompt),
                    })
                    &&& final(db).conversations@.len() == old(db).conversations@.len() + 1
                    &&& forall|k: int|
                        0 <= k < old(db).conversations@.len() ==> final(db).conversations@[k]
                            == old(db).conversations@[k]
                    &&& final(db).conversations@.last().data@ == c@
                    &&& !final(db).conversations@.last().deleted
                    &&& final(db).conversations@.last().deleted_at is None
                },
                Err(e) => {
                    &&& e == StoreError::DuplicateId
                    &&& has_conv_row(old(db).conversations@, id@)
                    &&& *final(db) == *old(db)
                },
            },
    {
        Conversation::create_with_id(
            db,
            NewConversationWithId {
                id,
                title: new_conv.title,
                model: new_conv.model,
                provider: new_conv.provider,
                system_prompt: new_conv.system_prompt,
                created_at: now,
                updated_at: now,
            },
        )
    }

    /// Inserts a conversation under a freshly drawn identifier at the
    /// current wall-clock time.  Which identifier and time come back from
    /// the outside calls cannot be promised, so the contract holds for
    /// every outcome; it fails only if the drawn identifier collides.
    pub fn create(db: &mut Database, new_conv: NewConversation) -> (r: Result<
        Conversation,
        StoreError,
    >)
        requires
            old(db).wf(),
        ensures
            final(db).wf(),
            final(db).policy == old(db).policy,
            final(db).next_seq == old(db).next_seq,
            final(db).messages@ == old(db).messages@,
            final(db).index@ == old(db).index@,
            final(db).settings@ == old(db).settings@,
            match r {
                Ok(c) => {
                    &&& !has_conv_row(old(db).conversations@, c@.id)
                    &&& c@.title == new_conv.title@
                    &&& c@.model == new_conv.model@
                    &&& c@.provider == new_conv.provider@
                    &&& c@.system_prompt == opt_str_view(new_conv.system_prompt)
                    &&& c@.created_at == c@.updated_at
                    &&& final(db).conversations@.len() == old(db).conversations@.len() + 1
                    &&& forall|k: int|
                        0 <= k < old(db).conversations@.len() ==> final(db).conversations@[k]
                            == old(db).conversations@[k]
                    &&& final(db).conversations@.last().data@ == c@
                    &&& !final(db).conversations@.last().deleted
                    &&& final(db).conversations@.last().deleted_at is None
                },
                Err(e) => {
                    &&& e == StoreError::DuplicateId
                    &&& old(db).conversations@.len() > 0
                    &&& *final(db) == *old(db)
                },
            },
    {
        let id = crate::ext::fresh_uuid();
        let now = crate::ext::now_epoch_seconds();
        Conversation::create_at(db, new_conv, id, now)
    }

    /// The non-deleted conversation carrying `id`, if any.
    pub fn get_by_id(db: &Database, id: &str) -> (r: Option<Conversation>)
        requires
            db.wf(),
        ensures
            match r {
                Some(c) => exists|k: int|
                    0 <= k < db.conversations@.len() && !(#[trigger] db.conversations@[k]).deleted
                        && db.conversations@[k].data.id@ == id@ && c@ == db.conversations@[k].data@,
                None => !has_live_conv(db.conversations@, id@),
            },
    {
        match db.find_live_conv(id) {
            Some(k) => {
                let c = clone_conversation(&db.conversations[k].data);
                proof {
                    assert(0 <= k < db.conversations@.len() && !(
                    #[trigger] db.conversations@[k as int]).deleted && db.conversations@[
                        k as int
                    ].data.id@ == id@ && c@ == db.conversations@[k as int].data@);
                }
                Some(c)
            },
            None => None,
        }
    }
}

/// Replacing one conversation row without touching its id preserves row
/// lookup and id uniqueness.
proof fn lemma_conv_update_frame(pre: Seq<ConversationRow>, post: Seq<ConversationRow>, k: int)
    requires
        0 <= k < pre.len(),
        post.len() == pre.len(),
        forall|j: int| 0 <= j < pre.len() && j != k ==> #[trigger] post[j] == pre[j],
        post[k].data.id@ == pre[k].data.id@,
        forall|a: int, b: int|
            0 <= a < b < pre.len() ==> (#[trigger] pre[a]).data.id@ != (#[trigger] pre[b]).data.id@,
    ensures
        forall|a: int, b: int|
            0 <= a < b < post.len() ==> (#[trigger] post[a]).data.id@ != (
            #[trigger] post[b]).data.id@,
        forall|cid: Seq<char>| #[trigger] has_conv_row(post, cid) <==> has_conv_row(pre, cid),
{
    assert(forall|j: int| 0 <= j < post.len() ==> (#[trigger] post[j]).data.id@ == pre[j].data.id@);
    assert forall|cid: Seq<char>| #[trigger] has_conv_row(post, cid) <==> has_conv_row(
        pre,
        cid,
    ) by {
        if has_conv_row(pre, cid) {
            let j = choose|j: int| 0 <= j < pre.len() && (#[trigger] pre[j]).data.id@ == cid;
            assert(post[j].data.id@ == cid);
        }
        if has_conv_row(post, cid) {
            let j = choose|j: int| 0 <= j < post.len() && (#[trigger] post[j]).data.id@ == cid;
            assert(pre[j].data.id@ == cid);
        }
    }
}

impl Conversation {
    /// Renames the conversation and advances `updated_at`; a missing id is
    /// a silent no-op, deleted rows are renamed like live ones.
    #[verifier::loop_isolation(false)]
    pub fn update_title_at(db: &mut Database, id: &str, new_title: &str, now: i64)
        requires
            old(db).wf(),
        ensures
            final(db).wf(),
            final(db).policy == old(db).policy,
            final(db).next_seq == old(db).next_seq,
            final(db).messages@ == old(db).messages@,
            final(db).index@ == old(db).index@,
            final(db).settings@ == old(db).settings@,
            has_conv_row(old(db).conversations@, id@) ==> exists|k: int|
                {
                    &&& 0 <= k < old(db).conversations@.len()
                    &&& (#[trigger] old(db).conversations@[k]).data.id@ == id@
                    &&& final(db).conversations@.len() == old(db).conversations@.len()
                    &&& forall|j: int|
                        0 <= j < old(db).conversations@.len() && j != k ==> final(db).conversations@[j] == old(db).conversations@[j]
                    &&& final(db).conversations@[k].data@ == (ConvV {
                        title: new_title@,
                        updated_at: bump(old(db).conversations@[k].data.updated_at as int, now as int),
                        ..old(db).conversations@[k].data@
                    })
                    &&& final(db).conversations@[k].deleted == old(db).conversations@[k].deleted
                    &&& final(db).conversations@[k].deleted_at == old(db).conversations@[
                        k
                    ].deleted_at
                },
            !has_conv_row(old(db).conversations@, id@) ==> *final(db) == *old(db),
    {
        match db.find_conv_row(id) {
            None => {},
            Some(k) => {
                let mut row = db.conversations.remove(k);
                row.data.title = String::from_str(new_title);
                row.data.updated_at = bump_ts(row.data.updated_at, now);
                db.conversations.insert(k, row);
                proof {
                    assert(db.conversations@ =~= old(db).conversations@.update(
                        k as int,
                        db.conversations@[k as int],
                    ));
                    lemma_conv_update_frame(old(db).conversations@, db.conversations@, k as int);
                }
            },
        }
    }

    /// Renames at the current wall-clock time.
    pub fn update_title(db: &mut Database, id: &str, new_title: &str)
        requires
            old(db).wf(),
        ensures
            final(db).wf(),
            final(db).policy == old(db).policy,
            final(db).next_seq == old(db).next_seq,
            final(db).messages@ == old(db).messages@,
            final(db).index@ == old(db).index@,
            final(db).settings@ == old(db).settings@,
            has_conv_row(old(db).conversations@, id@) ==> exists|k: int|
                {
                    &&& 0 <= k < old(db).conversations@.len()
                    &&& (#[trigger] old(db).conversations@[k]).data.id@ == id@
                    &&& final(db).conversations@.len() == old(db).conversations@.len()
                    &&& forall|j: int|
                        0 <= j < old(db).conversations@.len() && j != k ==> final(db).conversations@[j] == old(db).conversations@[j]
                    &&& final(db).conversations@[k].data@.title == new_title@
                    &&& final(db).conversations@[k].data@.updated_at >= old(db).conversations@[
                        k
                    ].data@.updated_at
                    &&& final(db).conversations@[k].data@ == (ConvV {
                        title: new_title@,
                        updated_at: final(db).conversations@[k].data@.updated_at,
                        ..old(db).conversations@[k].data@
                    })
                    &&& final(db).conversations@[k].deleted == old(db).conversations@[k].deleted
                    &&& final(db).conversations@[k].deleted_at == old(db).conversations@[
                        k
                    ].deleted_at
                },
            !has_conv_row(old(db).conversations@, id@) ==> *final(db) == *old(db),
    {
        let now = crate::ext::now_epoch_seconds();
        Conversation::update_title_at(db, id, new_title, now)
    }

    /// Advances `updated_at` after a write into the conversation; a missing
    /// id is a silent no-op.
    #[verifier::loop_isolation(false)]
    pub fn touch_at(db: &mut Database, id: &str, now: i64)
        requires
            old(db).wf(),
        ensures
            final(db).wf(),
            final(db).policy == old(db).policy,
            final(db).next_seq == old(db).next_seq,
            final(db).messages@ == old(db).messages@,
            final(db).index@ == old(db).index@,
            final(db).settings@ == old(db).settings@,
            has_conv_row(old(db).conversations@, id@) ==> exists|k: int|
                {
                    &&& 0 <= k < old(db).conversations@.len()
                    &&& (#[trigger] old(db).conversations@[k]).data.id@ == id@
                    &&& final(db).conversations@.len() == old(db).conversations@.len()
                    &&& forall|j: int|
                        0 <= j < old(db).conversations@.len() && j != k ==> final(db).conversations@[j] == old(db).conversations@[j]
                    &&& final(db).conversations@[k].data@ == (ConvV {
                        updated_at: bump(old(db).conversations@[k].data.updated_at as int, now as int),
                        ..old(db).conversations@[k].data@
                    })
                    &&& final(db).conversations@[k].deleted == old(db).conversations@[k].deleted
                    &&& final(db).conversations@[k].deleted_at == old(db).conversations@[
                        k
                    ].deleted_at
                },
            !has_conv_row(old(db).conversations@, id@) ==> *final(db) == *old(db),
    {
        match db.find_conv_row(id) {
            None => {},
            Some(k) => {
                let mut row = db.conversations.remove(k);
                row.data.updated_at = bump_ts(row.data.updated_at, now);
                db.conversations.insert(k, row);
                proof {
                    assert(db.conversations@ =~= old(db).conversations@.update(
                        k as int,
                        db.conversations@[k as int],
                    ));
                    lemma_conv_update_frame(old(db).conversations@, db.conversations@, k as int);
                }
            },
        }
    }

    /// Advances `updated_at` at the current wall-clock time.
    pub fn touch(db: &mut Database, id: &str)
        requires
            old(db).wf(),
        ensures
            final(db).wf(),
            final(db).policy == old(db).policy,
            final(db).next_seq == old(db).next_seq,
            final(db).messages@ == old(db).messages@,
            final(db).index@ == old(db).index@,
            final(db).settings@ == old(db).settings@,
            has_conv_row(old(db).conversations@, id@) ==> exists|k: int|
                {
                    &&& 0 <= k < old(db).conversations@.len()
                    &&& (#[trigger] old(db).conversations@[k]).data.id@ == id@
                    &&& final(db).conversations@.len() == old(db).conversations@.len()
                    &&& forall|j: int|
                        0 <= j < old(db).conversations@.len() && j != k ==> final(db).conversations@[j]
                            == old(db).conversations@[j]
                    &&& final(db).conversations@[k].data@.updated_at >= old(db).conversations@[
                        k
                    ].data@.updated_at
                    &&& final(db).conversations@[k].data@ == (ConvV {
                        updated_at: final(db).conversations@[k].data@.updated_at,
                        ..old(db).conversations@[k].data@
                    })
                    &&& final(db).conversations@[k].deleted == old(db).conversations@[k].deleted
                    &&& final(db).conversations@[k].deleted_at == old(db).conversations@[
                        k
                    ].deleted_at
                },
            !has_conv_row(old(db).conversations@, id@) ==> *final(db) == *old(db),
    {
        let now = crate::ext::now_epoch_seconds();
        Conversation::touch_at(db, id, now)
    }

    /// Marks the conversation restorable-deleted, or removes it and its
    /// messages outright, according to the store's deletion policy.
    #[verifier::loop_isolation(false)]
    pub fn delete_at(db: &mut Database, id: &str, now: i64)
        requires
            old(db).wf(),
        ensures
            final(db).wf(),
            final(db).policy == old(db).policy,
            final(db).next_seq == old(db).next_seq,
            final(db).settings@ == old(db).settings@,
            !has_conv_row(old(db).conversations@, id@) ==> *final(db) == *old(db),
            (old(db).policy == DeletionPolicy::Soft && has_conv_row(old(db).conversations@, id@))
                ==> exists|k: int|
                {
                    &&& 0 <= k < old(db).conversations@.len()
                    &&& (#[trigger] old(db).conversations@[k]).data.id@ == id@
                    &&& final(db).conversations@.len() == old(db).conversations@.len()
                    &&& forall|j: int|
                        0 <= j < old(db).conversations@.len() && j != k ==> final(db).conversations@[j] == old(db).conversations@[j]
                    &&& final(db).conversations@[k].data == old(db).conversations@[k].data
                    &&& final(db).conversations@[k].deleted
                    &&& final(db).conversations@[k].deleted_at == Some(now)
                    &&& final(db).messages@ == flag_msgs(old(db).messages@, id@)
                },
            (old(db).policy == DeletionPolicy::Hard && has_conv_row(old(db).conversations@, id@))
                ==> exists|k: int|
                {
                    &&& 0 <= k < old(db).conversations@.len()
                    &&& (#[trigger] old(db).conversations@[k]).data.id@ == id@
                    &&& final(db).conversations@ == old(db).conversations@.remove(k)
                    &&& final(db).messages@ == keep_msgs(old(db).messages@, id@)
                },
    {
        match db.find_conv_row(id) {
            None => {},
            Some(k) => {
                match db.policy {
                    DeletionPolicy::Soft => {
                        let mut row = db.conversations.remove(k);
                        row.deleted = true;
                        row.deleted_at = Some(now);
                        db.conversations.insert(k, row);
                        proof {
                            assert(db.conversations@ =~= old(db).conversations@.update(
                                k as int,
                                db.conversations@[k as int],
                            ));
                            lemma_conv_update_frame(
                                old(db).conversations@,
                                db.conversations@,
                                k as int,
                            );
                        }
                        Database::flag_conversation_messages(db, id);
                    },
                    DeletionPolicy::Hard => {
                        let _ = db.conversations.remove(k);
                        let ghost orig_msgs = old(db).messages@;
                        let mut kept: Vec<MessageRow> = Vec::new();
                        proof {
                            assert(kept@ =~= keep_msgs(orig_msgs.take(0), id@));
                        }
                        let ghost mut processed: int = 0;
                        while db.messages.len() > 0
                            invariant
                                0 <= processed <= orig_msgs.len(),
                                db.messages@ =~= orig_msgs.skip(processed),
                                kept@ == keep_msgs(orig_msgs.take(processed), id@),
                                0 <= k < old(db).conversations@.len(),
                                db.conversations@ == old(db).conversations@.remove(k as int),
                                db.policy == old(db).policy,
                                db.settings@ == old(db).settings@,
                                db.next_seq == old(db).next_seq,
                            decreases db.messages@.len(),
                        {
                            let row = db.messages.remove(0);
                            proof {
                                assert(row == orig_msgs[processed]);
                                assert(orig_msgs.take(processed + 1).drop_last() =~= orig_msgs.take(
                                    processed,
                                ));
                                assert(orig_msgs.take(processed + 1).last() == orig_msgs[processed]);
                            }
                            if !str_eq(row.data.conversation_id.as_str(), id) {
                                kept.push(row);
                            }
                            proof {
                                processed = processed + 1;
                                assert(db.messages@ =~= orig_msgs.skip(processed));
                            }
                        }
                        proof {
                            assert(orig_msgs.take(processed) =~= orig_msgs);
                        }
                        db.messages = kept;
                        db.index = Database::rebuild_index(&db.messages);
                        proof {
                            let pre = old(db).conversations@;
                            let post = db.conversations@;
                            lemma_keep_msgs(orig_msgs, id@);
                            assert(forall|j: int| 0 <= j < k ==> #[trigger] post[j] == pre[j]);
                            assert(forall|j: int|
                                k <= j < post.len() ==> #[trigger] post[j] == pre[j + 1]);
                            assert forall|a: int, b: int|
                                0 <= a < b < post.len() implies (#[trigger] post[a]).data.id@ != (
                            #[trigger] post[b]).data.id@ by {
                                if a >= k {
                                    assert(post[a] == pre[a + 1]);
                                }
                                if b >= k {
                                    assert(post[b] == pre[b + 1]);
                                }
                            }
                            assert forall|a: int|
                                0 <= a < db.messages@.len() implies has_conv_row(
                                post,
                                (#[trigger] db.messages@[a]).data.conversation_id@,
                            ) by {
                                let cid = db.messages@[a].data.conversation_id@;
                                let j = choose|j: int|
                                    0 <= j < orig_msgs.len() && db.messages@[a] == orig_msgs[j];
                                assert(has_conv_row(pre, cid));
                                let w = choose|w: int|
                                    0 <= w < pre.len() && (#[trigger] pre[w]).data.id@ == cid;
                                assert(cid != id@);
                                assert(w != k);
                                if w < k {
                                    assert(post[w].data.id@ == cid);
                                } else {
                                    assert(post[w - 1] == pre[w]);
                                }
                            }
                            assert forall|a: int|
                                0 <= a < db.messages@.len() implies role_ok(
                                (#[trigger] db.messages@[a]).data.role@,
                            ) by {
                                let j = choose|j: int|
                                    0 <= j < orig_msgs.len() && db.messages@[a] == orig_msgs[j];
                            }
                            assert forall|a: int|
                                0 <= a < db.messages@.len() implies (
                            #[trigger] db.messages@[a]).seq_no < db.next_seq by {
                                let j = choose|j: int|
                                    0 <= j < orig_msgs.len() && db.messages@[a] == orig_msgs[j];
                            }
                        }
                    },
                }
            },
        }
    }

    /// Deletes at the current wall-clock time.
    pub fn delete(db: &mut Database, id: &str)
        requires
            old(db).wf(),
        ensures
            final(db).wf(),
            final(db).policy == old(db).policy,
            final(db).next_seq == old(db).next_seq,
            final(db).settings@ == old(db).settings@,
            !has_conv_row(old(db).conversations@, id@) ==> *final(db) == *old(db),
            has_conv_row(old(db).conversations@, id@) ==> !has_live_conv(
                final(db).conversations@,
                id@,
            ),
            forall|other: Seq<char>|
                other != id@ ==> (has_live_conv(final(db).conversations@, other) <==> has_live_conv(
                    old(db).conversations@,
                    other,
                )),
            (old(db).policy == DeletionPolicy::Soft && has_conv_row(old(db).conversations@, id@))
                ==> exists|k: int|
                {
                    &&& 0 <= k < old(db).conversations@.len()
                    &&& (#[trigger] old(db).conversations@[k]).data.id@ == id@
                    &&& final(db).conversations@.len() == old(db).conversations@.len()
                    &&& forall|j: int|
                        0 <= j < old(db).conversations@.len() && j != k ==> final(db).conversations@[j]
                            == old(db).conversations@[j]
                    &&& final(db).conversations@[k].data == old(db).conversations@[k].data
                    &&& final(db).conversations@[k].deleted
                    &&& final(db).conversations@[k].deleted_at is Some
                    &&& final(db).messages@ == flag_msgs(old(db).messages@, id@)
                },
            (old(db).policy == DeletionPolicy::Hard && has_conv_row(old(db).conversations@, id@))
                ==> exists|k: int|
                {
                    &&& 0 <= k < old(db).conversations@.len()
                    &&& (#[trigger] old(db).conversations@[k]).data.id@ == id@
                    &&& final(db).conversations@ == old(db).conversations@.remove(k)
                    &&& final(db).messages@ == keep_msgs(old(db).messages@, id@)
                },
    {
        let now = crate::ext::now_epoch_seconds();
        Conversation::delete_at(db, id, now);
        proof {
            lemma_delete_hides(old(db).conversations@, final(db).conversations@, db.policy, id@);
        }
    }

    /// Clears the deleted flag and advances `updated_at`; a missing id is a
    /// silent no-op.  Under the hard policy there is nothing to restore.
    #[verifier::loop_isolation(false)]
    pub fn restore_at(db: &mut Database, id: &str, now: i64)
        requires
            old(db).wf(),
        ensures
            final(db).wf(),
            final(db).policy == old(db).policy,
            final(db).next_seq == old(db).next_seq,
            final(db).settings@ == old(db).settings@,
            has_conv_row(old(db).conversations@, id@) ==> exists|k: int|
                {
                    &&& 0 <= k < old(db).conversations@.len()
                    &&& (#[trigger] old(db).conversations@[k]).data.id@ == id@
                    &&& final(db).conversations@.len() == old(db).conversations@.len()
                    &&& forall|j: int|
                        0 <= j < old(db).conversations@.len() && j != k ==> final(db).conversations@[j] == old(db).conversations@[j]
                    &&& final(db).conversations@[k].data@ == (ConvV {
                        updated_at: bump(old(db).conversations@[k].data.updated_at as int, now as int),
                        ..old(db).conversations@[k].data@
                    })
                    &&& !final(db).conversations@[k].deleted
                    &&& final(db).conversations@[k].deleted_at is None
                    &&& (old(db).conversations@[k].deleted ==> final(db).messages@ == unflag_msgs(
                        old(db).messages@,
                        id@,
                    ))
                    &&& (!old(db).conversations@[k].deleted ==> final(db).messages@ == old(
                        db,
                    ).messages@ && final(db).index@ == old(db).index@)
                },
            !has_conv_row(old(db).conversations@, id@) ==> *final(db) == *old(db),
    {
        match db.find_conv_row(id) {
            None => {},
            Some(k) => {
                let was_deleted = db.conversations[k].deleted;
                let mut row = db.conversations.remove(k);
                row.deleted = false;
                row.deleted_at = None;
                row.data.updated_at = bump_ts(row.data.updated_at, now);
                db.conversations.insert(k, row);
                proof {
                    assert(db.conversations@ =~= old(db).conversations@.update(
                        k as int,
                        db.conversations@[k as int],
                    ));
                    lemma_conv_update_frame(old(db).conversations@, db.conversations@, k as int);
                }
                if was_deleted {
                    Database::unflag_conversation_messages(db, id);
                }
            },
        }
    }

    /// Restores at the current wall-clock time.
    pub fn restore(db: &mut Database, id: &str)
        requires
            old(db).wf(),
        ensures
            final(db).wf(),
            final(db).policy == old(db).policy,
            final(db).next_seq == old(db).next_seq,
            final(db).settings@ == old(db).settings@,
            !has_conv_row(old(db).conversations@, id@) ==> *final(db) == *old(db),
            has_conv_row(old(db).conversations@, id@) ==> exists|k: int|
                {
                    &&& 0 <= k < old(db).conversations@.len()
                    &&& (#[trigger] old(db).conversations@[k]).data.id@ == id@
                    &&& final(db).conversations@.len() == old(db).conversations@.len()
                    &&& forall|j: int|
                        0 <= j < old(db).conversations@.len() && j != k ==> final(db).conversations@[j]
                            == old(db).conversations@[j]
                    &&& final(db).conversations@[k].data@.updated_at >= old(db).conversations@[
                        k
                    ].data@.updated_at
                    &&& final(db).conversations@[k].data@ == (ConvV {
                        updated_at: final(db).conversations@[k].data@.updated_at,
                        ..old(db).conversations@[k].data@
                    })
                    &&& !final(db).conversations@[k].deleted
                    &&& final(db).conversations@[k].deleted_at is None
                    &&& (old(db).conversations@[k].deleted ==> final(db).messages@ == unflag_msgs(
                        old(db).messages@,
                        id@,
                    ))
                    &&& (!old(db).conversations@[k].deleted ==> final(db).messages@ == old(
                        db,
                    ).messages@)
                },
    {
        let now = crate::ext::now_epoch_seconds();
        Conversation::restore_at(db, id, now)
    }
}

/// After either form of delete, the id no longer names a live conversation,
/// and no other id changes liveness.
proof fn lemma_delete_hides(
    pre: Seq<ConversationRow>,
    post: Seq<ConversationRow>,
    policy: DeletionPolicy,
    id: Seq<char>,
)
    requires
        forall|a: int, b: int|
            0 <= a < b < pre.len() ==> (#[trigger] pre[a]).data.id@ != (#[trigger] pre[b]).data.id@,
        !has_conv_row(pre, id) ==> post == pre,
        has_conv_row(pre, id) ==> exists|k: int|
            {
                &&& 0 <= k < pre.len()
                &&& (#[trigger] pre[k]).data.id@ == id
                &&& (post == pre.remove(k) || (post.len() == pre.len() && post[k].deleted
                    && post[k].data == pre[k].data && forall|j: int|
                    0 <= j < pre.len() && j != k ==> #[trigger] post[j] == pre[j]))
            },
    ensures
        has_conv_row(pre, id) ==> !has_live_conv(post, id),
        forall|other: Seq<char>|
            other != id ==> (has_live_conv(post, other) <==> has_live_conv(pre, other)),
{
    if has_conv_row(pre, id) {
        let k = choose|k: int|
            {
                &&& 0 <= k < pre.len()
                &&& (#[trigger] pre[k]).data.id@ == id
                &&& (post == pre.remove(k) || (post.len() == pre.len() && post[k].deleted
                    && post[k].data == pre[k].data && forall|j: int|
                    0 <= j < pre.len() && j != k ==> #[trigger] post[j] == pre[j]))
            };
        if post == pre.remove(k) {
            assert(forall|j: int| 0 <= j < k ==> #[trigger] post[j] == pre[j]);
            assert(forall|j: int| k <= j < post.len() ==> #[trigger] post[j] == pre[j + 1]);
            assert forall|j: int| 0 <= j < post.len() implies (#[trigger] post[j]).data.id@
                != id by {
                if j >= k {
                    assert(post[j] == pre[j + 1]);
                }
            }
            assert(!has_live_conv(post, id));
            assert forall|other: Seq<char>| other != id implies (has_live_conv(post, other)
                <==> has_live_conv(pre, other)) by {
                if has_live_conv(pre, other) {
                    let w = choose|w: int|
                        0 <= w < pre.len() && (#[trigger] pre[w]).data.id@ == other && !pre[w].deleted;
                    assert(w != k);
                    if w < k {
                        assert(post[w] == pre[w]);
                    } else {
                        assert(post[w - 1] == pre[w]);
                    }
                }
                if has_live_conv(post, other) {
                    let w = choose|w: int|
                        0 <= w < post.len() && (#[trigger] post[w]).data.id@ == other
                            && !post[w].deleted;
                    if w < k {
                        assert(pre[w].data.id@ == other && !pre[w].deleted);
                    } else {
                        assert(pre[w + 1].data.id@ == other && !pre[w + 1].deleted);
                    }
                }
            }
        } else {
            assert forall|j: int| 0 <= j < post.len() implies !((#[trigger] post[j]).data.id@ == id
                && !post[j].deleted) by {
                if j != k {
                    assert(post[j] == pre[j]);
                    assert(pre[j].data.id@ != id);
                }
            }
            assert forall|other: Seq<char>| other != id implies (has_live_conv(post, other)
                <==> has_live_conv(pre, other)) by {
                if has_live_conv(pre, other) {
                    let w = choose|w: int|
                        0 <= w < pre.len() && (#[trigger] pre[w]).data.id@ == other && !pre[w].deleted;
                    assert(w != k);
                    assert(post[w] == pre[w]);
                }
                if has_live_conv(post, other) {
                    let w = choose|w: int|
                        0 <= w < post.len() && (#[trigger] post[w]).data.id@ == other
                            && !post[w].deleted;
                    assert(w != k);
                    assert(pre[w] == post[w]);
                }
            }
        }
    }
}

/// The views of a sequence of conversations.
pub open spec fn conv_views(s: Seq<Conversation>) -> Seq<ConvV> {
    s.map_values(|c: Conversation| c@)
}

/// The views of the non-deleted conversation rows, in table order.
pub open spec fn live_conv_views(rows: Seq<ConversationRow>) -> Seq<ConvV>
    decreases rows.len(),
{
    if rows.len() == 0 {
        Seq::empty()
    } else {
        let rest = live_conv_views(rows.drop_last());
        if !rows.last().deleted {
            rest.push(rows.last().data@)
        } else {
            rest
        }
    }
}

/// The views of the non-deleted rows whose title contains `q`.
pub open spec fn matching_conv_views(rows: Seq<ConversationRow>, q: Seq<char>) -> Seq<ConvV>
    decreases rows.len(),
{
    if rows.len() == 0 {
        Seq::empty()
    } else {
        let rest = matching_conv_views(rows.drop_last(), q);
        if !rows.last().deleted && contains_seq(rows.last().data.title@, q) {
            rest.push(rows.last().data@)
        } else {
            rest
        }
    }
}

/// Each element of [`live_conv_views`] is some non-deleted row's view, and
/// every non-deleted row appears.
#[verifier::spinoff_prover]
pub proof fn lemma_live_conv_views(rows: Seq<ConversationRow>)
    ensures
        live_conv_views(rows).len() <= rows.len(),
        forall|i: int|
            0 <= i < live_conv_views(rows).len() ==> exists|j: int|
                0 <= j < rows.len() && !rows[j].deleted && rows[j].data@ == #[trigger] live_conv_views(
                    rows,
                )[i],
        forall|j: int|
            0 <= j < rows.len() && !(#[trigger] rows[j]).deleted ==> live_conv_views(rows).contains(
                rows[j].data@,
            ),
    decreases rows.len(),
{
    if rows.len() > 0 {
        let rest = rows.drop_last();
        lemma_live_conv_views(rest);
        assert(forall|j: int| 0 <= j < rest.len() ==> #[trigger] rest[j] == rows[j]);
        let cur = live_conv_views(rows);
        let prev = live_conv_views(rest);
        assert forall|i: int| 0 <= i < cur.len() implies exists|j: int|
            0 <= j < rows.len() && !rows[j].deleted && rows[j].data@ == #[trigger] cur[i] by {
            if i < prev.len() {
                let j = choose|j: int|
                    0 <= j < rest.len() && !(#[trigger] rest[j]).deleted && rest[j].data@ == prev[i];
                assert(!rows[j].deleted && rows[j].data@ == cur[i]);
            } else {
                assert(!rows[rows.len() - 1].deleted && rows[rows.len() - 1].data@ == cur[i]);
            }
        }
        assert forall|j: int|
            0 <= j < rows.len() && !(#[trigger] rows[j]).deleted implies cur.contains(
            rows[j].data@,
        ) by {
            if j < rows.len() - 1 {
                assert(prev.contains(rest[j].data@));
                let w = choose|w: int| 0 <= w < prev.len() && prev[w] == rest[j].data@;
                assert(cur[w] == rows[j].data@);
            } else {
                assert(cur.last() == rows[j].data@);
            }
        }
    }
}

/// The same reading for [`matching_conv_views`]: exactly the non-deleted
/// rows whose title contains the query.
#[verifier::spinoff_prover]
pub proof fn lemma_matching_conv_views(rows: Seq<ConversationRow>, q: Seq<char>)
    ensures
        forall|i: int|
            0 <= i < matching_conv_views(rows, q).len() ==> exists|j: int|
                0 <= j < rows.len() && !rows[j].deleted && contains_seq(rows[j].data.title@, q)
                    && rows[j].data@ == #[trigger] matching_conv_views(rows, q)[i],
        forall|j: int|
            0 <= j < rows.len() && !(#[trigger] rows[j]).deleted && contains_seq(
                rows[j].data.title@,
                q,
            ) ==> matching_conv_views(rows, q).contains(rows[j].data@),
    decreases rows.len(),
{
    if rows.len() > 0 {
        let rest = rows.drop_last();
        lemma_matching_conv_views(rest, q);
        assert(forall|j: int| 0 <= j < rest.len() ==> #[trigger] rest[j] == rows[j]);
        let cur = matching_conv_views(rows, q);
        let prev = matching_conv_views(rest, q);
        assert forall|i: int| 0 <= i < cur.len() implies exists|j: int|
            0 <= j < rows.len() && !rows[j].deleted && contains_seq(rows[j].data.title@, q)
                && rows[j].data@ == #[trigger] cur[i] by {
            if i < prev.len() {
                let j = choose|j: int|
                    0 <= j < rest.len() && !(#[trigger] rest[j]).deleted && contains_seq(
                        rest[j].data.title@,
                        q,
                    ) && rest[j].data@ == prev[i];
                assert(!rows[j].deleted && rows[j].data@ == cur[i]);
            } else {
                assert(rows[rows.len() - 1].data@ == cur[i]);
            }
        }
        assert forall|j: int|
            0 <= j < rows.len() && !(#[trigger] rows[j]).deleted && contains_seq(
                rows[j].data.title@,
                q,
            ) implies cur.contains(rows[j].data@) by {
            if j < rows.len() - 1 {
                assert(prev.contains(rest[j].data@));
                let w = choose|w: int| 0 <= w < prev.len() && prev[w] == rest[j].data@;
                assert(cur[w] == rows[j].data@);
            } else {
                assert(cur.last() == rows[j].data@);
            }
        }
    }
}

/// Every returned conversation is the data of some non-deleted row.
pub open spec fn results_are_live(r: Seq<Conversation>, rows: Seq<ConversationRow>) -> bool {
    forall|k: int|
        #![trigger r[k]]
        0 <= k < r.len() ==> exists|j: int|
            #![trigger rows[j].data]
            0 <= j < rows.len() && !rows[j].deleted && r[k]@ == rows[j].data@
}

/// Every returned conversation is the data of some non-deleted row whose
/// title contains the query.
pub open spec fn results_match_query(
    r: Seq<Conversation>,
    rows: Seq<ConversationRow>,
    q: Seq<char>,
) -> bool {
    forall|k: int|
        #![trigger r[k]]
        0 <= k < r.len() ==> exists|j: int|
            #![trigger rows[j].data]
            0 <= j < rows.len() && !rows[j].deleted && contains_seq(rows[j].data.title@, q)
                && r[k]@ == rows[j].data@
}

/// A sorted prefix of the matching set only holds matching records.
#[verifier::spinoff_prover]
proof fn lemma_prefix_matches(
    r: Seq<Conversation>,
    rows: Seq<ConversationRow>,
    q: Seq<char>,
    full: Seq<ConvV>,
)
    requires
        conv_views(r) == full.take(r.len() as int),
        r.len() <= full.len(),
        full.to_multiset() == matching_conv_views(rows, q).to_multiset(),
    ensures
        results_match_query(r, rows, q),
{
    broadcast use vstd::seq_lib::group_to_multiset_ensures;

    lemma_matching_conv_views(rows, q);
    assert forall|k: int| #![trigger r[k]] 0 <= k < r.len() implies (exists|j: int|
        #![trigger rows[j].data]
        0 <= j < rows.len() && !rows[j].deleted && contains_seq(rows[j].data.title@, q) && r[k]@
            == rows[j].data@) by {
        assert(conv_views(r)[k] == r[k]@);
        assert(conv_views(r)[k] == full[k]);
        assert(full.contains(full[k]));
        assert(matching_conv_views(rows, q).to_multiset().contains(full[k]));
        assert(matching_conv_views(rows, q).contains(full[k]));
        let w = choose|w: int|
            0 <= w < matching_conv_views(rows, q).len() && matching_conv_views(rows, q)[w]
                == full[k];
        let j = choose|j: int|
            0 <= j < rows.len() && !rows[j].deleted && contains_seq(rows[j].data.title@, q)
                && rows[j].data@ == matching_conv_views(rows, q)[w];
        assert(0 <= j < rows.len() && !rows[j].deleted && contains_seq(rows[j].data.title@, q)
            && r[k]@ == rows[j].data@);
    }
}

/// Newest first.
pub open spec fn sorted_by_updated_desc(s: Seq<ConvV>) -> bool {
    forall|a: int, b: int| 0 <= a < b < s.len() ==> (#[trigger] s[a]).updated_at >= (#[trigger] s[b]).updated_at
}

/// Selection sort, most recently updated first.
#[verifier::loop_isolation(false)]
#[verifier::rlimit(60)]
fn sort_convs_desc(input: Vec<Conversation>) -> (r: Vec<Conversation>)
    ensures
        conv_views(r@).to_multiset() == conv_views(input@).to_multiset(),
        r@.len() == input@.len(),
        sorted_by_updated_desc(conv_views(r@)),
{
    let mut v = input;
    let ghost orig = conv_views(v@);
    let mut out: Vec<Conversation> = Vec::new();
    while v.len() > 0
        invariant
            (conv_views(out@) + conv_views(v@)).to_multiset() == orig.to_multiset(),
            out@.len() + v@.len() == orig.len(),
            sorted_by_updated_desc(conv_views(out@)),
            forall|x: int, y: int|
                0 <= x < out@.len() && 0 <= y < v@.len() ==> (#[trigger] out@[x]).updated_at >= (
                #[trigger] v@[y]).updated_at,
        decreases v@.len(),
    {
        let mut best: usize = 0;
        let mut j: usize = 1;
        while j < v.len()
            invariant
                1 <= j <= v@.len(),
                best < j,
                forall|t: int|
                    0 <= t < j ==> (#[trigger] v@[t]).updated_at <= v@[best as int].updated_at,
            decreases v@.len() - j,
        {
            if v[j].updated_at > v[best].updated_at {
                best = j;
            }
            j = j + 1;
        }
        let ghost prev_v = v@;
        let ghost prev_out = out@;
        let x = v.remove(best);
        out.push(x);
        proof {
            broadcast use vstd::seq_lib::group_to_multiset_ensures;

            assert(conv_views(v@) =~= conv_views(prev_v).remove(best as int));
            assert(conv_views(out@) =~= conv_views(prev_out).push(conv_views(prev_v)[best as int]));
            let xv = conv_views(prev_v)[best as int];
            vstd::seq_lib::lemma_multiset_commutative(conv_views(prev_out), conv_views(prev_v));
            vstd::seq_lib::lemma_multiset_commutative(conv_views(out@), conv_views(v@));
            assert(conv_views(prev_v).to_multiset().contains(xv));
            assert(conv_views(out@).to_multiset().add(conv_views(v@).to_multiset())
                =~= conv_views(prev_out).to_multiset().add(conv_views(prev_v).to_multiset()));
            assert forall|y: int|
                0 <= y < v@.len() implies (#[trigger] v@[y]).updated_at
                <= out@.last().updated_at by {
                if y < best {
                    assert(v@[y] == prev_v[y]);
                } else {
                    assert(v@[y] == prev_v[y + 1]);
                }
            }
        }
    }
    proof {
        assert(conv_views(out@) + conv_views(v@) =~= conv_views(out@));
    }
    out
}

impl Conversation {
    /// At most `limit` non-deleted conversations, most recently updated
    /// first; a negative limit means no limit, as the storage engine reads
    /// it.
    #[verifier::loop_isolation(false)]
    #[verifier::rlimit(60)]
    pub fn get_all(db: &Database, limit: i64) -> (r: Vec<Conversation>)
        requires
            db.wf(),
        ensures
            r@.len() as int == (if limit < 0 || limit as int > live_conv_views(
                db.conversations@,
            ).len() {
                live_conv_views(db.conversations@).len() as int
            } else {
                limit as int
            }),
            forall|a: int, b: int|
                0 <= a < b < r@.len() ==> (#[trigger] r@[a]).updated_at >= (
                #[trigger] r@[b]).updated_at,
            results_are_live(r@, db.conversations@),
            exists|full: Seq<ConvV>|
                {
                    &&& #[trigger] full.to_multiset() == live_conv_views(
                        db.conversations@,
                    ).to_multiset()
                    &&& sorted_by_updated_desc(full)
                    &&& conv_views(r@) == full.take(r@.len() as int)
                },
    {
        let n = db.conversations.len();
        let mut collected: Vec<Conversation> = Vec::new();
        proof {
            assert(conv_views(collected@) =~= live_conv_views(db.conversations@.take(0)));
        }
        let mut i: usize = 0;
        while i < n
            invariant
                i <= n,
                conv_views(collected@) == live_conv_views(db.conversations@.take(i as int)),
            decreases n - i,
        {
            let ghost pre = collected@;
            if !db.conversations[i].deleted {
                let c = clone_conversation(&db.conversations[i].data);
                collected.push(c);
                proof {
                    assert(conv_views(collected@) =~= conv_views(pre).push(
                        db.conversations@[i as int].data@,
                    ));
                }
            }
            proof {
                assert(db.conversations@.take(i + 1).drop_last() =~= db.conversations@.take(
                    i as int,
                ));
                assert(db.conversations@.take(i + 1).last() == db.conversations@[i as int]);
            }
            i = i + 1;
        }
        proof {
            assert(db.conversations@.take(n as int) =~= db.conversations@);
        }
        let mut sorted = sort_convs_desc(collected);
        let total = sorted.len();
        let keep: usize = if limit < 0 {
            total
        } else if limit as u64 >= total as u64 {
            total
        } else {
            limit as usize
        };
        let ghost full = conv_views(sorted@);
        sorted.truncate(keep);
        proof {
            broadcast use vstd::seq_lib::group_to_multiset_ensures;

            assert(conv_views(sorted@) =~= full.take(keep as int));
            lemma_live_conv_views(db.conversations@);
            assert forall|a: int, b: int|
                0 <= a < b < sorted@.len() implies (#[trigger] sorted@[a]).updated_at >= (
            #[trigger] sorted@[b]).updated_at by {
                assert(conv_views(sorted@)[a] == sorted@[a]@);
                assert(conv_views(sorted@)[b] == sorted@[b]@);
                assert(full[a].updated_at >= full[b].updated_at);
            }
            assert forall|k: int| 0 <= k < sorted@.len() implies exists|j: int|
                0 <= j < db.conversations@.len() && !db.conversations@[j].deleted && (
            #[trigger] sorted@[k])@ == db.conversations@[j].data@ by {
                assert(conv_views(sorted@)[k] == full[k]);
                assert(full.contains(full[k]));
                assert(live_conv_views(db.conversations@).to_multiset().contains(full[k]));
                assert(live_conv_views(db.conversations@).contains(full[k]));
                let w = choose|w: int|
                    0 <= w < live_conv_views(db.conversations@).len() && live_conv_views(
                        db.conversations@,
                    )[w] == full[k];
                let j = choose|j: int|
                    0 <= j < db.conversations@.len() && !(#[trigger] db.conversations@[j]).deleted
                        && db.conversations@[j].data@ == live_conv_views(db.conversations@)[w];
                assert(sorted@[k]@ == db.conversations@[j].data@);
            }
            assert(results_are_live(sorted@, db.conversations@));
        }
        sorted
    }

    /// At most `limit` non-deleted conversations whose title contains the
    /// query, most recently updated first.
    #[verifier::loop_isolation(false)]
    #[verifier::rlimit(60)]
    pub fn search(db: &Database, query: &str, limit: i64) -> (r: Vec<Conversation>)
        requires
            db.wf(),
        ensures
            r@.len() as int == (if limit < 0 || limit as int > matching_conv_views(
                db.conversations@,
                query@,
            ).len() {
                matching_conv_views(db.conversations@, query@).len() as int
            } else {
                limit as int
            }),
            forall|a: int, b: int|
                0 <= a < b < r@.len() ==> (#[trigger] r@[a]).updated_at >= (
                #[trigger] r@[b]).updated_at,
            results_match_query(r@, db.conversations@, query@),
            exists|full: Seq<ConvV>|
                {
                    &&& #[trigger] full.to_multiset() == matching_conv_views(
                        db.conversations@,
                        query@,
                    ).to_multiset()
                    &&& sorted_by_updated_desc(full)
                    &&& conv_views(r@) == full.take(r@.len() as int)
                },
    {
        let n = db.conversations.len();
        let mut collected: Vec<Conversation> = Vec::new();
        proof {
            assert(conv_views(collected@) =~= matching_conv_views(
                db.conversations@.take(0),
                query@,
            ));
        }
        let mut i: usize = 0;
        while i < n
            invariant
                i <= n,
                conv_views(collected@) == matching_conv_views(
                    db.conversations@.take(i as int),
                    query@,
                ),
            decreases n - i,
        {
            let ghost pre = collected@;
            if !db.conversations[i].deleted && crate::text::str_contains(
                db.conversations[i].data.title.as_str(),
                query,
            ) {
                let c = clone_conversation(&db.conversations[i].data);
                collected.push(c);
                proof {
                    assert(conv_views(collected@) =~= conv_views(pre).push(
                        db.conversations@[i as int].data@,
                    ));
                }
            }
            proof {
                assert(db.conversations@.take(i + 1).drop_last() =~= db.conversations@.take(
                    i as int,
                ));
                assert(db.conversations@.take(i + 1).last() == db.conversations@[i as int]);
            }
            i = i + 1;
        }
        proof {
            assert(db.conversations@.take(n as int) =~= db.conversations@);
        }
        let mut sorted = sort_convs_desc(collected);
        let total = sorted.len();
        let keep: usize = if limit < 0 {
            total
        } else if limit as u64 >= total as u64 {
            total
        } else {
            limit as usize
        };
        let ghost full = conv_views(sorted@);
        sorted.truncate(keep);
        proof {
            broadcast use vstd::seq_lib::group_to_multiset_ensures;

            assert(conv_views(sorted@) =~= full.take(keep as int));
            assert forall|a: int, b: int|
                0 <= a < b < sorted@.len() implies (#[trigger] sorted@[a]).updated_at >= (
            #[trigger] sorted@[b]).updated_at by {
                assert(conv_views(sorted@)[a] == sorted@[a]@);
                assert(conv_views(sorted@)[b] == sorted@[b]@);
                assert(full[a].updated_at >= full[b].updated_at);
            }
            lemma_prefix_matches(sorted@, db.conversations@, query@, full);
        }
        sorted
    }
}

impl Database {
    /// The position of the message row carrying `id`, deleted or not.
    #[verifier::loop_isolation(false)]
    fn find_msg_row(&self, id: &str) -> (r: Option<usize>)
        ensures
            match r {
                Some(k) => k < self.messages@.len() && self.messages@[k as int].data.id@ == id@,
                None => !has_msg_row(self.messages@, id@),
            },
    {
        let n = self.messages.len();
        let mut i: usize = 0;
        while i < n
            invariant
                i <= n,
                forall|k: int| 0 <= k < i ==> (#[trigger] self.messages@[k]).data.id@ != id@,
            decreases n - i,
        {
            if str_eq(self.messages[i].data.id.as_str(), id) {
                return Some(i);
            }
            i = i + 1;
        }
        None
    }
}

impl Message {
    /// Inserts a message with caller-chosen identity and timestamp, indexes
    /// it, and leaves the owning conversation's timestamps alone (the
    /// import path).  The checks and their order: the conversation must be
    /// live, the role valid, the id fresh, the row counter not spent.
    #[verifier::loop_isolation(false)]
    #[verifier::rlimit(60)]
    pub fn create_with_id(db: &mut Database, new_msg: NewMessageWithId) -> (r: Result<
        Message,
        StoreError,
    >)
        requires
            old(db).wf(),
        ensures
            final(db).wf(),
            final(db).policy == old(db).policy,
            final(db).conversations@ == old(db).conversations@,
            final(db).settings@ == old(db).settings@,
            match r {
                Ok(m) => {
                    &&& has_live_conv(old(db).conversations@, new_msg.conversation_id@)
                    &&& role_ok(new_msg.role@)
                    &&& !has_msg_row(old(db).messages@, new_msg.id@)
                    &&& old(db).next_seq < u64::MAX
                    &&& m@ == (MsgV {
                        id: new_msg.id@,
                        conversation_id: new_msg.conversation_id@,
                        role: new_msg.role@,
                        content: new_msg.content@,
                        timestamp: new_msg.timestamp as int,
                        tokens_used: opt_i64_view(new_msg.tokens_used),
                    })
                    &&& final(db).messages@.len() == old(db).messages@.len() + 1
                    &&& forall|k: int|
                        0 <= k < old(db).messages@.len() ==> final(db).messages@[k] == old(
                            db,
                        ).messages@[k]
                    &&& final(db).messages@.last().data@ == m@
                    &&& final(db).messages@.last().seq_no == old(db).next_seq
                    &&& !final(db).messages@.last().deleted
                    &&& final(db).next_seq == old(db).next_seq + 1
                },
                Err(e) => {
                    &&& *final(db) == *old(db)
                    &&& (e == StoreError::MissingConversation <==> !has_live_conv(
                        old(db).conversations@,
                        new_msg.conversation_id@,
                    ))
                    &&& (e == StoreError::InvalidRole <==> has_live_conv(
                        old(db).conversations@,
                        new_msg.conversation_id@,
                    ) && !role_ok(new_msg.role@))
                    &&& (e == StoreError::DuplicateId <==> has_live_conv(
                        old(db).conversations@,
                        new_msg.conversation_id@,
                    ) && role_ok(new_msg.role@) && has_msg_row(old(db).messages@, new_msg.id@))
                    &&& (e == StoreError::Exhausted <==> has_live_conv(
                        old(db).conversations@,
                        new_msg.conversation_id@,
                    ) && role_ok(new_msg.role@) && !has_msg_row(old(db).messages@, new_msg.id@)
                        && old(db).next_seq == u64::MAX)
                },
            },
    {
        let live = db.find_live_conv(new_msg.conversation_id.as_str());
        if live.is_none() {
            return Err(StoreError::MissingConversation);
        }
        let role_valid = str_eq(new_msg.role.as_str(), "user") || str_eq(
            new_msg.role.as_str(),
            "assistant",
        ) || str_eq(new_msg.role.as_str(), "system");
        if !role_valid {
            return Err(StoreError::InvalidRole);
        }
        if db.find_msg_row(new_msg.id.as_str()).is_some() {
            proof {
                assert(has_msg_row(old(db).messages@, new_msg.id@));
            }
            return Err(StoreError::DuplicateId);
        }
        if db.next_seq == u64::MAX {
            return Err(StoreError::Exhausted);
        }
        let data = Message {
            id: new_msg.id,
            conversation_id: new_msg.conversation_id,
            role: new_msg.role,
            content: new_msg.content,
            timestamp: new_msg.timestamp,
            tokens_used: new_msg.tokens_used,
        };
        let copy = clone_message(&data);
        let seq_no = db.next_seq;
        db.index.push(
            IndexEntry {
                seq_no,
                content: data.content.clone(),
                conversation_id: data.conversation_id.clone(),
            },
        );
        db.messages.push(MessageRow { seq_no, data, deleted: false });
        db.next_seq = seq_no + 1;
        proof {
            let post = db.messages@;
            let pre = old(db).messages@;
            assert(post.drop_last() =~= pre);
            assert forall|a: int, b: int|
                0 <= a < b < post.len() implies (#[trigger] post[a]).seq_no < (
            #[trigger] post[b]).seq_no by {
                if b < post.len() - 1 {
                    assert(post[a] == pre[a]);
                    assert(post[b] == pre[b]);
                } else {
                    assert(post[a] == pre[a]);
                }
            }
            assert forall|a: int, b: int|
                0 <= a < b < post.len() implies (#[trigger] post[a]).data.id@ != (
            #[trigger] post[b]).data.id@ by {
                if b < post.len() - 1 {
                    assert(post[a] == pre[a]);
                    assert(post[b] == pre[b]);
                } else {
                    assert(post[a] == pre[a]);
                }
            }
            assert forall|a: int|
                0 <= a < post.len() implies role_ok((#[trigger] post[a]).data.role@) by {
                if a < post.len() - 1 {
                    assert(post[a] == pre[a]);
                }
            }
            assert forall|a: int|
                0 <= a < post.len() implies has_conv_row(
                db.conversations@,
                (#[trigger] post[a]).data.conversation_id@,
            ) by {
                if a < post.len() - 1 {
                    assert(post[a] == pre[a]);
                } else {
                    let w = choose|w: int|
                        0 <= w < db.conversations@.len() && (
                        #[trigger] db.conversations@[w]).data.id@ == post[a].data.conversation_id@
                            && !db.conversations@[w].deleted;
                    assert(db.conversations@[w].data.id@ == post[a].data.conversation_id@);
                }
            }
            assert(live_index_v(post) =~= live_index_v(pre).push(entry_of(post.last())));
            assert(idx_views(db.index@) =~= idx_views(old(db).index@).push(
                db.index@.last()@,
            ));
        }
        Ok(copy)
    }

    /// Inserts a message under a supplied fresh id, stamped `now`, indexes
    /// it and advances the owning conversation's `updated_at`, all in one
    /// unit of work.
    #[verifier::rlimit(60)]
    pub fn create_at(db: &mut Database, new_msg: NewMessage, id: String, now: i64) -> (r: Result<
        Message,
        StoreError,
    >)
        requires
            old(db).wf(),
        ensures
            final(db).wf(),
            final(db).policy == old(db).policy,
            final(db).settings@ == old(db).settings@,
            match r {
                Ok(m) => {
                    &&& has_live_conv(old(db).conversations@, new_msg.conversation_id@)
                    &&& role_ok(new_msg.role@)
                    &&& !has_msg_row(old(db).messages@, id@)
                    &&& old(db).next_seq < u64::MAX
                    &&& m@ == (MsgV {
                        id: id@,
                        conversation_id: new_msg.conversation_id@,
                        role: new_msg.role@,
                        content: new_msg.content@,
                        timestamp: now as int,
                        tokens_used: opt_i64_view(new_msg.tokens_used),
                    })
                    &&& final(db).messages@.len() == old(db).messages@.len() + 1
                    &&& forall|k: int|
                        0 <= k < old(db).messages@.len() ==> final(db).messages@[k] == old(
                            db,
                        ).messages@[k]
                    &&& final(db).messages@.last().data@ == m@
                    &&& final(db).messages@.last().seq_no == old(db).next_seq
                    &&& !final(db).messages@.last().deleted
                    &&& final(db).next_seq == old(db).next_seq + 1
                    &&& exists|k: int|
                        {
                            &&& 0 <= k < old(db).conversations@.len()
                            &&& (#[trigger] old(db).conversations@[k]).data.id@
                                == new_msg.conversation_id@
                            &&& final(db).conversations@.len() == old(db).conversations@.len()
                            &&& forall|j: int|
                                0 <= j < old(db).conversations@.len() && j != k ==> final(db).conversations@[j]
                                    == old(db).conversations@[j]
                            &&& final(db).conversations@[k].data@ == (ConvV {
                                updated_at: bump(
                                    old(db).conversations@[k].data.updated_at as int,
                                    now as int,
                                ),
                                ..old(db).conversations@[k].data@
                            })
                            &&& final(db).conversations@[k].deleted == old(db).conversations@[
                                k
                            ].deleted
                            &&& final(db).conversations@[k].deleted_at == old(db).conversations@[
                                k
                            ].deleted_at
                        }
                },
                Err(e) => {
                    &&& *final(db) == *old(db)
                    &&& (e == StoreError::MissingConversation <==> !has_live_conv(
                        old(db).conversations@,
                        new_msg.conversation_id@,
                    ))
                    &&& (e == StoreError::InvalidRole <==> has_live_conv(
                        old(db).conversations@,
                        new_msg.conversation_id@,
                    ) && !role_ok(new_msg.role@))
                    &&& (e == StoreError::DuplicateId <==> has_live_conv(
                        old(db).conversations@,
                        new_msg.conversation_id@,
                    ) && role_ok(new_msg.role@) && has_msg_row(old(db).messages@, id@))
                    &&& (e == StoreError::Exhausted <==> has_live_conv(
                        old(db).conversations@,
                        new_msg.conversation_id@,
                    ) && role_ok(new_msg.role@) && !has_msg_row(old(db).messages@, id@) && old(
                        db,
                    ).next_seq == u64::MAX)
                },
            },
    {
        let cid = new_msg.conversation_id.clone();
        let created = Message::create_with_id(
            db,
            NewMessageWithId {
                id,
                conversation_id: new_msg.conversation_id,
                role: new_msg.role,
                content: new_msg.content,
                timestamp: now,
                tokens_used: new_msg.tokens_used,
            },
        );
        match created {
            Ok(m) => {
                proof {
                    let w = choose|w: int|
                        0 <= w < old(db).conversations@.len() && (
                        #[trigger] old(db).conversations@[w]).data.id@ == cid@ && !old(
                            db,
                        ).conversations@[w].deleted;
                    assert(has_conv_row(db.conversations@, cid@));
                }
                let ghost mid = *db;
                Conversation::touch_at(db, cid.as_str(), now);
                proof {
                    let k0 = choose|k: int|
                        {
                            &&& 0 <= k < mid.conversations@.len()
                            &&& (#[trigger] mid.conversations@[k]).data.id@ == cid@
                            &&& db.conversations@.len() == mid.conversations@.len()
                            &&& forall|j: int|
                                0 <= j < mid.conversations@.len() && j != k
                                    ==> db.conversations@[j] == mid.conversations@[j]
                            &&& db.conversations@[k].data@ == (ConvV {
                                updated_at: bump(
                                    mid.conversations@[k].data.updated_at as int,
                                    now as int,
                                ),
                                ..mid.conversations@[k].data@
                            })
                            &&& db.conversations@[k].deleted == mid.conversations@[k].deleted
                            &&& db.conversations@[k].deleted_at == mid.conversations@[k].deleted_at
                        };
                    assert(mid.conversations@ == old(db).conversations@);
                    assert((#[trigger] old(db).conversations@[k0]).data.id@ == cid@);
                }
                Ok(m)
            },
            Err(e) => Err(e),
        }
    }

    /// Inserts a message under a freshly drawn identifier at the current
    /// wall-clock time.  Which identifier and time come back cannot be
    /// promised, so the contract holds for every outcome; beyond the
    /// caller's own mistakes it can fail only on an identifier collision.
    #[verifier::rlimit(60)]
    pub fn create(db: &mut Database, new_msg: NewMessage) -> (r: Result<Message, StoreError>)
        requires
            old(db).wf(),
        ensures
            final(db).wf(),
            final(db).policy == old(db).policy,
            final(db).settings@ == old(db).settings@,
            match r {
                Ok(m) => {
                    &&& has_live_conv(old(db).conversations@, new_msg.conversation_id@)
                    &&& role_ok(new_msg.role@)
                    &&& m@.conversation_id == new_msg.conversation_id@
                    &&& m@.role == new_msg.role@
                    &&& m@.content == new_msg.content@
                    &&& m@.tokens_used == opt_i64_view(new_msg.tokens_used)
                    &&& final(db).messages@.len() == old(db).messages@.len() + 1
                    &&& forall|k: int|
                        0 <= k < old(db).messages@.len() ==> final(db).messages@[k] == old(
                            db,
                        ).messages@[k]
                    &&& final(db).messages@.last().data@ == m@
                    &&& final(db).messages@.last().seq_no == old(db).next_seq
                    &&& !final(db).messages@.last().deleted
                    &&& final(db).next_seq == old(db).next_seq + 1
                    &&& exists|k: int|
                        {
                            &&& 0 <= k < old(db).conversations@.len()
                            &&& (#[trigger] old(db).conversations@[k]).data.id@
                                == new_msg.conversation_id@
                            &&& final(db).conversations@.len() == old(db).conversations@.len()
                            &&& forall|j: int|
                                0 <= j < old(db).conversations@.len() && j != k ==> final(db).conversations@[j]
                                    == old(db).conversations@[j]
                            &&& final(db).conversations@[k].data@.updated_at >= old(
                                db,
                            ).conversations@[k].data@.updated_at
                            &&& (old(db).conversations@[k].data@.updated_at < i64::MAX as int
                                ==> final(db).conversations@[k].data@.updated_at > old(
                                db,
                            ).conversations@[k].data@.updated_at)
                            &&& final(db).conversations@[k].data@ == (ConvV {
                                updated_at: final(db).conversations@[k].data@.updated_at,
                                ..old(db).conversations@[k].data@
                            })
                            &&& final(db).conversations@[k].deleted == old(db).conversations@[
                                k
                            ].deleted
                            &&& final(db).conversations@[k].deleted_at == old(db).conversations@[
                                k
                            ].deleted_at
                        }
                },
                Err(e) => {
                    &&& *final(db) == *old(db)
                    &&& (e == StoreError::MissingConversation <==> !has_live_conv(
                        old(db).conversations@,
                        new_msg.conversation_id@,
                    ))
                    &&& (e == StoreError::InvalidRole <==> has_live_conv(
                        old(db).conversations@,
                        new_msg.conversation_id@,
                    ) && !role_ok(new_msg.role@))
                    &&& (e == StoreError::DuplicateId ==> old(db).messages@.len() > 0)
                    &&& (e == StoreError::Exhausted ==> old(db).next_seq == u64::MAX)
                },
            },
    {
        let id = crate::ext::fresh_uuid();
        let now = crate::ext::now_epoch_seconds();
        Message::create_at(db, new_msg, id, now)
    }

    /// Deletes the message row carrying `id` and its index entry in one
    /// unit of work: under the soft policy the row is flagged and only the
    /// index entry goes, under the hard policy the row goes too.  A missing
    /// id is a silent no-op.
    #[verifier::loop_isolation(false)]
    #[verifier::rlimit(60)]
    pub fn delete(db: &mut Database, id: &str)
        requires
            old(db).wf(),
        ensures
            final(db).wf(),
            final(db).policy == old(db).policy,
            final(db).conversations@ == old(db).conversations@,
            final(db).settings@ == old(db).settings@,
            final(db).next_seq == old(db).next_seq,
            !has_msg_row(old(db).messages@, id@) ==> *final(db) == *old(db),
            (old(db).policy == DeletionPolicy::Hard && has_msg_row(old(db).messages@, id@))
                ==> exists|k: int|
                {
                    &&& 0 <= k < old(db).messages@.len()
                    &&& (#[trigger] old(db).messages@[k]).data.id@ == id@
                    &&& final(db).messages@ == old(db).messages@.remove(k)
                },
            (old(db).policy == DeletionPolicy::Soft && has_msg_row(old(db).messages@, id@))
                ==> exists|k: int|
                {
                    &&& 0 <= k < old(db).messages@.len()
                    &&& (#[trigger] old(db).messages@[k]).data.id@ == id@
                    &&& final(db).messages@.len() == old(db).messages@.len()
                    &&& forall|j: int|
                        0 <= j < old(db).messages@.len() && j != k ==> final(db).messages@[j]
                            == old(db).messages@[j]
                    &&& final(db).messages@[k].data == old(db).messages@[k].data
                    &&& final(db).messages@[k].seq_no == old(db).messages@[k].seq_no
                    &&& final(db).messages@[k].deleted
                },
    {
        match db.find_msg_row(id) {
            None => {},
            Some(k) => {
                match db.policy {
                    DeletionPolicy::Soft => {
                        let mut row = db.messages.remove(k);
                        row.deleted = true;
                        db.messages.insert(k, row);
                        proof {
                            assert(db.messages@ =~= old(db).messages@.update(
                                k as int,
                                db.messages@[k as int],
                            ));
                        }
                    },
                    DeletionPolicy::Hard => {
                        let _ = db.messages.remove(k);
                    },
                }
                db.index = Database::rebuild_index(&db.messages);
                proof {
                    let pre = old(db).messages@;
                    let post = db.messages@;
                    if db.policy == DeletionPolicy::Hard {
                        assert(forall|j: int| 0 <= j < k ==> #[trigger] post[j] == pre[j]);
                        assert(forall|j: int|
                            k <= j < post.len() ==> #[trigger] post[j] == pre[j + 1]);
                        assert forall|a: int, b: int|
                            0 <= a < b < post.len() implies (#[trigger] post[a]).seq_no < (
                        #[trigger] post[b]).seq_no && (#[trigger] post[a]).data.id@ != (
                        #[trigger] post[b]).data.id@ by {
                            if a >= k {
                                assert(post[a] == pre[a + 1]);
                            }
                            if b >= k {
                                assert(post[b] == pre[b + 1]);
                            }
                        }
                        assert forall|a: int|
                            0 <= a < post.len() implies role_ok((#[trigger] post[a]).data.role@)
                            && (#[trigger] post[a]).seq_no < db.next_seq && has_conv_row(
                            db.conversations@,
                            post[a].data.conversation_id@,
                        ) by {
                            if a >= k {
                                assert(post[a] == pre[a + 1]);
                            }
                        }
                    } else {
                        assert forall|a: int, b: int|
                            0 <= a < b < post.len() implies (#[trigger] post[a]).seq_no < (
                        #[trigger] post[b]).seq_no && (#[trigger] post[a]).data.id@ != (
                        #[trigger] post[b]).data.id@ by {
                            assert(post[a].seq_no == pre[a].seq_no);
                            assert(post[b].seq_no == pre[b].seq_no);
                            assert(post[a].data.id@ == pre[a].data.id@);
                            assert(post[b].data.id@ == pre[b].data.id@);
                        }
                        assert forall|a: int|
                            0 <= a < post.len() implies role_ok((#[trigger] post[a]).data.role@)
                            && (#[trigger] post[a]).seq_no < db.next_seq && has_conv_row(
                            db.conversations@,
                            post[a].data.conversation_id@,
                        ) by {
                            assert(post[a].data.role@ == pre[a].data.role@);
                            assert(post[a].data.conversation_id@ == pre[a].data.conversation_id@);
                        }
                    }
                }
            },
        }
    }
}

/// The message views of a sequence of `(row identity, view)` pairs.
pub open spec fn pairs_to_views(s: Seq<(int, MsgV)>) -> Seq<MsgV> {
    s.map_values(|p: (int, MsgV)| p.1)
}

/// The `(row identity, message view)` pairs of a sequence of message rows.
pub open spec fn row_pairs(s: Seq<MessageRow>) -> Seq<(int, MsgV)> {
    s.map_values(|r: MessageRow| (r.seq_no as int, r.data@))
}

/// The views of a sequence of messages.
pub open spec fn msg_views(s: Seq<Message>) -> Seq<MsgV> {
    s.map_values(|m: Message| m@)
}

/// The pairs of the non-deleted rows of conversation `cid`, in log order.
pub open spec fn live_msg_views(rows: Seq<MessageRow>, cid: Seq<char>) -> Seq<(int, MsgV)>
    decreases rows.len(),
{
    if rows.len() == 0 {
        Seq::empty()
    } else {
        let rest = live_msg_views(rows.drop_last(), cid);
        if !rows.last().deleted && rows.last().data.conversation_id@ == cid {
            rest.push((rows.last().seq_no as int, rows.last().data@))
        } else {
            rest
        }
    }
}

/// The pairs of the non-deleted rows whose content contains `q`, across all
/// conversations, in log order.
pub open spec fn matching_msg_views(rows: Seq<MessageRow>, q: Seq<char>) -> Seq<(int, MsgV)>
    decreases rows.len(),
{
    if rows.len() == 0 {
        Seq::empty()
    } else {
        let rest = matching_msg_views(rows.drop_last(), q);
        if !rows.last().deleted && contains_seq(rows.last().data.content@, q) {
            rest.push((rows.last().seq_no as int, rows.last().data@))
        } else {
            rest
        }
    }
}

#[verifier::spinoff_prover]
#[verifier::rlimit(80)]
pub proof fn lemma_live_msg_views(rows: Seq<MessageRow>, cid: Seq<char>)
    ensures
        forall|i: int|
            0 <= i < live_msg_views(rows, cid).len() ==> exists|j: int|
                0 <= j < rows.len() && !rows[j].deleted && rows[j].data.conversation_id@ == cid && (
                rows[j].seq_no as int, rows[j].data@) == #[trigger] live_msg_views(rows, cid)[i],
        forall|j: int|
            0 <= j < rows.len() && !(#[trigger] rows[j]).deleted && rows[j].data.conversation_id@
                == cid ==> live_msg_views(rows, cid).contains((rows[j].seq_no as int, rows[j].data@)),
    decreases rows.len(),
{
    if rows.len() > 0 {
        let rest = rows.drop_last();
        lemma_live_msg_views(rest, cid);
        assert(forall|j: int| 0 <= j < rest.len() ==> #[trigger] rest[j] == rows[j]);
        let cur = live_msg_views(rows, cid);
        let prev = live_msg_views(rest, cid);
        assert forall|i: int| 0 <= i < cur.len() implies exists|j: int|
            0 <= j < rows.len() && !rows[j].deleted && rows[j].data.conversation_id@ == cid && (
            rows[j].seq_no as int, rows[j].data@) == #[trigger] cur[i] by {
            if i < prev.len() {
                let j = choose|j: int|
                    0 <= j < rest.len() && !rest[j].deleted && rest[j].data.conversation_id@ == cid
                        && (rest[j].seq_no as int, rest[j].data@) == #[trigger] prev[i];
                assert(0 <= j < rows.len() && !rows[j].deleted && rows[j].data.conversation_id@
                    == cid && (rows[j].seq_no as int, rows[j].data@) == cur[i]);
            } else {
                let j = rows.len() - 1;
                assert(0 <= j < rows.len() && !rows[j].deleted && rows[j].data.conversation_id@
                    == cid && (rows[j].seq_no as int, rows[j].data@) == cur[i]);
            }
        }
        assert forall|j: int|
            0 <= j < rows.len() && !(#[trigger] rows[j]).deleted && rows[j].data.conversation_id@
                == cid implies cur.contains((rows[j].seq_no as int, rows[j].data@)) by {
            if j < rows.len() - 1 {
                assert(prev.contains((rest[j].seq_no as int, rest[j].data@)));
                let w = choose|w: int|
                    0 <= w < prev.len() && prev[w] == (rest[j].seq_no as int, rest[j].data@);
                assert(cur[w] == (rows[j].seq_no as int, rows[j].data@));
            } else {
                assert(cur.last() == (rows[j].seq_no as int, rows[j].data@));
            }
        }
    }
}

#[verifier::spinoff_prover]
#[verifier::rlimit(80)]
pub proof fn lemma_matching_msg_views(rows: Seq<MessageRow>, q: Seq<char>)
    ensures
        forall|i: int|
            0 <= i < matching_msg_views(rows, q).len() ==> exists|j: int|
                0 <= j < rows.len() && !rows[j].deleted && contains_seq(rows[j].data.content@, q)
                    && (rows[j].seq_no as int, rows[j].data@) == #[trigger] matching_msg_views(
                    rows,
                    q,
                )[i],
        forall|j: int|
            0 <= j < rows.len() && !(#[trigger] rows[j]).deleted && contains_seq(
                rows[j].data.content@,
                q,
            ) ==> matching_msg_views(rows, q).contains((rows[j].seq_no as int, rows[j].data@)),
    decreases rows.len(),
{
    if rows.len() > 0 {
        let rest = rows.drop_last();
        lemma_matching_msg_views(rest, q);
        assert(forall|j: int| 0 <= j < rest.len() ==> #[trigger] rest[j] == rows[j]);
        let cur = matching_msg_views(rows, q);
        let prev = matching_msg_views(rest, q);
        assert forall|i: int| 0 <= i < cur.len() implies exists|j: int|
            0 <= j < rows.len() && !rows[j].deleted && contains_seq(rows[j].data.content@, q) && (
            rows[j].seq_no as int, rows[j].data@) == #[trigger] cur[i] by {
            if i < prev.len() {
                let j = choose|j: int|
                    0 <= j < rest.len() && !rest[j].deleted && contains_seq(
                        rest[j].data.content@,
                        q,
                    ) && (rest[j].seq_no as int, rest[j].data@) == #[trigger] prev[i];
                assert((rows[j].seq_no as int, rows[j].data@) == cur[i]);
            } else {
                assert((rows[rows.len() - 1].seq_no as int, rows[rows.len() - 1].data@) == cur[i]);
            }
        }
        assert forall|j: int|
            0 <= j < rows.len() && !(#[trigger] rows[j]).deleted && contains_seq(
                rows[j].data.content@,
                q,
            ) implies cur.contains((rows[j].seq_no as int, rows[j].data@)) by {
            if j < rows.len() - 1 {
                assert(prev.contains((rest[j].seq_no as int, rest[j].data@)));
                let w = choose|w: int|
                    0 <= w < prev.len() && prev[w] == (rest[j].seq_no as int, rest[j].data@);
                assert(cur[w] == (rows[j].seq_no as int, rows[j].data@));
            } else {
                assert(cur.last() == (rows[j].seq_no as int, rows[j].data@));
            }
        }
    }
}

/// Chronological order on pairs: by timestamp, then insertion order.
pub open spec fn msg_pair_le(a: (int, MsgV), b: (int, MsgV)) -> bool {
    a.1.timestamp < b.1.timestamp || (a.1.timestamp == b.1.timestamp && a.0 <= b.0)
}

/// Oldest first.
pub open spec fn pairs_sorted_asc(s: Seq<(int, MsgV)>) -> bool {
    forall|a: int, b: int| 0 <= a < b < s.len() ==> msg_pair_le(#[trigger] s[a], #[trigger] s[b])
}

/// Every returned message is the data of some non-deleted row of `cid`.
pub open spec fn msg_results_are_live(
    r: Seq<Message>,
    rows: Seq<MessageRow>,
    cid: Seq<char>,
) -> bool {
    forall|k: int|
        #![trigger r[k]]
        0 <= k < r.len() ==> exists|j: int|
            #![trigger rows[j].data]
            0 <= j < rows.len() && !rows[j].deleted && rows[j].data.conversation_id@ == cid
                && r[k]@ == rows[j].data@
}

/// Every returned message is the data of some non-deleted row whose content
/// contains the query.
pub open spec fn msg_results_match(r: Seq<Message>, rows: Seq<MessageRow>, q: Seq<char>) -> bool {
    forall|k: int|
        #![trigger r[k]]
        0 <= k < r.len() ==> exists|j: int|
            #![trigger rows[j].data]
            0 <= j < rows.len() && !rows[j].deleted && contains_seq(rows[j].data.content@, q)
                && r[k]@ == rows[j].data@
}

/// Selection sort of message rows, oldest first.
#[verifier::loop_isolation(false)]
#[verifier::rlimit(80)]
fn sort_msg_rows_asc(input: Vec<MessageRow>) -> (r: Vec<MessageRow>)
    ensures
        row_pairs(r@).to_multiset() == row_pairs(input@).to_multiset(),
        r@.len() == input@.len(),
        pairs_sorted_asc(row_pairs(r@)),
{
    let mut v = input;
    let ghost orig = row_pairs(v@);
    let mut out: Vec<MessageRow> = Vec::new();
    while v.len() > 0
        invariant
            (row_pairs(out@) + row_pairs(v@)).to_multiset() == orig.to_multiset(),
            out@.len() + v@.len() == orig.len(),
            pairs_sorted_asc(row_pairs(out@)),
            forall|x: int, y: int|
                0 <= x < out@.len() && 0 <= y < v@.len() ==> msg_pair_le(
                    #[trigger] row_pairs(out@)[x],
                    #[trigger] row_pairs(v@)[y],
                ),
        decreases v@.len(),
    {
        let mut best: usize = 0;
        let mut j: usize = 1;
        while j < v.len()
            invariant
                1 <= j <= v@.len(),
                best < j,
                forall|t: int|
                    0 <= t < j ==> msg_pair_le(
                        #[trigger] row_pairs(v@)[best as int],
                        #[trigger] row_pairs(v@)[t],
                    ),
            decreases v@.len() - j,
        {
            let better = v[j].data.timestamp < v[best].data.timestamp || (v[j].data.timestamp
                == v[best].data.timestamp && v[j].seq_no < v[best].seq_no);
            if better {
                best = j;
            }
            j = j + 1;
        }
        let ghost prev_v = v@;
        let ghost prev_out = out@;
        let x = v.remove(best);
        out.push(x);
        proof {
            broadcast use vstd::seq_lib::group_to_multiset_ensures;

            assert(row_pairs(v@) =~= row_pairs(prev_v).remove(best as int));
            assert(row_pairs(out@) =~= row_pairs(prev_out).push(row_pairs(prev_v)[best as int]));
            let xv = row_pairs(prev_v)[best as int];
            vstd::seq_lib::lemma_multiset_commutative(row_pairs(prev_out), row_pairs(prev_v));
            vstd::seq_lib::lemma_multiset_commutative(row_pairs(out@), row_pairs(v@));
            assert(row_pairs(prev_v).to_multiset().contains(xv));
            assert(row_pairs(out@).to_multiset().add(row_pairs(v@).to_multiset())
                =~= row_pairs(prev_out).to_multiset().add(row_pairs(prev_v).to_multiset()));
            assert forall|y: int|
                0 <= y < v@.len() implies msg_pair_le(
                row_pairs(out@).last(),
                #[trigger] row_pairs(v@)[y],
            ) by {
                if y < best {
                    assert(row_pairs(v@)[y] == row_pairs(prev_v)[y]);
                } else {
                    assert(row_pairs(v@)[y] == row_pairs(prev_v)[y + 1]);
                }
            }
        }
    }
    proof {
        assert(row_pairs(out@) + row_pairs(v@) =~= row_pairs(out@));
    }
    out
}

/// Reverses a vector of message rows.
#[verifier::loop_isolation(false)]
fn reverse_msg_rows(input: Vec<MessageRow>) -> (r: Vec<MessageRow>)
    ensures
        r@.len() == input@.len(),
        forall|k: int| 0 <= k < r@.len() ==> #[trigger] r@[k] == input@[input@.len() - 1 - k],
{
    let mut v = input;
    let ghost orig = v@;
    let mut out: Vec<MessageRow> = Vec::new();
    while v.len() > 0
        invariant
            v@ == orig.take(orig.len() - out@.len()),
            out@.len() <= orig.len(),
            forall|k: int| 0 <= k < out@.len() ==> #[trigger] out@[k] == orig[orig.len() - 1 - k],
        decreases v@.len(),
    {
        let x = match v.pop() {
            Some(x) => x,
            None => {
                proof {
                    assert(false);
                }
                return out;
            },
        };
        out.push(x);
        proof {
            assert(v@ =~= orig.take(orig.len() - out@.len()));
        }
    }
    out
}

/// The surviving-prefix form of [`lemma_prefix_matches`] for messages: a
/// sequence whose views come from the matching pairs only holds matching
/// messages.
#[verifier::spinoff_prover]
proof fn lemma_msgs_from_matching(
    r: Seq<Message>,
    rows: Seq<MessageRow>,
    q: Seq<char>,
    ordered: Seq<(int, MsgV)>,
)
    requires
        r.len() <= ordered.len(),
        forall|k: int|
            0 <= k < r.len() ==> (#[trigger] r[k])@ == ordered[ordered.len() - 1 - k].1,
        ordered.to_multiset() == matching_msg_views(rows, q).to_multiset(),
    ensures
        msg_results_match(r, rows, q),
{
    broadcast use vstd::seq_lib::group_to_multiset_ensures;

    lemma_matching_msg_views(rows, q);
    assert forall|k: int| #![trigger r[k]] 0 <= k < r.len() implies (exists|j: int|
        #![trigger rows[j].data]
        0 <= j < rows.len() && !rows[j].deleted && contains_seq(rows[j].data.content@, q) && r[k]@
            == rows[j].data@) by {
        let w = ordered.len() - 1 - k;
        assert(r[k]@ == ordered[w].1);
        assert(ordered.contains(ordered[w]));
        assert(matching_msg_views(rows, q).to_multiset().contains(ordered[w]));
        assert(matching_msg_views(rows, q).contains(ordered[w]));
        let i = choose|i: int|
            0 <= i < matching_msg_views(rows, q).len() && matching_msg_views(rows, q)[i]
                == ordered[w];
        let j = choose|j: int|
            0 <= j < rows.len() && !rows[j].deleted && contains_seq(rows[j].data.content@, q) && (
            rows[j].seq_no as int, rows[j].data@) == matching_msg_views(rows, q)[i];
        assert(0 <= j < rows.len() && !rows[j].deleted && contains_seq(rows[j].data.content@, q)
            && r[k]@ == rows[j].data@);
    }
}

/// The same, for the live messages of one conversation.
#[verifier::spinoff_prover]
proof fn lemma_msgs_from_live(
    r: Seq<Message>,
    rows: Seq<MessageRow>,
    cid: Seq<char>,
    ordered: Seq<(int, MsgV)>,
    off: int,
)
    requires
        0 <= off <= ordered.len(),
        msg_views(r) == pairs_to_views(ordered).skip(off),
        ordered.to_multiset() == live_msg_views(rows, cid).to_multiset(),
    ensures
        msg_results_are_live(r, rows, cid),
{
    broadcast use vstd::seq_lib::group_to_multiset_ensures;

    lemma_live_msg_views(rows, cid);
    assert forall|k: int| #![trigger r[k]] 0 <= k < r.len() implies (exists|j: int|
        #![trigger rows[j].data]
        0 <= j < rows.len() && !rows[j].deleted && rows[j].data.conversation_id@ == cid && r[k]@
            == rows[j].data@) by {
        let w = off + k;
        assert(msg_views(r).len() == r.len());
        assert(pairs_to_views(ordered).len() == ordered.len());
        assert(k < pairs_to_views(ordered).len() - off);
        vstd::seq_lib::lemma_seq_skip_index(pairs_to_views(ordered), off, k);
        assert(r[k]@ == msg_views(r)[k]);
        assert(msg_views(r)[k] == pairs_to_views(ordered).skip(off)[k]);
        assert(pairs_to_views(ordered).skip(off)[k] == pairs_to_views(ordered)[w]);
        assert(r[k]@ == ordered[w].1);
        assert(ordered.contains(ordered[w]));
        assert(live_msg_views(rows, cid).to_multiset().contains(ordered[w]));
        assert(live_msg_views(rows, cid).contains(ordered[w]));
        let i = choose|i: int|
            0 <= i < live_msg_views(rows, cid).len() && live_msg_views(rows, cid)[i] == ordered[w];
        let j = choose|j: int|
            0 <= j < rows.len() && !rows[j].deleted && rows[j].data.conversation_id@ == cid && (
            rows[j].seq_no as int, rows[j].data@) == live_msg_views(rows, cid)[i];
        assert(0 <= j < rows.len() && !rows[j].deleted && rows[j].data.conversation_id@ == cid
            && r[k]@ == rows[j].data@);
    }
}

impl Message {
    /// The non-deleted messages of a conversation, oldest first; ties in
    /// the timestamp keep insertion order.
    #[verifier::loop_isolation(false)]
    #[verifier::rlimit(80)]
    pub fn get_by_conversation(db: &Database, conversation_id: &str) -> (r: Vec<Message>)
        requires
            db.wf(),
        ensures
            r@.len() == live_msg_views(db.messages@, conversation_id@).len(),
            forall|a: int, b: int|
                0 <= a < b < r@.len() ==> (#[trigger] r@[a]).timestamp <= (
                #[trigger] r@[b]).timestamp,
            msg_results_are_live(r@, db.messages@, conversation_id@),
            exists|ordered: Seq<(int, MsgV)>|
                {
                    &&& #[trigger] ordered.to_multiset() == live_msg_views(
                        db.messages@,
                        conversation_id@,
                    ).to_multiset()
                    &&& pairs_sorted_asc(ordered)
                    &&& msg_views(r@) == pairs_to_views(ordered)
                },
    {
        let n = db.messages.len();
        let mut collected: Vec<MessageRow> = Vec::new();
        proof {
            assert(row_pairs(collected@) =~= live_msg_views(db.messages@.take(0), conversation_id@));
        }
        let mut i: usize = 0;
        while i < n
            invariant
                i <= n,
                row_pairs(collected@) == live_msg_views(
                    db.messages@.take(i as int),
                    conversation_id@,
                ),
            decreases n - i,
        {
            let ghost pre = collected@;
            let row = &db.messages[i];
            if !row.deleted && str_eq(row.data.conversation_id.as_str(), conversation_id) {
                collected.push(
                    MessageRow { seq_no: row.seq_no, data: clone_message(&row.data), deleted: false },
                );
                proof {
                    assert(row_pairs(collected@) =~= row_pairs(pre).push(
                        (db.messages@[i as int].seq_no as int, db.messages@[i as int].data@),
                    ));
                }
            }
            proof {
                assert(db.messages@.take(i + 1).drop_last() =~= db.messages@.take(i as int));
                assert(db.messages@.take(i + 1).last() == db.messages@[i as int]);
            }
            i = i + 1;
        }
        proof {
            assert(db.messages@.take(n as int) =~= db.messages@);
        }
        let sorted = sort_msg_rows_asc(collected);
        let ghost ordered = row_pairs(sorted@);
        let m = sorted.len();
        let mut out: Vec<Message> = Vec::new();
        let mut k: usize = 0;
        while k < m
            invariant
                k <= m,
                out@.len() == k,
                forall|t: int| 0 <= t < k ==> (#[trigger] out@[t])@ == sorted@[t].data@,
            decreases m - k,
        {
            out.push(clone_message(&sorted[k].data));
            k = k + 1;
        }
        proof {
            broadcast use vstd::seq_lib::group_to_multiset_ensures;

            assert(msg_views(out@) =~= pairs_to_views(ordered));
            assert forall|a: int, b: int|
                0 <= a < b < out@.len() implies (#[trigger] out@[a]).timestamp <= (
            #[trigger] out@[b]).timestamp by {
                assert(msg_pair_le(ordered[a], ordered[b]));
                assert(out@[a]@ == ordered[a].1);
                assert(out@[b]@ == ordered[b].1);
            }
            assert(msg_views(out@) =~= pairs_to_views(ordered).skip(0));
            lemma_msgs_from_live(out@, db.messages@, conversation_id@, ordered, 0);
            assert(ordered.to_multiset() == live_msg_views(
                db.messages@,
                conversation_id@,
            ).to_multiset());
            assert(out@.len() == live_msg_views(db.messages@, conversation_id@).len()) by {
                assert(ordered.len() == ordered.to_multiset().len());
                assert(live_msg_views(db.messages@, conversation_id@).len() == live_msg_views(
                    db.messages@,
                    conversation_id@,
                ).to_multiset().len());
            }
        }
        out
    }

    /// The `n` most recent messages of a conversation, still handed back
    /// oldest first; a negative `n` means no limit.
    #[verifier::loop_isolation(false)]
    pub fn get_last_n(db: &Database, conversation_id: &str, n: i64) -> (r: Vec<Message>)
        requires
            db.wf(),
        ensures
            r@.len() as int == (if n < 0 || n as int > live_msg_views(
                db.messages@,
                conversation_id@,
            ).len() {
                live_msg_views(db.messages@, conversation_id@).len() as int
            } else {
                n as int
            }),
            forall|a: int, b: int|
                0 <= a < b < r@.len() ==> (#[trigger] r@[a]).timestamp <= (
                #[trigger] r@[b]).timestamp,
            msg_results_are_live(r@, db.messages@, conversation_id@),
            exists|ordered: Seq<(int, MsgV)>|
                {
                    &&& #[trigger] ordered.to_multiset() == live_msg_views(
                        db.messages@,
                        conversation_id@,
                    ).to_multiset()
                    &&& pairs_sorted_asc(ordered)
                    &&& msg_views(r@) == pairs_to_views(ordered).skip(
                        ordered.len() - r@.len(),
                    )
                },
    {
        let mut all = Message::get_by_conversation(db, conversation_id);
        let total = all.len();
        let keep: usize = if n < 0 {
            total
        } else if n as u64 >= total as u64 {
            total
        } else {
            n as usize
        };
        let ghost all_snap = all@;
        let tail = all.split_off(total - keep);
        proof {
            let ordered = choose|ordered: Seq<(int, MsgV)>|
                {
                    &&& #[trigger] ordered.to_multiset() == live_msg_views(
                        db.messages@,
                        conversation_id@,
                    ).to_multiset()
                    &&& pairs_sorted_asc(ordered)
                    &&& msg_views(all_snap) == pairs_to_views(ordered)
                };
            assert(msg_views(tail@) =~= pairs_to_views(ordered).skip(
                ordered.len() - tail@.len(),
            )) by {
                assert(forall|t: int|
                    0 <= t < tail@.len() ==> #[trigger] tail@[t] == all_snap[total - keep + t]);
            }
            lemma_msgs_from_live(
                tail@,
                db.messages@,
                conversation_id@,
                ordered,
                ordered.len() - tail@.len(),
            );
        }
        tail
    }

    /// The non-deleted messages whose content contains the query, across
    /// all conversations, newest first, at most `limit` of them; a negative
    /// limit means no limit.  Under the store invariant these are exactly
    /// the search-index entries whose content contains the query.
    #[verifier::loop_isolation(false)]
    #[verifier::rlimit(80)]
    pub fn search(db: &Database, query: &str, limit: i64) -> (r: Vec<Message>)
        requires
            db.wf(),
        ensures
            r@.len() as int == (if limit < 0 || limit as int > matching_msg_views(
                db.messages@,
                query@,
            ).len() {
                matching_msg_views(db.messages@, query@).len() as int
            } else {
                limit as int
            }),
            forall|a: int, b: int|
                0 <= a < b < r@.len() ==> (#[trigger] r@[a]).timestamp >= (
                #[trigger] r@[b]).timestamp,
            msg_results_match(r@, db.messages@, query@),
            (limit < 0 || matching_msg_views(db.messages@, query@).len() <= limit as int)
                ==> forall|j: int|
                0 <= j < db.messages@.len() && !(#[trigger] db.messages@[j]).deleted
                    && contains_seq(db.messages@[j].data.content@, query@) ==> exists|k: int|
                    0 <= k < r@.len() && (#[trigger] r@[k])@ == db.messages@[j].data@,
    {
        let n = db.messages.len();
        let mut collected: Vec<MessageRow> = Vec::new();
        proof {
            assert(row_pairs(collected@) =~= matching_msg_views(db.messages@.take(0), query@));
        }
        let mut i: usize = 0;
        while i < n
            invariant
                i <= n,
                row_pairs(collected@) == matching_msg_views(db.messages@.take(i as int), query@),
            decreases n - i,
        {
            let ghost pre = collected@;
            let row = &db.messages[i];
            if !row.deleted && crate::text::str_contains(row.data.content.as_str(), query) {
                collected.push(
                    MessageRow { seq_no: row.seq_no, data: clone_message(&row.data), deleted: false },
                );
                proof {
                    assert(row_pairs(collected@) =~= row_pairs(pre).push(
                        (db.messages@[i as int].seq_no as int, db.messages@[i as int].data@),
                    ));
                }
            }
            proof {
                assert(db.messages@.take(i + 1).drop_last() =~= db.messages@.take(i as int));
                assert(db.messages@.take(i + 1).last() == db.messages@[i as int]);
            }
            i = i + 1;
        }
        proof {
            assert(db.messages@.take(n as int) =~= db.messages@);
        }
        let sorted = sort_msg_rows_asc(collected);
        let ghost ordered = row_pairs(sorted@);
        let newest_first = reverse_msg_rows(sorted);
        let total = newest_first.len();
        let keep: usize = if limit < 0 {
            total
        } else if limit as u64 >= total as u64 {
            total
        } else {
            limit as usize
        };
        let m = keep;
        let mut out: Vec<Message> = Vec::new();
        let mut k: usize = 0;
        while k < m
            invariant
                k <= m,
                m <= newest_first@.len(),
                out@.len() == k,
                forall|t: int| 0 <= t < k ==> (#[trigger] out@[t])@ == newest_first@[t].data@,
            decreases m - k,
        {
            out.push(clone_message(&newest_first[k].data));
            k = k + 1;
        }
        proof {
            broadcast use vstd::seq_lib::group_to_multiset_ensures;

            assert(ordered.len() == matching_msg_views(db.messages@, query@).len()) by {
                assert(ordered.len() == ordered.to_multiset().len());
                assert(matching_msg_views(db.messages@, query@).len() == matching_msg_views(
                    db.messages@,
                    query@,
                ).to_multiset().len());
            }
            // each result comes from a pair, and is in timestamp order
            assert forall|t: int|
                0 <= t < out@.len() implies (#[trigger] out@[t])@ == ordered[ordered.len() - 1
                - t].1 by {
                assert(newest_first@[t] == sorted@[ordered.len() - 1 - t]);
            }
            lemma_msgs_from_matching(out@, db.messages@, query@, ordered);
            assert forall|a: int, b: int|
                0 <= a < b < out@.len() implies (#[trigger] out@[a]).timestamp >= (
            #[trigger] out@[b]).timestamp by {
                assert(newest_first@[a] == sorted@[ordered.len() - 1 - a]);
                assert(newest_first@[b] == sorted@[ordered.len() - 1 - b]);
                assert(out@[a]@ == ordered[ordered.len() - 1 - a].1);
                assert(out@[b]@ == ordered[ordered.len() - 1 - b].1);
                assert(msg_pair_le(ordered[ordered.len() - 1 - b], ordered[ordered.len() - 1 - a]));
            }
            if limit < 0 || matching_msg_views(db.messages@, query@).len() <= limit as int {
                assert forall|j: int|
                    0 <= j < db.messages@.len() && !(#[trigger] db.messages@[j]).deleted
                        && contains_seq(db.messages@[j].data.content@, query@) implies (exists|
                    k2: int,
                |
                    0 <= k2 < out@.len() && (#[trigger] out@[k2])@ == db.messages@[j].data@) by {
                    lemma_matching_msg_views(db.messages@, query@);
                    let p = (db.messages@[j].seq_no as int, db.messages@[j].data@);
                    assert(matching_msg_views(db.messages@, query@).contains(p));
                    assert(matching_msg_views(db.messages@, query@).to_multiset().contains(p));
                    assert(ordered.to_multiset().contains(p));
                    assert(ordered.contains(p));
                    let w = choose|w: int| 0 <= w < ordered.len() && ordered[w] == p;
                    let k2 = ordered.len() - 1 - w;
                    assert(out@[k2]@ == ordered[w].1);
                }
            }
        }
        out
    }
}

/// Saturation to the `i64` range.
pub open spec fn sat64(x: int) -> int {
    if x > i64::MAX as int {
        i64::MAX as int
    } else if x < i64::MIN as int {
        i64::MIN as int
    } else {
        x
    }
}

/// What one row contributes to a conversation's token count.
pub open spec fn token_contrib(row: MessageRow, cid: Seq<char>) -> int {
    if !row.deleted && row.data.conversation_id@ == cid {
        match row.data.tokens_used {
            Some(t) => t as int,
            None => 0,
        }
    } else {
        0
    }
}

/// The sum of `tokens_used` over the non-deleted messages of `cid`,
/// saturating at the `i64` bounds at each step.
pub open spec fn token_sum(rows: Seq<MessageRow>, cid: Seq<char>) -> int
    decreases rows.len(),
{
    if rows.len() == 0 {
        0
    } else {
        sat64(token_sum(rows.drop_last(), cid) + token_contrib(rows.last(), cid))
    }
}

/// `i64` addition, saturating at the bounds.
fn sat_add_i64(a: i64, b: i64) -> (r: i64)
    ensures
        r as int == sat64(a as int + b as int),
{
    if b > 0 && a > i64::MAX - b {
        i64::MAX
    } else if b < 0 && a < i64::MIN - b {
        i64::MIN
    } else {
        a + b
    }
}

impl Message {
    /// The total of `tokens_used` over the non-deleted messages of the
    /// conversation, zero when there are none, saturating at the `i64`
    /// bounds.
    #[verifier::loop_isolation(false)]
    pub fn get_conversation_token_count(db: &Database, conversation_id: &str) -> (r: i64)
        requires
            db.wf(),
        ensures
            r as int == token_sum(db.messages@, conversation_id@),
    {
        let n = db.messages.len();
        let mut acc: i64 = 0;
        let mut i: usize = 0;
        while i < n
            invariant
                i <= n,
                acc as int == token_sum(db.messages@.take(i as int), conversation_id@),
            decreases n - i,
        {
            let row = &db.messages[i];
            let c: i64 = if !row.deleted && str_eq(
                row.data.conversation_id.as_str(),
                conversation_id,
            ) {
                match row.data.tokens_used {
                    Some(t) => t,
                    None => 0,
                }
            } else {
                0
            };
            acc = sat_add_i64(acc, c);
            proof {
                assert(db.messages@.take(i + 1).drop_last() =~= db.messages@.take(i as int));
                assert(db.messages@.take(i + 1).last() == db.messages@[i as int]);
            }
            i = i + 1;
        }
        proof {
            assert(db.messages@.take(n as int) =~= db.messages@);
        }
        acc
    }

    /// The most recent assistant-authored non-deleted message across all
    /// conversations, by timestamp and then insertion order.
    #[verifier::loop_isolation(false)]
    pub fn get_last_assistant_message(db: &Database) -> (r: Option<Message>)
        requires
            db.wf(),
        ensures
            match r {
                Some(m) => exists|k: int|
                    {
                        &&& 0 <= k < db.messages@.len()
                        &&& !(#[trigger] db.messages@[k]).deleted
                        &&& db.messages@[k].data.role@ == "assistant"@
                        &&& m@ == db.messages@[k].data@
                        &&& forall|j: int|
                            0 <= j < db.messages@.len() && !(#[trigger] db.messages@[j]).deleted
                                && db.messages@[j].data.role@ == "assistant"@ ==> (
                            db.messages@[j].data.timestamp < db.messages@[k].data.timestamp || (
                            db.messages@[j].data.timestamp == db.messages@[k].data.timestamp
                                && db.messages@[j].seq_no <= db.messages@[k].seq_no))
                    },
                None => forall|j: int|
                    0 <= j < db.messages@.len() ==> !(!(#[trigger] db.messages@[j]).deleted
                        && db.messages@[j].data.role@ == "assistant"@),
            },
    {
        let n = db.messages.len();
        let mut best: Option<usize> = None;
        let mut i: usize = 0;
        while i < n
            invariant
                i <= n,
                match best {
                    Some(b) => {
                        &&& (b as int) < i as int
                        &&& !db.messages@[b as int].deleted
                        &&& db.messages@[b as int].data.role@ == "assistant"@
                        &&& forall|j: int|
                            0 <= j < i && !(#[trigger] db.messages@[j]).deleted
                                && db.messages@[j].data.role@ == "assistant"@ ==> (
                            db.messages@[j].data.timestamp < db.messages@[
                                b as int
                            ].data.timestamp || (db.messages@[j].data.timestamp == db.messages@[
                                b as int
                            ].data.timestamp && db.messages@[j].seq_no <= db.messages@[
                                b as int
                            ].seq_no))
                    },
                    None => forall|j: int|
                        0 <= j < i ==> !(!(#[trigger] db.messages@[j]).deleted && db.messages@[
                            j
                        ].data.role@ == "assistant"@),
                },
            decreases n - i,
        {
            let row = &db.messages[i];
            if !row.deleted && str_eq(row.data.role.as_str(), "assistant") {
                match best {
                    None => {
                        best = Some(i);
                    },
                    Some(b) => {
                        let newer = row.data.timestamp > db.messages[b].data.timestamp || (
                        row.data.timestamp == db.messages[b].data.timestamp && row.seq_no
                            > db.messages[b].seq_no);
                        if newer {
                            best = Some(i);
                        }
                    },
                }
            }
            i = i + 1;
        }
        match best {
            Some(b) => Some(clone_message(&db.messages[b].data)),
            None => None,
        }
    }
}

} // verus!
