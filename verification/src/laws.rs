//! Store-wide laws: consequences of the operation contracts that hold for
//! every well-formed store, written out so a reader sees them stated, not
//! just derivable.

use vstd::prelude::*;

use crate::store::{
    bump, flag_msgs, has_conv_row, has_live_conv, live_msg_views, msg_results_match, unflag_msgs,
    ConvV, ConversationRow, Database, MessageRow, MsgV,
};
use crate::text::{contains_seq, lemma_contains_self};

verus! {

/// A conversation just created is visible: its id names a live row, and
/// every live row carrying that id holds exactly the created record — so a
/// lookup by id straight after a successful create returns a record equal
/// to the one create handed back.
pub proof fn lemma_create_then_get(pre: Database, post: Database, c: ConvV)
    requires
        pre.wf(),
        !has_conv_row(pre.conversations@, c.id),
        post.conversations@.len() == pre.conversations@.len() + 1,
        forall|k: int|
            0 <= k < pre.conversations@.len() ==> post.conversations@[k] == pre.conversations@[k],
        post.conversations@.last().data@ == c,
        !post.conversations@.last().deleted,
    ensures
        has_live_conv(post.conversations@, c.id),
        forall|k: int|
            0 <= k < post.conversations@.len() && !(#[trigger] post.conversations@[k]).deleted
                && post.conversations@[k].data.id@ == c.id ==> post.conversations@[k].data@ == c,
{
    let rows = post.conversations@;
    let last = rows.len() - 1;
    assert(rows[last].data.id@ == c.id);
    assert(has_live_conv(rows, c.id));
    assert forall|k: int|
        0 <= k < rows.len() && !(#[trigger] rows[k]).deleted && rows[k].data.id@
            == c.id implies rows[k].data@ == c by {
        if k < last {
            assert(rows[k] == pre.conversations@[k]);
            assert(has_conv_row(pre.conversations@, c.id));
        }
    }
}

/// A write at wall-clock time `now` never moves `updated_at` backwards,
/// and moves it strictly forward whenever the previous stamp is below the
/// `i64` ceiling — the one value on which a strict bump is impossible.
pub proof fn lemma_bump_monotonic(old_ts: int, now: int)
    ensures
        bump(old_ts, now) >= old_ts,
        bump(old_ts, now) >= now,
        old_ts < i64::MAX as int ==> bump(old_ts, now) > old_ts,
{
}

/// A message's own content is a substring of itself, so a search for the
/// exact content of a non-deleted message matches that message; with the
/// completeness clause of `Message::search` this is the positive half of
/// search-index consistency.
pub proof fn lemma_exact_content_matches(m: MsgV)
    ensures
        contains_seq(m.content, m.content),
{
    lemma_contains_self(m.content);
}

/// Once no row carries a message's id, no search result can be that
/// message: every result is some live row's record, and records carry
/// their id.  With `Message::delete` removing the row, this is the
/// negative half of search-index consistency.
pub proof fn lemma_deleted_not_searchable(
    rows: Seq<MessageRow>,
    r: Seq<crate::store::Message>,
    q: Seq<char>,
    gone: MsgV,
)
    requires
        msg_results_match(r, rows, q),
        forall|j: int| 0 <= j < rows.len() ==> (#[trigger] rows[j]).data.id@ != gone.id,
    ensures
        forall|k: int| 0 <= k < r.len() ==> (#[trigger] r[k])@.id != gone.id,
{
    assert forall|k: int| 0 <= k < r.len() implies (#[trigger] r[k])@.id != gone.id by {
        let j = choose|j: int|
            #![trigger rows[j].data]
            0 <= j < rows.len() && !rows[j].deleted && contains_seq(rows[j].data.content@, q)
                && r[k]@ == rows[j].data@;
        assert(rows[j].data.id@ != gone.id);
    }
}

/// A message row flagged deleted can never be a search result either: ids
/// are unique, so no live row carries its id.  This is the negative half
/// of search-index consistency under the soft deletion policy.
pub proof fn lemma_flagged_not_searchable(
    rows: Seq<MessageRow>,
    r: Seq<crate::store::Message>,
    q: Seq<char>,
    k: int,
)
    requires
        msg_results_match(r, rows, q),
        0 <= k < rows.len(),
        rows[k].deleted,
        forall|a: int, b: int|
            0 <= a < b < rows.len() ==> (#[trigger] rows[a]).data.id@ != (#[trigger] rows[b]).data.id@,
    ensures
        forall|t: int| 0 <= t < r.len() ==> (#[trigger] r[t])@.id != rows[k].data.id@,
{
    assert forall|t: int| 0 <= t < r.len() implies (#[trigger] r[t])@.id != rows[k].data.id@ by {
        let j = choose|j: int|
            #![trigger rows[j].data]
            0 <= j < rows.len() && !rows[j].deleted && contains_seq(rows[j].data.content@, q)
                && r[t]@ == rows[j].data@;
        assert(j != k);
        assert(rows[j].data.id@ != rows[k].data.id@);
    }
}

/// Removing the row that carries an id leaves no row carrying it, ids
/// being unique.  This is the negative half of search-index consistency
/// under the hard deletion policy.
pub proof fn lemma_removed_id_gone(pre: Seq<MessageRow>, k: int)
    requires
        0 <= k < pre.len(),
        forall|a: int, b: int|
            0 <= a < b < pre.len() ==> (#[trigger] pre[a]).data.id@ != (#[trigger] pre[b]).data.id@,
    ensures
        forall|j: int|
            0 <= j < pre.remove(k).len() ==> (#[trigger] pre.remove(k)[j]).data.id@
                != pre[k].data.id@,
{
    let post = pre.remove(k);
    assert forall|j: int| 0 <= j < post.len() implies (#[trigger] post[j]).data.id@
        != pre[k].data.id@ by {
        if j < k {
            assert(post[j] == pre[j]);
        } else {
            assert(post[j] == pre[j + 1]);
        }
    }
}

/// A cascade soft delete leaves the conversation with no live messages:
/// after `Conversation::delete` under the soft policy, reads and searches
/// scoped to that conversation come back empty, spec's cascade invariant.
pub proof fn lemma_cascade_delete_hides_messages(msgs: Seq<MessageRow>, cid: Seq<char>)
    ensures
        live_msg_views(flag_msgs(msgs, cid), cid).len() == 0,
    decreases msgs.len(),
{
    if msgs.len() > 0 {
        assert(flag_msgs(msgs, cid).drop_last() =~= flag_msgs(msgs.drop_last(), cid));
        lemma_cascade_delete_hides_messages(msgs.drop_last(), cid);
        assert(flag_msgs(msgs, cid).last() == crate::store::flag_row(msgs.last(), cid));
    } else {
        assert(flag_msgs(msgs, cid) =~= Seq::<MessageRow>::empty());
    }
}

/// Restore inverts a soft delete on the message log: cascade-restoring
/// after a cascade delete gives the original rows back, provided none of
/// the conversation's messages was already individually flagged — the one
/// family of inputs on which the flag, being a single bit, cannot remember
/// the earlier state.
pub proof fn lemma_restore_inverts_delete(msgs: Seq<MessageRow>, cid: Seq<char>)
    requires
        forall|j: int|
            0 <= j < msgs.len() && (#[trigger] msgs[j]).data.conversation_id@ == cid ==> !msgs[j].deleted,
    ensures
        unflag_msgs(flag_msgs(msgs, cid), cid) == msgs,
{
    assert forall|j: int|
        0 <= j < msgs.len() implies #[trigger] unflag_msgs(flag_msgs(msgs, cid), cid)[j]
        == msgs[j] by {
        assert(flag_msgs(msgs, cid)[j] == crate::store::flag_row(msgs[j], cid));
    }
    assert(unflag_msgs(flag_msgs(msgs, cid), cid) =~= msgs);
}

/// Soft deletion hides a conversation from reads that filter deleted rows:
/// the flagged row's id no longer names a live conversation, and every
/// other id is unaffected.
pub proof fn lemma_soft_delete_hides(
    pre: Seq<ConversationRow>,
    post: Seq<ConversationRow>,
    k: int,
)
    requires
        0 <= k < pre.len(),
        forall|a: int, b: int|
            0 <= a < b < pre.len() ==> (#[trigger] pre[a]).data.id@ != (#[trigger] pre[b]).data.id@,
        post.len() == pre.len(),
        forall|j: int| 0 <= j < pre.len() && j != k ==> #[trigger] post[j] == pre[j],
        post[k].deleted,
        post[k].data == pre[k].data,
    ensures
        !has_live_conv(post, pre[k].data.id@),
        forall|other: Seq<char>|
            other != pre[k].data.id@ ==> (has_live_conv(post, other) <==> has_live_conv(
                pre,
                other,
            )),
{
    assert forall|j: int| 0 <= j < post.len() implies !((#[trigger] post[j]).data.id@
        == pre[k].data.id@ && !post[j].deleted) by {
        if j != k {
            assert(post[j] == pre[j]);
            assert(pre[j].data.id@ != pre[k].data.id@);
        }
    }
    assert forall|other: Seq<char>| other != pre[k].data.id@ implies (has_live_conv(post, other)
        <==> has_live_conv(pre, other)) by {
        if has_live_conv(pre, other) {
            let w = choose|w: int|
                0 <= w < pre.len() && (#[trigger] pre[w]).data.id@ == other && !pre[w].deleted;
            assert(w != k);
            assert(post[w] == pre[w]);
        }
        if has_live_conv(post, other) {
            let w = choose|w: int|
                0 <= w < post.len() && (#[trigger] post[w]).data.id@ == other && !post[w].deleted;
            assert(w != k);
            assert(pre[w] == post[w]);
        }
    }
}

} // verus!
