//! Per-chat turn serialization.
//!
//! At most one agent run is active per (channel, chat id, user id). A message
//! that arrives while a run is active is queued in arrival order; the queue
//! keeps at most `max_pending` messages and drops the oldest one when full
//! (a queue of capacity zero keeps none).
//! When more than `CLEANUP_THRESHOLD` chats are tracked, looking up a chat
//! first forgets every chat that is idle: not running, nothing queued, and
//! unused for longer than `IDLE_TTL_NS`.
//!
//! This module holds the state and every decision. Waiting for a busy chat,
//! timeouts and the clock belong to the caller, which passes the current time
//! in nanoseconds on a monotonic clock.
use vstd::prelude::*;
use crate::sessions::new_uuid_simple;
use crate::sessions;

verus! {

/// Number of tracked chats above which a lookup first forgets idle chats.
pub const CLEANUP_THRESHOLD: usize = 100;

/// How long (in nanoseconds) a chat must be unused before it may be forgotten.
pub const IDLE_TTL_NS: u64 = 600_000_000_000;

/// A message that arrived while an agent run was active for the same chat.
#[derive(Debug, Clone)]
pub struct PendingMessage {
    pub sender_name: String,
    pub content: String,
    pub message_id: String,
    pub timestamp: String,
}

/// The identity of a chat as contracts see it: channel, chat id, user id.
pub type ChatKeyView = (Seq<char>, i64, Seq<char>);

/// What the queue knows of one chat.
pub struct SlotState {
    /// An agent run currently holds the turn.
    pub busy: bool,
    /// Messages queued while the run is active, oldest first.
    pub pending: Seq<PendingMessage>,
    /// Time of the last start of a run in this chat, or of its creation.
    pub last_active_ns: u64,
}

/// Proof that the caller holds the turn of one chat; hand it back to the
/// queue that issued it (`ChatTurnQueue::release`) when the run is over.
pub struct TurnGuard {
    queue: String,
    channel: String,
    chat_id: i64,
    user_id: String,
}

impl TurnGuard {
    /// The chat whose turn this guard holds.
    pub closed spec fn key(&self) -> ChatKeyView {
        (self.channel@, self.chat_id, self.user_id@)
    }

    /// The identity of the queue that issued this guard.
    pub closed spec fn queue_id(&self) -> Seq<char> {
        self.queue@
    }

    /// The identity of the queue that issued this guard.
    pub fn issuer(&self) -> (res: &str)
        ensures
            res@ == self.queue_id(),
    {
        self.queue.as_str()
    }

    pub fn channel(&self) -> (res: &str)
        ensures
            res@ == self.key().0,
    {
        self.channel.as_str()
    }

    pub fn chat_id(&self) -> (res: i64)
        ensures
            res == self.key().1,
    {
        self.chat_id
    }

    pub fn user_id(&self) -> (res: &str)
        ensures
            res@ == self.key().2,
    {
        self.user_id.as_str()
    }
}

struct ChatSlot {
    channel: String,
    chat_id: i64,
    user_id: String,
    busy: bool,
    pending: Vec<PendingMessage>,
    last_active_ns: u64,
}

spec fn slot_key(s: ChatSlot) -> ChatKeyView {
    (s.channel@, s.chat_id, s.user_id@)
}

spec fn slot_state(s: ChatSlot) -> SlotState {
    SlotState { busy: s.busy, pending: s.pending@, last_active_ns: s.last_active_ns }
}

spec fn keys_unique(s: Seq<ChatSlot>) -> bool {
    forall|i: int, j: int|
        0 <= i < s.len() && 0 <= j < s.len() && i != j ==> slot_key(#[trigger] s[i])
            != slot_key(#[trigger] s[j])
}

spec fn has_key(s: Seq<ChatSlot>, k: ChatKeyView) -> bool {
    exists|i: int| 0 <= i < s.len() && slot_key(#[trigger] s[i]) == k
}

spec fn entries_view(s: Seq<ChatSlot>) -> Map<ChatKeyView, SlotState> {
    Map::new(
        |k: ChatKeyView| has_key(s, k),
        |k: ChatKeyView| slot_state(s[choose|i: int| 0 <= i < s.len() && slot_key(s[i]) == k]),
    )
}

proof fn lemma_entry(s: Seq<ChatSlot>, i: int)
    requires
        keys_unique(s),
        0 <= i < s.len(),
    ensures
        entries_view(s).dom().contains(slot_key(s[i])),
        entries_view(s)[slot_key(s[i])] == slot_state(s[i]),
{
    let k = slot_key(s[i]);
    assert(has_key(s, k));
    let j = choose|j: int| 0 <= j < s.len() && slot_key(s[j]) == k;
    assert(j == i);
}

proof fn lemma_entry_all(s: Seq<ChatSlot>)
    requires
        keys_unique(s),
    ensures
        forall|i: int|
            0 <= i < s.len() ==> entries_view(s).dom().contains(#[trigger] slot_key(s[i]))
                && entries_view(s)[slot_key(s[i])] == slot_state(s[i]),
{
    assert forall|i: int| 0 <= i < s.len() implies entries_view(s).dom().contains(
        #[trigger] slot_key(s[i]),
    ) && entries_view(s)[slot_key(s[i])] == slot_state(s[i]) by {
        lemma_entry(s, i);
    }
}

proof fn lemma_update(s: Seq<ChatSlot>, i: int, x: ChatSlot)
    requires
        keys_unique(s),
        0 <= i < s.len(),
        slot_key(x) == slot_key(s[i]),
    ensures
        keys_unique(s.update(i, x)),
        entries_view(s.update(i, x)) == entries_view(s).insert(slot_key(x), slot_state(x)),
{
    let t = s.update(i, x);
    assert(keys_unique(t)) by {
        assert forall|a: int, b: int|
            0 <= a < t.len() && 0 <= b < t.len() && a != b implies slot_key(#[trigger] t[a])
            != slot_key(#[trigger] t[b]) by {
            if a == i {
                assert(slot_key(s[a]) != slot_key(s[b]));
            } else if b == i {
                assert(slot_key(s[a]) != slot_key(s[b]));
            } else {
                assert(slot_key(s[a]) != slot_key(s[b]));
            }
        }
    }
    lemma_entry_all(s);
    lemma_entry_all(t);
    let lhs = entries_view(t);
    let rhs = entries_view(s).insert(slot_key(x), slot_state(x));
    assert forall|k: ChatKeyView| #[trigger] lhs.dom().contains(k) <==> rhs.dom().contains(k) by {
        if lhs.dom().contains(k) {
            let j = choose|j: int| 0 <= j < t.len() && slot_key(t[j]) == k;
            if j != i {
                assert(slot_key(s[j]) == k);
            }
        }
        if rhs.dom().contains(k) && k != slot_key(x) {
            let j = choose|j: int| 0 <= j < s.len() && slot_key(s[j]) == k;
            assert(slot_key(t[j]) == k);
        }
        if k == slot_key(x) {
            assert(slot_key(t[i]) == k);
        }
    }
    assert forall|k: ChatKeyView| #[trigger] lhs.dom().contains(k) implies lhs[k] == rhs[k] by {
        let j = choose|j: int| 0 <= j < t.len() && slot_key(t[j]) == k;
        if j != i {
            assert(slot_key(s[j]) == k);
        }
    }
    assert(lhs =~= rhs);
}

proof fn lemma_push(s: Seq<ChatSlot>, x: ChatSlot)
    requires
        keys_unique(s),
        !has_key(s, slot_key(x)),
    ensures
        keys_unique(s.push(x)),
        entries_view(s.push(x)) == entries_view(s).insert(slot_key(x), slot_state(x)),
{
    let t = s.push(x);
    assert(keys_unique(t)) by {
        assert forall|a: int, b: int|
            0 <= a < t.len() && 0 <= b < t.len() && a != b implies slot_key(#[trigger] t[a])
            != slot_key(#[trigger] t[b]) by {
            if a == s.len() {
                assert(slot_key(t[b]) == slot_key(s[b]));
            } else if b == s.len() {
                assert(slot_key(t[a]) == slot_key(s[a]));
            } else {
                assert(slot_key(s[a]) != slot_key(s[b]));
            }
        }
    }
    lemma_entry_all(s);
    lemma_entry_all(t);
    let lhs = entries_view(t);
    let rhs = entries_view(s).insert(slot_key(x), slot_state(x));
    assert forall|k: ChatKeyView| #[trigger] lhs.dom().contains(k) <==> rhs.dom().contains(k) by {
        if lhs.dom().contains(k) {
            let j = choose|j: int| 0 <= j < t.len() && slot_key(t[j]) == k;
            if j != s.len() {
                assert(slot_key(s[j]) == k);
            }
        }
        if rhs.dom().contains(k) && k != slot_key(x) {
            let j = choose|j: int| 0 <= j < s.len() && slot_key(s[j]) == k;
            assert(slot_key(t[j]) == k);
        }
        if k == slot_key(x) {
            assert(slot_key(t[s.len() as int]) == k);
        }
    }
    assert forall|k: ChatKeyView| #[trigger] lhs.dom().contains(k) implies lhs[k] == rhs[k] by {
        let j = choose|j: int| 0 <= j < t.len() && slot_key(t[j]) == k;
        if j != s.len() {
            assert(slot_key(s[j]) == k);
        }
    }
    assert(lhs =~= rhs);
}

proof fn lemma_len(s: Seq<ChatSlot>)
    requires
        keys_unique(s),
    ensures
        entries_view(s).dom().finite(),
        entries_view(s).dom().len() == s.len(),
{
    let keys = s.map_values(|c: ChatSlot| slot_key(c));
    assert(keys.no_duplicates()) by {
        assert forall|i: int, j: int|
            0 <= i < keys.len() && 0 <= j < keys.len() && i != j implies keys[i] != keys[j] by {
            assert(slot_key(s[i]) != slot_key(s[j]));
        }
    }
    keys.unique_seq_to_set();
    assert(entries_view(s).dom() =~= keys.to_set()) by {
        assert forall|k: ChatKeyView| #[trigger] entries_view(s).dom().contains(k) implies keys.to_set().contains(k) by {
            let j = choose|j: int| 0 <= j < s.len() && slot_key(s[j]) == k;
            assert(keys[j] == k);
        }
        assert forall|k: ChatKeyView| #[trigger] keys.to_set().contains(k) implies entries_view(s).dom().contains(k) by {
            let j = choose|j: int| 0 <= j < keys.len() && keys[j] == k;
            assert(slot_key(s[j]) == k);
        }
    }
    vstd::seq_lib::seq_to_set_is_finite(keys);
}

/// A slot in which nothing is running, nothing is queued, and which has been
/// unused for longer than `IDLE_TTL_NS` at time `now_ns`.
pub open spec fn slot_is_idle(s: SlotState, now_ns: u64) -> bool {
    &&& !s.busy
    &&& s.pending.len() == 0
    &&& now_ns - s.last_active_ns > IDLE_TTL_NS
}

/// The chats of `m` that are not idle at `now_ns`.
pub open spec fn without_idle(m: Map<ChatKeyView, SlotState>, now_ns: u64) -> Map<
    ChatKeyView,
    SlotState,
> {
    Map::new(|k: ChatKeyView| m.dom().contains(k) && !slot_is_idle(m[k], now_ns), |k: ChatKeyView| m[k])
}

/// The slot that a chat seen for the first time at `now_ns` gets.
pub open spec fn fresh_slot(now_ns: u64) -> SlotState {
    SlotState { busy: false, pending: Seq::empty(), last_active_ns: now_ns }
}

/// The chats after looking up `key` at `now_ns`: idle chats are forgotten
/// first when more than `CLEANUP_THRESHOLD` are tracked, then `key` gets a
/// fresh slot if it has none.
pub open spec fn with_slot(m: Map<ChatKeyView, SlotState>, key: ChatKeyView, now_ns: u64) -> Map<
    ChatKeyView,
    SlotState,
> {
    let cleaned = if m.dom().len() > CLEANUP_THRESHOLD {
        without_idle(m, now_ns)
    } else {
        m
    };
    if cleaned.dom().contains(key) {
        cleaned
    } else {
        cleaned.insert(key, fresh_slot(now_ns))
    }
}

/// The queue `p` after `msg` arrives, when it may hold at most `max` messages:
/// the oldest message is dropped first when the queue is full, and a queue
/// that may hold nothing stays empty.
pub open spec fn push_bounded(p: Seq<PendingMessage>, msg: PendingMessage, max: nat) -> Seq<
    PendingMessage,
> {
    if max == 0 {
        Seq::empty()
    } else if p.len() >= max {
        p.drop_first().push(msg)
    } else {
        p.push(msg)
    }
}

/// The chat `key` of `m` is running.
pub open spec fn is_busy_in(m: Map<ChatKeyView, SlotState>, key: ChatKeyView) -> bool {
    m.dom().contains(key) && m[key].busy
}

/// The chats after starting a run in `key` at `now_ns` (the run starts only
/// if the chat was not running, see `start_succeeds`).
pub open spec fn start_model(m: Map<ChatKeyView, SlotState>, key: ChatKeyView, now_ns: u64) -> Map<
    ChatKeyView,
    SlotState,
> {
    let prepared = with_slot(m, key, now_ns);
    let s = prepared[key];
    if s.busy {
        prepared
    } else {
        prepared.insert(key, SlotState { busy: true, pending: s.pending, last_active_ns: now_ns })
    }
}

/// Starting a run in `key` at `now_ns` succeeds: the chat is not running.
pub open spec fn start_succeeds(m: Map<ChatKeyView, SlotState>, key: ChatKeyView, now_ns: u64) -> bool {
    !with_slot(m, key, now_ns)[key].busy
}

/// The chats after `try_start_or_enqueue`: the run starts if the chat is
/// free, else `msg` is queued.
pub open spec fn start_or_enqueue_model(
    m: Map<ChatKeyView, SlotState>,
    key: ChatKeyView,
    msg: PendingMessage,
    max: nat,
    now_ns: u64,
) -> Map<ChatKeyView, SlotState> {
    let prepared = with_slot(m, key, now_ns);
    let s = prepared[key];
    if s.busy {
        prepared.insert(
            key,
            SlotState { busy: true, pending: push_bounded(s.pending, msg, max), last_active_ns: s.last_active_ns },
        )
    } else {
        start_model(m, key, now_ns)
    }
}

/// The chats after `enqueue_if_busy`: `msg` is queued only if the chat is running.
pub open spec fn enqueue_model(
    m: Map<ChatKeyView, SlotState>,
    key: ChatKeyView,
    msg: PendingMessage,
    max: nat,
) -> Map<ChatKeyView, SlotState> {
    if is_busy_in(m, key) {
        let s = m[key];
        m.insert(
            key,
            SlotState { busy: true, pending: push_bounded(s.pending, msg, max), last_active_ns: s.last_active_ns },
        )
    } else {
        m
    }
}

/// The chats after draining the queue of `key`.
pub open spec fn drain_model(m: Map<ChatKeyView, SlotState>, key: ChatKeyView) -> Map<
    ChatKeyView,
    SlotState,
> {
    if m.dom().contains(key) {
        let s = m[key];
        m.insert(key, SlotState { busy: s.busy, pending: Seq::empty(), last_active_ns: s.last_active_ns })
    } else {
        m
    }
}

/// What draining the queue of `key` hands back, oldest first.
pub open spec fn drained(m: Map<ChatKeyView, SlotState>, key: ChatKeyView) -> Seq<PendingMessage> {
    if m.dom().contains(key) {
        m[key].pending
    } else {
        Seq::empty()
    }
}

/// The chats after the run of `key` ends.
pub open spec fn release_model(m: Map<ChatKeyView, SlotState>, key: ChatKeyView) -> Map<
    ChatKeyView,
    SlotState,
> {
    if m.dom().contains(key) {
        let s = m[key];
        m.insert(key, SlotState { busy: false, pending: s.pending, last_active_ns: s.last_active_ns })
    } else {
        m
    }
}

/// Every queue of `m` holds at most `max` messages.
pub open spec fn queues_bounded(m: Map<ChatKeyView, SlotState>, max: nat) -> bool {
    forall|k: ChatKeyView| #[trigger] m.dom().contains(k) ==> m[k].pending.len() <= max
}

fn push_bounded_exec(pending: &mut Vec<PendingMessage>, msg: PendingMessage, max: usize)
    requires
        old(pending)@.len() <= max,
    ensures
        final(pending)@ == push_bounded(old(pending)@, msg, max as nat),
        final(pending)@.len() <= max,
{
    if max == 0 {
        return;
    }
    if pending.len() >= max {
        pending.remove(0);
    }
    pending.push(msg);
}

spec fn filter_progress(
    orig: Seq<ChatSlot>,
    kept: Seq<ChatSlot>,
    src: Seq<int>,
    pos: Seq<int>,
    lo: int,
    now_ns: u64,
) -> bool {
    &&& src.len() == kept.len()
    &&& pos.len() == orig.len()
    &&& keys_unique(kept)
    &&& forall|j: int|
        0 <= j < kept.len() ==> lo <= #[trigger] src[j] < orig.len() && kept[j] == orig[src[j]]
            && !slot_is_idle(slot_state(orig[src[j]]), now_ns)
    &&& forall|i: int|
        lo <= i < orig.len() && !slot_is_idle(slot_state(#[trigger] orig[i]), now_ns) ==> 0 <= pos[i]
            < kept.len() && src[pos[i]] == i
}

proof fn lemma_filter_step(
    orig: Seq<ChatSlot>,
    kept: Seq<ChatSlot>,
    src: Seq<int>,
    pos: Seq<int>,
    r: int,
    now_ns: u64,
)
    requires
        keys_unique(orig),
        0 <= r < orig.len(),
        filter_progress(orig, kept, src, pos, r + 1, now_ns),
    ensures
        slot_is_idle(slot_state(orig[r]), now_ns) ==> filter_progress(orig, kept, src, pos, r, now_ns),
        !slot_is_idle(slot_state(orig[r]), now_ns) ==> filter_progress(
            orig,
            kept.push(orig[r]),
            src.push(r),
            pos.update(r, kept.len() as int),
            r,
            now_ns,
        ),
{
    if !slot_is_idle(slot_state(orig[r]), now_ns) {
        let k2 = kept.push(orig[r]);
        let s2 = src.push(r);
        let p2 = pos.update(r, kept.len() as int);
        assert forall|a: int, b: int|
            0 <= a < k2.len() && 0 <= b < k2.len() && a != b implies slot_key(#[trigger] k2[a])
            != slot_key(#[trigger] k2[b]) by {
            if a < kept.len() && b < kept.len() {
                assert(slot_key(kept[a]) != slot_key(kept[b]));
            } else if a < kept.len() {
                assert(k2[a] == orig[src[a]]);
                assert(src[a] != r);
            } else {
                assert(k2[b] == orig[src[b]]);
                assert(src[b] != r);
            }
        }
        assert forall|j: int| 0 <= j < k2.len() implies r <= #[trigger] s2[j] < orig.len() && k2[j]
            == orig[s2[j]] && !slot_is_idle(slot_state(orig[s2[j]]), now_ns) by {
            if j < kept.len() {
                assert(s2[j] == src[j]);
            }
        }
        assert forall|i: int|
            r <= i < orig.len() && !slot_is_idle(slot_state(#[trigger] orig[i]), now_ns) implies 0
            <= p2[i] < k2.len() && s2[p2[i]] == i by {
            if i != r {
                assert(p2[i] == pos[i]);
            }
        }
    }
}

proof fn lemma_filter_done(
    orig: Seq<ChatSlot>,
    kept: Seq<ChatSlot>,
    src: Seq<int>,
    pos: Seq<int>,
    now_ns: u64,
)
    requires
        keys_unique(orig),
        filter_progress(orig, kept, src, pos, 0, now_ns),
    ensures
        keys_unique(kept),
        entries_view(kept) == without_idle(entries_view(orig), now_ns),
{
    lemma_entry_all(orig);
    lemma_entry_all(kept);
    let lhs = entries_view(kept);
    let rhs = without_idle(entries_view(orig), now_ns);
    assert forall|k: ChatKeyView| #[trigger] lhs.dom().contains(k) implies rhs.dom().contains(k)
        && lhs[k] == rhs[k] by {
        let j = choose|j: int| 0 <= j < kept.len() && slot_key(kept[j]) == k;
        assert(kept[j] == orig[src[j]]);
        assert(slot_key(orig[src[j]]) == k);
    }
    assert forall|k: ChatKeyView| #[trigger] rhs.dom().contains(k) implies lhs.dom().contains(k) by {
        let i = choose|i: int| 0 <= i < orig.len() && slot_key(orig[i]) == k;
        assert(entries_view(orig)[k] == slot_state(orig[i]));
        assert(src[pos[i]] == i);
        assert(kept[pos[i]] == orig[i]);
        assert(slot_key(kept[pos[i]]) == k);
    }
    assert(lhs =~= rhs);
}

/// Looking up a chat never changes a running chat, nor any chat that is not
/// idle, and leaves the chat looked up with a slot.
pub proof fn law_lookup_keeps_live_chats(
    m: Map<ChatKeyView, SlotState>,
    key: ChatKeyView,
    other: ChatKeyView,
    now_ns: u64,
)
    requires
        m.dom().contains(other),
        !slot_is_idle(m[other], now_ns),
    ensures
        with_slot(m, key, now_ns).dom().contains(key),
        with_slot(m, key, now_ns).dom().contains(other),
        with_slot(m, key, now_ns)[other] == m[other],
{
}

/// Once a run has started in a chat, no second run starts there, at any
/// later time, until the first is released: `acquire` refuses and
/// `try_start_or_enqueue` queues the message instead.
pub proof fn law_one_run_per_chat(
    m: Map<ChatKeyView, SlotState>,
    key: ChatKeyView,
    t1: u64,
    t2: u64,
)
    requires
        start_succeeds(m, key, t1),
    ensures
        is_busy_in(start_model(m, key, t1), key),
        !start_succeeds(start_model(m, key, t1), key, t2),
{
}

/// A running chat refuses every start until its run is released.
pub proof fn law_running_chat_refuses_start(m: Map<ChatKeyView, SlotState>, key: ChatKeyView, now_ns: u64)
    requires
        is_busy_in(m, key),
    ensures
        !start_succeeds(m, key, now_ns),
        start_model(m, key, now_ns) == with_slot(m, key, now_ns),
{
}

/// After its run is released, a chat can be started again.
pub proof fn law_release_frees_chat(m: Map<ChatKeyView, SlotState>, key: ChatKeyView, now_ns: u64)
    ensures
        start_succeeds(release_model(m, key), key, now_ns),
{
}

/// A message queued while a chat runs comes back from the next drain, after
/// the messages queued before it, when the queue had room.
pub proof fn law_enqueue_then_drain(
    m: Map<ChatKeyView, SlotState>,
    key: ChatKeyView,
    msg: PendingMessage,
    max: nat,
)
    requires
        is_busy_in(m, key),
        m[key].pending.len() < max,
    ensures
        drained(enqueue_model(m, key, msg, max), key) == m[key].pending.push(msg),
{
}

/// Draining a chat twice gives nothing the second time.
pub proof fn law_drain_clears(m: Map<ChatKeyView, SlotState>, key: ChatKeyView)
    ensures
        drained(drain_model(m, key), key) == Seq::<PendingMessage>::empty(),
{
}

/// A queue that is full drops its oldest message: what remains is the
/// newest `max` messages, in arrival order.
pub proof fn law_full_queue_drops_oldest(p: Seq<PendingMessage>, msg: PendingMessage, max: nat)
    requires
        0 < max,
        p.len() <= max,
    ensures
        push_bounded(p, msg, max).len() <= max,
        push_bounded(p, msg, max).len() == if p.len() < max { p.len() + 1 } else { max },
        push_bounded(p, msg, max) == p.push(msg).subrange(
            p.len() + 1 - push_bounded(p, msg, max).len(),
            p.len() + 1 as int,
        ),
{
    assert(push_bounded(p, msg, max) =~= p.push(msg).subrange(
        p.len() + 1 - push_bounded(p, msg, max).len(),
        p.len() + 1 as int,
    ));
}

/// Every operation keeps every queue within capacity.
pub proof fn law_queues_stay_bounded(
    m: Map<ChatKeyView, SlotState>,
    key: ChatKeyView,
    msg: PendingMessage,
    max: nat,
    now_ns: u64,
)
    requires
        queues_bounded(m, max),
    ensures
        queues_bounded(start_model(m, key, now_ns), max),
        queues_bounded(start_or_enqueue_model(m, key, msg, max, now_ns), max),
        queues_bounded(enqueue_model(m, key, msg, max), max),
        queues_bounded(drain_model(m, key), max),
        queues_bounded(release_model(m, key), max),
{
    assert(queues_bounded(with_slot(m, key, now_ns), max));
}

/// Chats are independent: queuing, draining and releasing in one chat leave
/// every other chat as it was, and so does starting or queuing through a
/// lookup when no idle chat is forgotten.
pub proof fn law_other_chats_unaffected(
    m: Map<ChatKeyView, SlotState>,
    key: ChatKeyView,
    other: ChatKeyView,
    msg: PendingMessage,
    max: nat,
    now_ns: u64,
)
    requires
        key != other,
    ensures
        enqueue_model(m, key, msg, max).dom().contains(other) == m.dom().contains(other),
        enqueue_model(m, key, msg, max)[other] == m[other],
        drain_model(m, key).dom().contains(other) == m.dom().contains(other),
        drain_model(m, key)[other] == m[other],
        release_model(m, key).dom().contains(other) == m.dom().contains(other),
        release_model(m, key)[other] == m[other],
        m.dom().len() <= CLEANUP_THRESHOLD ==> start_model(m, key, now_ns).dom().contains(other)
            == m.dom().contains(other) && start_model(m, key, now_ns)[other] == m[other],
        m.dom().len() <= CLEANUP_THRESHOLD ==> start_or_enqueue_model(
            m,
            key,
            msg,
            max,
            now_ns,
        ).dom().contains(other) == m.dom().contains(other) && start_or_enqueue_model(
            m,
            key,
            msg,
            max,
            now_ns,
        )[other] == m[other],
{
}

/// Whatever the number of tracked chats, starting or queuing in one chat
/// never changes whether another chat is running nor what another chat has
/// queued: a chat that a lookup forgets was free with nothing queued, and a
/// forgotten chat reads as free with nothing queued.
pub proof fn law_other_chats_observably_unaffected(
    m: Map<ChatKeyView, SlotState>,
    key: ChatKeyView,
    other: ChatKeyView,
    msg: PendingMessage,
    max: nat,
    now_ns: u64,
)
    requires
        key != other,
    ensures
        is_busy_in(start_model(m, key, now_ns), other) == is_busy_in(m, other),
        drained(start_model(m, key, now_ns), other) == drained(m, other),
        is_busy_in(start_or_enqueue_model(m, key, msg, max, now_ns), other) == is_busy_in(m, other),
        drained(start_or_enqueue_model(m, key, msg, max, now_ns), other) == drained(m, other),
{
}

/// A lookup forgets no chat while at most `CLEANUP_THRESHOLD` chats are
/// tracked, and above that forgets only idle chats: free, with nothing
/// queued, and unused for longer than `IDLE_TTL_NS`. Every other chat it
/// keeps keeps its state; the chat looked up keeps its state too, unless it
/// was idle and forgotten, and then starts afresh.
pub proof fn law_lookup_forgets_only_idle(
    m: Map<ChatKeyView, SlotState>,
    key: ChatKeyView,
    k: ChatKeyView,
    now_ns: u64,
)
    requires
        m.dom().contains(k),
    ensures
        m.dom().len() <= CLEANUP_THRESHOLD ==> with_slot(m, key, now_ns).dom().contains(k),
        !with_slot(m, key, now_ns).dom().contains(k) ==> slot_is_idle(m[k], now_ns),
        k != key && with_slot(m, key, now_ns).dom().contains(k) ==> with_slot(m, key, now_ns)[k]
            == m[k],
        k == key ==> with_slot(m, key, now_ns)[k] == if m.dom().len() > CLEANUP_THRESHOLD
            && slot_is_idle(m[k], now_ns) {
            fresh_slot(now_ns)
        } else {
            m[k]
        },
{
}

/// `enqueue_if_busy` on a chat that is not running changes no chat, so a
/// start that would have succeeded still succeeds; on a running chat it
/// changes only that chat's queue, by one bounded push, and the chat stays
/// running.
pub proof fn law_enqueue_only_touches_running_chat(
    m: Map<ChatKeyView, SlotState>,
    key: ChatKeyView,
    msg: PendingMessage,
    max: nat,
    now_ns: u64,
)
    ensures
        !is_busy_in(m, key) ==> enqueue_model(m, key, msg, max) == m,
        start_succeeds(m, key, now_ns) ==> start_succeeds(enqueue_model(m, key, msg, max), key, now_ns),
        is_busy_in(m, key) ==> {
            let r = enqueue_model(m, key, msg, max);
            &&& r.dom() == m.dom()
            &&& r[key].busy
            &&& r[key].last_active_ns == m[key].last_active_ns
            &&& r[key].pending == push_bounded(m[key].pending, msg, max)
            &&& forall|k: ChatKeyView| k != key ==> #[trigger] r[k] == m[k]
        },
{
    if is_busy_in(m, key) {
        let r = enqueue_model(m, key, msg, max);
        assert(r.dom() =~= m.dom());
    }
}

/// A queue with room keeps every message and adds the new one last; a full
/// queue loses exactly its oldest message; a queue of capacity zero keeps
/// nothing.
pub proof fn law_push_bounded(p: Seq<PendingMessage>, msg: PendingMessage, max: nat)
    ensures
        p.len() < max ==> push_bounded(p, msg, max) == p.push(msg),
        0 < max <= p.len() ==> push_bounded(p, msg, max) == p.subrange(1, p.len() as int).push(msg),
        max == 0 ==> push_bounded(p, msg, max).len() == 0,
{
    assert(p.drop_first() =~= p.subrange(1, p.len() as int));
}

/// Releasing a chat frees it and keeps its queue and every other chat;
/// releasing an unknown chat changes nothing.
pub proof fn law_release_keeps_queues(m: Map<ChatKeyView, SlotState>, key: ChatKeyView)
    ensures
        m.dom().contains(key) ==> {
            let r = release_model(m, key);
            &&& r.dom() == m.dom()
            &&& !r[key].busy
            &&& r[key].pending == m[key].pending
            &&& forall|k: ChatKeyView| k != key ==> #[trigger] r[k] == m[k]
        },
        !m.dom().contains(key) ==> release_model(m, key) == m,
{
    if m.dom().contains(key) {
        assert(release_model(m, key).dom() =~= m.dom());
    }
}

/// Draining hands back the chat's queue as it was, empties it, and keeps
/// whether the chat runs and every other chat; draining an unknown chat
/// hands back nothing and changes nothing.
pub proof fn law_drain_hands_back_queue(m: Map<ChatKeyView, SlotState>, key: ChatKeyView)
    ensures
        m.dom().contains(key) ==> {
            let r = drain_model(m, key);
            &&& drained(m, key) == m[key].pending
            &&& r.dom() == m.dom()
            &&& r[key].busy == m[key].busy
            &&& r[key].pending.len() == 0
            &&& forall|k: ChatKeyView| k != key ==> #[trigger] r[k] == m[k]
        },
        !m.dom().contains(key) ==> drain_model(m, key) == m && drained(m, key).len() == 0,
{
    if m.dom().contains(key) {
        assert(drain_model(m, key).dom() =~= m.dom());
    }
}

/// A start that succeeds leaves the chat running since `now_ns` with the
/// queue it had; a start that fails changes the chat in no way beyond the
/// lookup, and the chat was running.
pub proof fn law_start_marks_running(m: Map<ChatKeyView, SlotState>, key: ChatKeyView, now_ns: u64)
    ensures
        start_succeeds(m, key, now_ns) ==> {
            let r = start_model(m, key, now_ns);
            &&& r[key].busy
            &&& r[key].last_active_ns == now_ns
            &&& r[key].pending == with_slot(m, key, now_ns)[key].pending
            &&& r.dom() == with_slot(m, key, now_ns).dom()
        },
        start_succeeds(m, key, now_ns) <==> !is_busy_in(m, key),
        !start_succeeds(m, key, now_ns) ==> start_model(m, key, now_ns) == with_slot(m, key, now_ns),
        m.dom().contains(key) && m[key].pending.len() > 0 ==> with_slot(m, key, now_ns)[key] == m[key],
        !m.dom().contains(key) ==> with_slot(m, key, now_ns)[key] == fresh_slot(now_ns),
{
    if start_succeeds(m, key, now_ns) {
        let w = with_slot(m, key, now_ns);
        assert(start_model(m, key, now_ns).dom() =~= w.dom());
    }
}

/// `try_start_or_enqueue` starts a run exactly when `acquire` would, and
/// then does what `acquire` does; otherwise the chat stays running since
/// its run began and the message is pushed onto its queue.
pub proof fn law_start_or_enqueue(
    m: Map<ChatKeyView, SlotState>,
    key: ChatKeyView,
    msg: PendingMessage,
    max: nat,
    now_ns: u64,
)
    ensures
        start_succeeds(m, key, now_ns) ==> start_or_enqueue_model(m, key, msg, max, now_ns)
            == start_model(m, key, now_ns),
        !start_succeeds(m, key, now_ns) ==> {
            let r = start_or_enqueue_model(m, key, msg, max, now_ns);
            &&& r.dom() == with_slot(m, key, now_ns).dom()
            &&& r[key].busy
            &&& r[key].last_active_ns == m[key].last_active_ns
            &&& r[key].pending == push_bounded(m[key].pending, msg, max)
            &&& forall|k: ChatKeyView| k != key ==> #[trigger] r[k] == with_slot(m, key, now_ns)[k]
        },
{
    if !start_succeeds(m, key, now_ns) {
        let r = start_or_enqueue_model(m, key, msg, max, now_ns);
        assert(r.dom() =~= with_slot(m, key, now_ns).dom());
    }
}

/// The queue `p` after the messages `msgs` arrive one by one.
pub open spec fn enqueue_all(p: Seq<PendingMessage>, msgs: Seq<PendingMessage>, max: nat) -> Seq<
    PendingMessage,
>
    decreases msgs.len(),
{
    if msgs.len() == 0 {
        p
    } else {
        push_bounded(enqueue_all(p, msgs.drop_last(), max), msgs.last(), max)
    }
}

/// The chats after `enqueue_if_busy` is called in `key` with each of `msgs`
/// in turn.
pub open spec fn enqueue_many_model(
    m: Map<ChatKeyView, SlotState>,
    key: ChatKeyView,
    msgs: Seq<PendingMessage>,
    max: nat,
) -> Map<ChatKeyView, SlotState>
    decreases msgs.len(),
{
    if msgs.len() == 0 {
        m
    } else {
        enqueue_model(enqueue_many_model(m, key, msgs.drop_last(), max), key, msgs.last(), max)
    }
}

proof fn lemma_enqueue_many(
    m: Map<ChatKeyView, SlotState>,
    key: ChatKeyView,
    msgs: Seq<PendingMessage>,
    max: nat,
)
    requires
        is_busy_in(m, key),
    ensures
        is_busy_in(enqueue_many_model(m, key, msgs, max), key),
        enqueue_many_model(m, key, msgs, max)[key].pending == enqueue_all(m[key].pending, msgs, max),
    decreases msgs.len(),
{
    if msgs.len() > 0 {
        lemma_enqueue_many(m, key, msgs.drop_last(), max);
    }
}

proof fn lemma_enqueue_all_newest(msgs: Seq<PendingMessage>, max: nat)
    ensures
        enqueue_all(Seq::empty(), msgs, max) == msgs.skip(
            msgs.len() - if msgs.len() < max { msgs.len() as int } else { max as int },
        ),
    decreases msgs.len(),
{
    if msgs.len() > 0 {
        let d = msgs.drop_last();
        lemma_enqueue_all_newest(d, max);
        let n = msgs.len() as int;
        if max == 0 {
            assert(msgs.skip(n) =~= Seq::<PendingMessage>::empty());
        } else if n - 1 >= max {
            assert(d.skip(n - 1 - max).drop_first().push(msgs.last()) =~= msgs.skip(n - max));
        } else {
            assert(d.skip(0) =~= d);
            assert(d.push(msgs.last()) =~= msgs.skip(0));
        }
    }
}

proof fn lemma_enqueue_all_room(p: Seq<PendingMessage>, msgs: Seq<PendingMessage>, max: nat)
    requires
        p.len() + msgs.len() <= max,
    ensures
        enqueue_all(p, msgs, max) == p + msgs,
    decreases msgs.len(),
{
    if msgs.len() > 0 {
        lemma_enqueue_all_room(p, msgs.drop_last(), max);
        assert(p + msgs.drop_last() + seq![msgs.last()] =~= p + msgs);
        assert((p + msgs.drop_last()).push(msgs.last()) =~= p + msgs);
    } else {
        assert(p + msgs =~= p);
    }
}

/// While a chat runs, a series of messages queued in it and then drained
/// comes back as the newest `max` of them (all of them when there are no
/// more than `max`), each once, in arrival order.
pub proof fn law_enqueues_then_drain_keep_newest(
    m: Map<ChatKeyView, SlotState>,
    key: ChatKeyView,
    msgs: Seq<PendingMessage>,
    max: nat,
)
    requires
        is_busy_in(m, key),
        m[key].pending.len() == 0,
    ensures
        drained(enqueue_many_model(m, key, msgs, max), key) == msgs.skip(
            msgs.len() - if msgs.len() < max { msgs.len() as int } else { max as int },
        ),
        msgs.len() <= max ==> drained(enqueue_many_model(m, key, msgs, max), key) == msgs,
{
    lemma_enqueue_many(m, key, msgs, max);
    assert(m[key].pending =~= Seq::<PendingMessage>::empty());
    lemma_enqueue_all_newest(msgs, max);
    assert(msgs.skip(0) =~= msgs);
}

/// The messages of a series of `try_start_or_enqueue` calls.
pub open spec fn call_messages(calls: Seq<(PendingMessage, u64)>) -> Seq<PendingMessage> {
    calls.map_values(|c: (PendingMessage, u64)| c.0)
}

/// The chats after `try_start_or_enqueue` is called in `key` with each
/// message and time of `calls` in turn.
pub open spec fn start_or_enqueue_many_model(
    m: Map<ChatKeyView, SlotState>,
    key: ChatKeyView,
    calls: Seq<(PendingMessage, u64)>,
    max: nat,
) -> Map<ChatKeyView, SlotState>
    decreases calls.len(),
{
    if calls.len() == 0 {
        m
    } else {
        start_or_enqueue_model(
            start_or_enqueue_many_model(m, key, calls.drop_last(), max),
            key,
            calls.last().0,
            max,
            calls.last().1,
        )
    }
}

/// Which calls of such a series start a run (return a guard).
pub open spec fn start_or_enqueue_wins(
    m: Map<ChatKeyView, SlotState>,
    key: ChatKeyView,
    calls: Seq<(PendingMessage, u64)>,
    max: nat,
) -> Seq<bool>
    decreases calls.len(),
{
    if calls.len() == 0 {
        Seq::empty()
    } else {
        start_or_enqueue_wins(m, key, calls.drop_last(), max).push(
            start_succeeds(start_or_enqueue_many_model(m, key, calls.drop_last(), max), key, calls.last().1),
        )
    }
}

proof fn lemma_start_or_enqueue_many(
    m: Map<ChatKeyView, SlotState>,
    key: ChatKeyView,
    calls: Seq<(PendingMessage, u64)>,
    max: nat,
)
    requires
        !is_busy_in(m, key),
        calls.len() >= 1,
    ensures
        start_or_enqueue_wins(m, key, calls, max).len() == calls.len(),
        start_or_enqueue_wins(m, key, calls, max)[0],
        forall|i: int|
            1 <= i < calls.len() ==> !(#[trigger] start_or_enqueue_wins(m, key, calls, max)[i]),
        is_busy_in(start_or_enqueue_many_model(m, key, calls, max), key),
        start_or_enqueue_many_model(m, key, calls, max)[key].pending == enqueue_all(
            with_slot(m, key, calls[0].1)[key].pending,
            call_messages(calls).drop_first(),
            max,
        ),
    decreases calls.len(),
{
    let p0 = with_slot(m, key, calls[0].1)[key].pending;
    if calls.len() == 1 {
        let d = calls.drop_last();
        assert(d =~= Seq::<(PendingMessage, u64)>::empty());
        assert(start_or_enqueue_wins(m, key, d, max) =~= Seq::<bool>::empty());
        assert(start_or_enqueue_many_model(m, key, d, max) == m);
        assert(calls.last() == calls[0]);
        assert(!with_slot(m, key, calls[0].1)[key].busy);
        assert(call_messages(calls).drop_first() =~= Seq::<PendingMessage>::empty());
    } else {
        let d = calls.drop_last();
        lemma_start_or_enqueue_many(m, key, d, max);
        assert(d[0] == calls[0]);
        let prev = start_or_enqueue_many_model(m, key, d, max);
        assert(with_slot(prev, key, calls.last().1)[key] == prev[key]);
        let ws = start_or_enqueue_wins(m, key, calls, max);
        let wd = start_or_enqueue_wins(m, key, d, max);
        assert forall|i: int| 1 <= i < calls.len() implies !(#[trigger] ws[i]) by {
            if i < d.len() {
                assert(ws[i] == wd[i]);
            }
        }
        assert(ws[0] == wd[0]);
        assert(call_messages(calls).drop_first().drop_last() =~= call_messages(d).drop_first());
        assert(call_messages(calls).drop_first().last() == calls.last().0);
    }
}

/// Of a series of `try_start_or_enqueue` calls in a chat that is not
/// running, with no release in between, exactly one starts a run: the
/// first. Every later call queues its message; when the queue has room for
/// them, each of those messages is queued once, after what was already
/// queued, in call order, and the first call's message is not queued.
pub proof fn law_exactly_one_start(
    m: Map<ChatKeyView, SlotState>,
    key: ChatKeyView,
    calls: Seq<(PendingMessage, u64)>,
    max: nat,
)
    requires
        !is_busy_in(m, key),
        calls.len() >= 1,
    ensures
        start_or_enqueue_wins(m, key, calls, max).len() == calls.len(),
        start_or_enqueue_wins(m, key, calls, max)[0],
        forall|i: int|
            1 <= i < calls.len() ==> !(#[trigger] start_or_enqueue_wins(m, key, calls, max)[i]),
        is_busy_in(start_or_enqueue_many_model(m, key, calls, max), key),
        drained(start_or_enqueue_many_model(m, key, calls, max), key) == enqueue_all(
            drained(with_slot(m, key, calls[0].1), key),
            call_messages(calls).drop_first(),
            max,
        ),
        drained(with_slot(m, key, calls[0].1), key).len() + calls.len() - 1 <= max ==> drained(
            start_or_enqueue_many_model(m, key, calls, max),
            key,
        ) == drained(with_slot(m, key, calls[0].1), key) + call_messages(calls).drop_first(),
{
    lemma_start_or_enqueue_many(m, key, calls, max);
    let p0 = drained(with_slot(m, key, calls[0].1), key);
    if p0.len() + calls.len() - 1 <= max {
        lemma_enqueue_all_room(p0, call_messages(calls).drop_first(), max);
    }
}

/// Per-chat turn serialization queue.
///
/// Ensures at most one agent run per (channel, chat id, user id). Messages
/// arriving during an active run are coalesced into a pending queue that can
/// be drained after the run completes.
pub struct ChatTurnQueue {
    slots: Vec<ChatSlot>,
    max_pending: usize,
    id: String,
}

impl View for ChatTurnQueue {
    type V = Map<ChatKeyView, SlotState>;

    closed spec fn view(&self) -> Map<ChatKeyView, SlotState> {
        entries_view(self.slots@)
    }
}

impl ChatTurnQueue {
    /// Capacity of each chat's pending queue.
    pub closed spec fn max_pending(&self) -> nat {
        self.max_pending as nat
    }

    /// The identity of this queue, which the guards it issues carry.
    pub closed spec fn queue_id(&self) -> Seq<char> {
        self.id@
    }

    /// The identity of this queue.
    pub fn id(&self) -> (res: &str)
        ensures
            res@ == self.queue_id(),
    {
        self.id.as_str()
    }

    /// The internal invariant: one slot per chat, every queue within capacity.
    pub closed spec fn wf(&self) -> bool {
        &&& keys_unique(self.slots@)
        &&& forall|i: int|
            0 <= i < self.slots@.len() ==> (#[trigger] self.slots@[i]).pending@.len()
                <= self.max_pending
    }

    /// Every chat of a well-formed queue holds at most `max_pending` messages.
    pub proof fn law_every_queue_within_capacity(&self)
        requires
            self.wf(),
        ensures
            self@.dom().finite(),
            queues_bounded(self@, self.max_pending()),
    {
        lemma_len(self.slots@);
        lemma_entry_all(self.slots@);
        assert forall|k: ChatKeyView| #[trigger] self@.dom().contains(k) implies self@[k].pending.len()
            <= self.max_pending() by {
            let j = choose|j: int| 0 <= j < self.slots@.len() && slot_key(self.slots@[j]) == k;
            assert(self.slots@[j].pending@.len() <= self.max_pending);
        }
    }

    /// An empty queue whose chats each queue at most `max_pending` messages,
    /// with a fresh random identity.
    pub fn new(max_pending: usize) -> (q: Self)
        ensures
            q.wf(),
            q@ == Map::<ChatKeyView, SlotState>::empty(),
            q.max_pending() == max_pending,
            sessions::is_simple_uuid(q.queue_id()),
    {
        let q = ChatTurnQueue { slots: Vec::new(), max_pending, id: new_uuid_simple() };
        assert(q@ =~= Map::<ChatKeyView, SlotState>::empty());
        q
    }

    /// Whether a run is active in the chat.
    pub fn is_busy(&self, channel: &str, chat_id: i64, user_id: &str) -> (res: bool)
        requires
            self.wf(),
        ensures
            res == is_busy_in(self@, (channel@, chat_id, user_id@)),
    {
        let channel = String::from_str(channel);
        let user_id = String::from_str(user_id);
        match self.find(&channel, chat_id, &user_id) {
            Some(i) => {
                proof {
                    lemma_entry(self.slots@, i as int);
                }
                self.slots[i].busy
            },
            None => {
                proof {
                    lemma_entry_all(self.slots@);
                }
                false
            },
        }
    }

    /// The number of messages queued in the chat.
    pub fn pending_count(&self, channel: &str, chat_id: i64, user_id: &str) -> (res: usize)
        requires
            self.wf(),
        ensures
            res == drained(self@, (channel@, chat_id, user_id@)).len(),
    {
        let channel = String::from_str(channel);
        let user_id = String::from_str(user_id);
        match self.find(&channel, chat_id, &user_id) {
            Some(i) => {
                proof {
                    lemma_entry(self.slots@, i as int);
                }
                self.slots[i].pending.len()
            },
            None => {
                proof {
                    lemma_entry_all(self.slots@);
                }
                0
            },
        }
    }

    /// The capacity of each chat's pending queue.
    pub fn max_pending_messages(&self) -> (res: usize)
        ensures
            res == self.max_pending(),
    {
        self.max_pending
    }

    /// The number of chats currently tracked.
    pub fn tracked_chats(&self) -> (res: usize)
        requires
            self.wf(),
        ensures
            res == self@.dom().len(),
    {
        proof {
            lemma_len(self.slots@);
        }
        self.slots.len()
    }

    /// Ends the run that `guard` stands for: the chat is free again. The
    /// guard must come from this queue.
    pub fn release(&mut self, guard: TurnGuard)
        requires
            old(self).wf(),
            guard.queue_id() == old(self).queue_id(),
        ensures
            final(self).wf(),
            final(self).max_pending() == old(self).max_pending(),
            final(self).queue_id() == old(self).queue_id(),
            final(self)@ == release_model(old(self)@, guard.key()),
    {
        match self.find(&guard.channel, guard.chat_id, &guard.user_id) {
            Some(i) => {
                let ghost before = self.slots@;
                self.slots[i].busy = false;
                proof {
                    lemma_entry(before, i as int);
                    lemma_update(before, i as int, self.slots@[i as int]);
                    assert(self.slots@ == before.update(i as int, self.slots@[i as int]));
                }
            },
            None => {},
        }
    }

    /// Drains all pending messages accumulated during the current turn,
    /// in arrival order.
    pub fn drain_pending(&mut self, channel: &str, chat_id: i64, user_id: &str) -> (res: Vec<
        PendingMessage,
    >)
        requires
            old(self).wf(),
        ensures
            final(self).wf(),
            final(self).max_pending() == old(self).max_pending(),
            final(self).queue_id() == old(self).queue_id(),
            res@ == drained(old(self)@, (channel@, chat_id, user_id@)),
            final(self)@ == drain_model(old(self)@, (channel@, chat_id, user_id@)),
    {
        let channel = String::from_str(channel);
        let user_id = String::from_str(user_id);
        let mut out: Vec<PendingMessage> = Vec::new();
        match self.find(&channel, chat_id, &user_id) {
            Some(i) => {
                let ghost before = self.slots@;
                std::mem::swap(&mut out, &mut self.slots[i].pending);
                proof {
                    lemma_entry(before, i as int);
                    lemma_update(before, i as int, self.slots@[i as int]);
                    assert(self.slots@ == before.update(i as int, self.slots@[i as int]));
                    assert(self@ =~= drain_model(entries_view(before), (channel@, chat_id, user_id@)));
                }
            },
            None => {
                proof {
                    lemma_entry_all(self.slots@);
                }
            },
        }
        out
    }

    /// Queues a message for a chat that currently has an active run.
    ///
    /// Returns `true` if the chat has an active run (the message was
    /// queued), `false` if no run is active (the caller should start one).
    pub fn enqueue_if_busy(
        &mut self,
        channel: &str,
        chat_id: i64,
        user_id: &str,
        msg: PendingMessage,
    ) -> (queued: bool)
        requires
            old(self).wf(),
        ensures
            final(self).wf(),
            final(self).max_pending() == old(self).max_pending(),
            final(self).queue_id() == old(self).queue_id(),
            queued == is_busy_in(old(self)@, (channel@, chat_id, user_id@)),
            !queued ==> final(self)@ == old(self)@,
            queued ==> {
                let key = (channel@, chat_id, user_id@);
                &&& final(self)@.dom() == old(self)@.dom()
                &&& final(self)@[key].busy
                &&& final(self)@[key].last_active_ns == old(self)@[key].last_active_ns
                &&& final(self)@[key].pending == push_bounded(
                    old(self)@[key].pending,
                    msg,
                    old(self).max_pending(),
                )
                &&& forall|k: ChatKeyView| k != key ==> #[trigger] final(self)@[k] == old(self)@[k]
            },
            final(self)@ == enqueue_model(
                old(self)@,
                (channel@, chat_id, user_id@),
                msg,
                old(self).max_pending(),
            ),
    {
        let channel = String::from_str(channel);
        let user_id = String::from_str(user_id);
        match self.find(&channel, chat_id, &user_id) {
            Some(i) => {
                proof {
                    lemma_entry(self.slots@, i as int);
                }
                if !self.slots[i].busy {
                    return false;
                }
                let ghost before = self.slots@;
                let max = self.max_pending;
                push_bounded_exec(&mut self.slots[i].pending, msg, max);
                proof {
                    lemma_update(before, i as int, self.slots@[i as int]);
                    assert(self.slots@ == before.update(i as int, self.slots@[i as int]));
                    assert(self@ =~= enqueue_model(
                        entries_view(before),
                        (channel@, chat_id, user_id@),
                        msg,
                        max as nat,
                    ));
                }
                true
            },
            None => {
                proof {
                    lemma_entry_all(self.slots@);
                }
                false
            },
        }
    }

    /// Gets or creates the slot of a chat, first forgetting idle chats when
    /// more than `CLEANUP_THRESHOLD` chats are tracked.
    fn get_slot(&mut self, channel: String, chat_id: i64, user_id: String, now_ns: u64) -> (i:
        usize)
        requires
            old(self).wf(),
        ensures
            final(self).wf(),
            final(self).max_pending() == old(self).max_pending(),
            final(self).queue_id() == old(self).queue_id(),
            final(self)@ == with_slot(old(self)@, (channel@, chat_id, user_id@), now_ns),
            i < final(self).slots@.len(),
            slot_key(final(self).slots@[i as int]) == (channel@, chat_id, user_id@),
            final(self)@[(channel@, chat_id, user_id@)] == slot_state(final(self).slots@[i as int]),
    {
        proof {
            lemma_len(self.slots@);
        }
        if self.slots.len() > CLEANUP_THRESHOLD {
            self.forget_idle(now_ns);
        }
        let ghost cleaned = self@;
        let ghost key = (channel@, chat_id, user_id@);
        match self.find(&channel, chat_id, &user_id) {
            Some(i) => {
                proof {
                    lemma_entry(self.slots@, i as int);
                }
                i
            },
            None => {
                let ghost before = self.slots@;
                let slot = ChatSlot {
                    channel,
                    chat_id,
                    user_id,
                    busy: false,
                    pending: Vec::new(),
                    last_active_ns: now_ns,
                };
                proof {
                    lemma_push(before, slot);
                    assert(slot_state(slot) == fresh_slot(now_ns));
                    assert(!cleaned.dom().contains(key));
                }
                self.slots.push(slot);
                proof {
                    lemma_entry(self.slots@, before.len() as int);
                }
                self.slots.len() - 1
            },
        }
    }

    /// Marks slot `i` as running from `now_ns`.
    fn start_in_slot(&mut self, i: usize, now_ns: u64)
        requires
            old(self).wf(),
            i < old(self).slots@.len(),
        ensures
            final(self).wf(),
            final(self).max_pending() == old(self).max_pending(),
            final(self).queue_id() == old(self).queue_id(),
            final(self)@ == old(self)@.insert(
                slot_key(old(self).slots@[i as int]),
                SlotState {
                    busy: true,
                    pending: old(self).slots@[i as int].pending@,
                    last_active_ns: now_ns,
                },
            ),
    {
        let ghost before = self.slots@;
        self.slots[i].busy = true;
        self.slots[i].last_active_ns = now_ns;
        proof {
            lemma_update(before, i as int, self.slots@[i as int]);
            assert(self.slots@ == before.update(i as int, self.slots@[i as int]));
        }
    }

    /// Tries to take the turn of a chat at `now_ns`.
    ///
    /// Returns the guard when no run is active in the chat; returns `None`
    /// when one is, and the caller waits for it to be released and tries
    /// again.
    pub fn acquire(&mut self, channel: &str, chat_id: i64, user_id: &str, now_ns: u64) -> (res:
        Option<TurnGuard>)
        requires
            old(self).wf(),
        ensures
            final(self).wf(),
            final(self).max_pending() == old(self).max_pending(),
            final(self).queue_id() == old(self).queue_id(),
            res is Some <==> start_succeeds(old(self)@, (channel@, chat_id, user_id@), now_ns),
            res matches Some(g) ==> g.key() == (channel@, chat_id, user_id@) && g.queue_id()
                == old(self).queue_id(),
            final(self)@ == start_model(old(self)@, (channel@, chat_id, user_id@), now_ns),
    {
        let i = self.get_slot(String::from_str(channel), chat_id, String::from_str(user_id), now_ns);
        if self.slots[i].busy {
            return None;
        }
        self.start_in_slot(i, now_ns);
        Some(TurnGuard {
                    queue: self.id.clone(),
                    channel: String::from_str(channel),
                    chat_id,
                    user_id: String::from_str(user_id),
                })
    }

    /// Atomically starts a new turn or queues the message.
    ///
    /// If no turn is active, takes it and returns the guard. If a turn is
    /// active, queues the message (dropping the oldest one when the queue
    /// is full) and returns `None`.
    pub fn try_start_or_enqueue(
        &mut self,
        channel: &str,
        chat_id: i64,
        user_id: &str,
        msg: PendingMessage,
        now_ns: u64,
    ) -> (res: Option<TurnGuard>)
        requires
            old(self).wf(),
        ensures
            final(self).wf(),
            final(self).max_pending() == old(self).max_pending(),
            final(self).queue_id() == old(self).queue_id(),
            res is Some <==> start_succeeds(old(self)@, (channel@, chat_id, user_id@), now_ns),
            res matches Some(g) ==> g.key() == (channel@, chat_id, user_id@) && g.queue_id()
                == old(self).queue_id(),
            final(self)@ == start_or_enqueue_model(
                old(self)@,
                (channel@, chat_id, user_id@),
                msg,
                old(self).max_pending(),
                now_ns,
            ),
    {
        let i = self.get_slot(String::from_str(channel), chat_id, String::from_str(user_id), now_ns);
        if !self.slots[i].busy {
            self.start_in_slot(i, now_ns);
            return Some(
                TurnGuard {
                    queue: self.id.clone(),
                    channel: String::from_str(channel),
                    chat_id,
                    user_id: String::from_str(user_id),
                },
            );
        }
        let ghost before = self.slots@;
        let max = self.max_pending;
        push_bounded_exec(&mut self.slots[i].pending, msg, max);
        proof {
            lemma_update(before, i as int, self.slots@[i as int]);
            assert(self.slots@ == before.update(i as int, self.slots@[i as int]));
        }
        None
    }

    /// Forgets every chat that is idle at `now_ns`.
    fn forget_idle(&mut self, now_ns: u64)
        requires
            old(self).wf(),
        ensures
            final(self).wf(),
            final(self).max_pending() == old(self).max_pending(),
            final(self).queue_id() == old(self).queue_id(),
            final(self)@ == without_idle(old(self)@, now_ns),
    {
        let ghost orig = self.slots@;
        let ghost mut src: Seq<int> = Seq::empty();
        let ghost mut pos: Seq<int> = Seq::new(orig.len(), |i: int| 0);
        let mut rest: Vec<ChatSlot> = Vec::new();
        std::mem::swap(&mut rest, &mut self.slots);
        while rest.len() > 0
            invariant
                keys_unique(orig),
                self.max_pending == old(self).max_pending,
                self.id == old(self).id,
                orig == old(self).slots@,
                rest@.len() <= orig.len(),
                rest@ == orig.take(rest@.len() as int),
                filter_progress(orig, self.slots@, src, pos, rest@.len() as int, now_ns),
            decreases rest@.len(),
        {
            let ghost r = rest@.len() - 1;
            let ghost kept = self.slots@;
            match rest.pop() {
                Some(s) => {
                    assert(s == orig[r]);
                    let idle = !s.busy && s.pending.len() == 0 && now_ns >= s.last_active_ns
                        && now_ns - s.last_active_ns > IDLE_TTL_NS;
                    proof {
                        lemma_filter_step(orig, kept, src, pos, r, now_ns);
                    }
                    if !idle {
                        self.slots.push(s);
                        proof {
                            pos = pos.update(r, kept.len() as int);
                            src = src.push(r);
                        }
                    }
                    assert(rest@ =~= orig.take(rest@.len() as int));
                },
                None => {},
            }
        }
        proof {
            lemma_filter_done(orig, self.slots@, src, pos, now_ns);
        }
        assert forall|j: int| 0 <= j < self.slots@.len() implies (#[trigger] self.slots@[j]).pending@.len()
            <= self.max_pending by {
            assert(self.slots@[j] == orig[src[j]]);
        }
    }

    fn find(&self, channel: &String, chat_id: i64, user_id: &String) -> (res: Option<usize>)
        ensures
            match res {
                Some(i) => i < self.slots@.len() && slot_key(self.slots@[i as int]) == (
                    channel@,
                    chat_id,
                    user_id@,
                ),
                None => !has_key(self.slots@, (channel@, chat_id, user_id@)),
            },
    {
        let mut i: usize = 0;
        while i < self.slots.len()
            invariant
                i <= self.slots@.len(),
                forall|j: int|
                    0 <= j < i ==> slot_key(#[trigger] self.slots@[j]) != (
                        channel@,
                        chat_id,
                        user_id@,
                    ),
            decreases self.slots@.len() - i,
        {
            let s = &self.slots[i];
            if s.chat_id == chat_id && s.channel == *channel && s.user_id == *user_id {
                return Some(i);
            }
            i = i + 1;
        }
        None
    }
}

} // verus!
