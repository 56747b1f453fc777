use microclaw::chat_turn_queue::{ChatTurnQueue, PendingMessage};

const U: &str = "u1";

fn make_queue() -> ChatTurnQueue {
    ChatTurnQueue::new(20)
}

fn make_msg(content: &str) -> PendingMessage {
    PendingMessage {
        sender_name: "user".to_string(),
        content: content.to_string(),
        message_id: format!("msg_{content}"),
        timestamp: "2026-04-01T00:00:00Z".to_string(),
    }
}

fn contents(pending: &[PendingMessage]) -> Vec<String> {
    pending.iter().map(|m| m.content.clone()).collect()
}

#[test]
fn test_acquire_release_basic() {
    let mut q = make_queue();
    let guard = q.acquire("telegram", 1, U, 0);
    assert!(guard.is_some());
    q.release(guard.unwrap());
    let guard2 = q.acquire("telegram", 1, U, 10);
    assert!(guard2.is_some());
}

#[test]
fn test_acquire_blocks_concurrent() {
    let mut q = make_queue();
    let guard = q.acquire("tg", 1, U, 0).unwrap();
    // A second run in the same chat must wait while the first holds the turn.
    assert!(q.acquire("tg", 1, U, 50).is_none());
    assert!(q.acquire("tg", 1, U, 60).is_none());
    q.release(guard);
    assert!(q.acquire("tg", 1, U, 70).is_some());
}

#[test]
fn test_enqueue_if_busy_returns_true_when_active() {
    let mut q = make_queue();
    let _guard = q.acquire("tg", 1, U, 0).unwrap();
    let queued = q.enqueue_if_busy("tg", 1, U, make_msg("hello"));
    assert!(queued);
    let queued2 = q.enqueue_if_busy("tg", 1, U, make_msg("world"));
    assert!(queued2);
}

#[test]
fn test_enqueue_if_busy_returns_false_when_idle() {
    let mut q = make_queue();
    let queued = q.enqueue_if_busy("tg", 1, U, make_msg("hello"));
    assert!(!queued);
}

#[test]
fn test_drain_pending_returns_all() {
    let mut q = make_queue();
    let _guard = q.acquire("tg", 1, U, 0).unwrap();
    q.enqueue_if_busy("tg", 1, U, make_msg("a"));
    q.enqueue_if_busy("tg", 1, U, make_msg("b"));
    q.enqueue_if_busy("tg", 1, U, make_msg("c"));
    let pending = q.drain_pending("tg", 1, U);
    assert_eq!(pending.len(), 3);
    assert_eq!(pending[0].content, "a");
    assert_eq!(pending[1].content, "b");
    assert_eq!(pending[2].content, "c");
}

#[test]
fn test_drain_clears_queue() {
    let mut q = make_queue();
    let _guard = q.acquire("tg", 1, U, 0).unwrap();
    q.enqueue_if_busy("tg", 1, U, make_msg("a"));
    let _ = q.drain_pending("tg", 1, U);
    let pending = q.drain_pending("tg", 1, U);
    assert!(pending.is_empty());
}

#[test]
fn test_different_chats_independent() {
    let mut q = make_queue();
    let _guard_chat1 = q.acquire("tg", 1, U, 0).unwrap();
    let other = q.acquire("tg", 2, U, 1);
    assert!(other.is_some());
}

#[test]
fn test_max_pending_drops_oldest() {
    let mut q = ChatTurnQueue::new(3);
    let _guard = q.acquire("tg", 1, U, 0).unwrap();
    q.enqueue_if_busy("tg", 1, U, make_msg("a"));
    q.enqueue_if_busy("tg", 1, U, make_msg("b"));
    q.enqueue_if_busy("tg", 1, U, make_msg("c"));
    q.enqueue_if_busy("tg", 1, U, make_msg("d"));
    let pending = q.drain_pending("tg", 1, U);
    assert_eq!(pending.len(), 3);
    assert_eq!(pending[0].content, "b");
    assert_eq!(pending[1].content, "c");
    assert_eq!(pending[2].content, "d");
}

#[test]
fn two_users_acquire_same_chat_id_independently() {
    let mut q = make_queue();
    let guard_u1 = q.acquire("web", 7, "u1", 0).unwrap();
    let g = q.acquire("web", 7, "u2", 1);
    assert!(g.is_some(), "u2 must not block on u1's lock");
    q.release(guard_u1);
}

#[test]
fn drain_pending_isolated_per_user() {
    let mut q = make_queue();
    let _g_u1 = q.acquire("web", 9, "u1", 0).unwrap();
    let _g_u2 = q.acquire("web", 9, "u2", 0).unwrap();
    q.enqueue_if_busy("web", 9, "u1", make_msg("u1-a"));
    q.enqueue_if_busy("web", 9, "u2", make_msg("u2-a"));
    let p1 = q.drain_pending("web", 9, "u1");
    let p2 = q.drain_pending("web", 9, "u2");
    assert_eq!(p1.len(), 1);
    assert_eq!(p1[0].content, "u1-a");
    assert_eq!(p2.len(), 1);
    assert_eq!(p2[0].content, "u2-a");
}

#[test]
fn try_start_or_enqueue_starts_when_free_then_queues() {
    let mut q = make_queue();
    let g = q.try_start_or_enqueue("tg", 5, U, make_msg("first"), 0);
    assert!(g.is_some());
    let g = g.unwrap();
    assert_eq!(g.channel(), "tg");
    assert_eq!(g.chat_id(), 5);
    assert_eq!(g.user_id(), U);
    assert!(q.try_start_or_enqueue("tg", 5, U, make_msg("second"), 1).is_none());
    assert!(q.try_start_or_enqueue("tg", 5, U, make_msg("third"), 2).is_none());
    assert_eq!(contents(&q.drain_pending("tg", 5, U)), vec!["second", "third"]);
    q.release(g);
    assert!(q.try_start_or_enqueue("tg", 5, U, make_msg("fourth"), 3).is_some());
    assert!(q.drain_pending("tg", 5, U).is_empty());
}

#[test]
fn try_start_or_enqueue_drops_oldest_when_full() {
    let mut q = ChatTurnQueue::new(2);
    let _g = q.try_start_or_enqueue("tg", 1, U, make_msg("start"), 0).unwrap();
    for c in ["a", "b", "c", "d"] {
        assert!(q.try_start_or_enqueue("tg", 1, U, make_msg(c), 1).is_none());
    }
    assert_eq!(contents(&q.drain_pending("tg", 1, U)), vec!["c", "d"]);
}

#[test]
fn pending_kept_across_release_until_drained() {
    let mut q = make_queue();
    let g = q.acquire("tg", 1, U, 0).unwrap();
    assert!(q.enqueue_if_busy("tg", 1, U, make_msg("late")));
    q.release(g);
    // Released: nothing more is queued, but what was queued stays.
    assert!(!q.enqueue_if_busy("tg", 1, U, make_msg("ignored")));
    assert_eq!(contents(&q.drain_pending("tg", 1, U)), vec!["late"]);
}

#[test]
fn drain_of_unknown_chat_is_empty() {
    let mut q = make_queue();
    assert!(q.drain_pending("tg", 42, U).is_empty());
}

#[test]
fn idle_chats_are_forgotten_past_threshold() {
    let mut q = make_queue();
    // 101 chats, each started and released at time 0.
    for id in 0..101 {
        let g = q.acquire("tg", id, U, 0).unwrap();
        q.release(g);
    }
    assert_eq!(q.tracked_chats(), 101);
    // Chat 0 keeps a queued message, chat 1 stays running.
    let g0 = q.acquire("tg", 0, U, 0).unwrap();
    assert!(q.enqueue_if_busy("tg", 0, U, make_msg("keep")));
    q.release(g0);
    let _g1 = q.acquire("tg", 1, U, 0).unwrap();
    // Past the idle time, a lookup forgets the idle chats (all but 0 and 1).
    let t = 600_000_000_001;
    let _g = q.acquire("tg", 500, U, t).unwrap();
    assert_eq!(q.tracked_chats(), 3);
    // Chat 1 is still running, chat 0 still has its message.
    assert!(q.acquire("tg", 1, U, t).is_none());
    assert_eq!(contents(&q.drain_pending("tg", 0, U)), vec!["keep"]);
}

#[test]
fn idle_chats_are_kept_before_ttl() {
    let mut q = make_queue();
    for id in 0..101 {
        let g = q.acquire("tg", id, U, 0).unwrap();
        q.release(g);
    }
    // Exactly the idle time has passed: nothing is forgotten yet.
    let _ = q.acquire("tg", 500, U, 600_000_000_000).unwrap();
    assert_eq!(q.tracked_chats(), 102);
}

#[test]
fn no_cleanup_at_threshold() {
    let mut q = make_queue();
    for id in 0..100 {
        let g = q.acquire("tg", id, U, 0).unwrap();
        q.release(g);
    }
    // 100 chats is not more than the threshold: nothing is forgotten.
    let _ = q.acquire("tg", 500, U, 10_000_000).unwrap();
    assert_eq!(q.tracked_chats(), 101);
}

#[test]
fn zero_capacity_drops_every_message() {
    let mut q = ChatTurnQueue::new(0);
    let _g = q.acquire("tg", 1, U, 0).unwrap();
    // The chat is running: the message counts as queued, but nothing is kept.
    assert!(q.enqueue_if_busy("tg", 1, U, make_msg("a")));
    assert!(q.try_start_or_enqueue("tg", 1, U, make_msg("b"), 1).is_none());
    assert!(q.drain_pending("tg", 1, U).is_empty());
    // An idle chat still starts.
    assert!(q.try_start_or_enqueue("tg", 2, U, make_msg("c"), 2).is_some());
}

#[test]
fn series_of_starts_has_one_winner() {
    let mut q = ChatTurnQueue::new(5);
    let mut winners = 0;
    for (i, c) in ["a", "b", "c", "d"].iter().enumerate() {
        if q.try_start_or_enqueue("web", 3, U, make_msg(c), i as u64).is_some() {
            winners += 1;
        }
    }
    assert_eq!(winners, 1);
    assert_eq!(contents(&q.drain_pending("web", 3, U)), vec!["b", "c", "d"]);
}

#[test]
fn many_enqueues_keep_newest() {
    let mut q = ChatTurnQueue::new(3);
    let _g = q.acquire("tg", 1, U, 0).unwrap();
    for c in ["m1", "m2", "m3", "m4", "m5", "m6", "m7"] {
        assert!(q.enqueue_if_busy("tg", 1, U, make_msg(c)));
    }
    assert_eq!(contents(&q.drain_pending("tg", 1, U)), vec!["m5", "m6", "m7"]);
}

#[test]
fn guards_carry_their_queue() {
    let mut q1 = make_queue();
    let q2 = make_queue();
    assert_eq!(q1.id().len(), 32);
    assert_ne!(q1.id(), q2.id());
    let g = q1.acquire("tg", 1, U, 0).unwrap();
    assert_eq!(g.issuer(), q1.id());
    assert_ne!(g.issuer(), q2.id());
    q1.release(g);
    assert!(!q1.is_busy("tg", 1, U));
}

#[test]
fn pending_count_follows_queue() {
    let mut q = ChatTurnQueue::new(2);
    assert_eq!(q.pending_count("tg", 1, U), 0);
    let _g = q.acquire("tg", 1, U, 0).unwrap();
    q.enqueue_if_busy("tg", 1, U, make_msg("a"));
    assert_eq!(q.pending_count("tg", 1, U), 1);
    q.enqueue_if_busy("tg", 1, U, make_msg("b"));
    q.enqueue_if_busy("tg", 1, U, make_msg("c"));
    assert_eq!(q.pending_count("tg", 1, U), 2);
    assert_eq!(q.max_pending_messages(), 2);
}
