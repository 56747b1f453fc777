//! The decisions of the chat session endpoints: whose chats a caller sees,
//! which part of a history is returned, how a session is forked, reset and
//! listed.
use vstd::prelude::*;
use crate::api_error::{ApiError, BAD_REQUEST, api_error};
use crate::api_error;
use crate::headers::HeaderFields;
use crate::text;
use crate::user_id;

verus! {

/// A stored chat message.
pub struct StoredMessage {
    pub id: String,
    pub chat_id: i64,
    pub sender_name: String,
    pub content: String,
    pub is_from_bot: bool,
    pub timestamp: String,
}

/// A message as the history endpoint returns it.
pub struct HistoryItem {
    pub id: String,
    pub sender_name: String,
    pub content: String,
    pub is_from_bot: bool,
    pub timestamp: String,
}

/// The history item that stands for `m`.
pub open spec fn history_item_of(m: StoredMessage) -> HistoryItem {
    HistoryItem {
        id: m.id,
        sender_name: m.sender_name,
        content: m.content,
        is_from_bot: m.is_from_bot,
        timestamp: m.timestamp,
    }
}

/// The newest `limit` messages of `messages` when a limit is given and
/// exceeded, else all of them, oldest first.
pub open spec fn history_tail(messages: Seq<StoredMessage>, limit: Option<usize>) -> Seq<StoredMessage> {
    match limit {
        Some(l) => if messages.len() > l {
            messages.skip(messages.len() - l)
        } else {
            messages
        },
        None => messages,
    }
}

/// Where the returned history starts among `n` stored messages: `n - l`
/// when a limit `l` is given and exceeded, else at the first message.
pub open spec fn history_start(n: nat, limit: Option<usize>) -> int {
    match limit {
        Some(l) => if n > l {
            n - l
        } else {
            0
        },
        None => 0,
    }
}

/// The history is the stored messages from `history_start` on, in order:
/// the newest `l` when a limit `l` is exceeded, else all of them; each item
/// carries its message's id, sender, content, origin and timestamp.
pub proof fn law_history_keeps_messages(messages: Seq<StoredMessage>, limit: Option<usize>)
    ensures
        history_tail(messages, limit).len() == messages.len() - history_start(messages.len(), limit),
        limit is Some && messages.len() > limit->0 ==> history_tail(messages, limit).len() == limit->0,
        limit is None ==> history_tail(messages, limit).len() == messages.len(),
        forall|i: int|
            0 <= i < history_tail(messages, limit).len() ==> {
                let m = messages[history_start(messages.len(), limit) + i];
                let h = history_item_of(#[trigger] history_tail(messages, limit)[i]);
                &&& h.id == m.id
                &&& h.sender_name == m.sender_name
                &&& h.content == m.content
                &&& h.is_from_bot == m.is_from_bot
                &&& h.timestamp == m.timestamp
            },
{
}

/// Whose chats a caller may list: an operator sees every user's chats
/// (`None`); anyone else only their own, named by the user id header.
pub fn caller_user_filter(is_operator: bool, headers: &HeaderFields) -> (res: Result<
    Option<String>,
    ApiError,
>)
    ensures
        is_operator ==> res matches Ok(None),
        !is_operator ==> match res {
            Ok(Some(u)) => user_id::user_id_outcome(headers@) == Ok::<
                Seq<char>,
                (u16, Seq<char>),
            >(u@),
            Ok(None) => false,
            Err(e) => user_id::user_id_outcome(headers@) == Err::<
                Seq<char>,
                (u16, Seq<char>),
            >(api_error::error_view(e)),
        },
{
    if is_operator {
        Ok(None)
    } else {
        let u = user_id::extract_user_id(headers)?;
        Ok(Some(u))
    }
}

fn history_item(m: &StoredMessage) -> (res: HistoryItem)
    ensures
        res == history_item_of(*m),
{
    HistoryItem {
        id: m.id.clone(),
        sender_name: m.sender_name.clone(),
        content: m.content.clone(),
        is_from_bot: m.is_from_bot,
        timestamp: m.timestamp.clone(),
    }
}

/// The history that the history endpoint returns: the newest `limit`
/// messages when `limit` is given and exceeded, else all, oldest first.
pub fn history_items(messages: &Vec<StoredMessage>, limit: Option<usize>) -> (res: Vec<HistoryItem>)
    ensures
        res@ == history_tail(messages@, limit).map_values(|m: StoredMessage| history_item_of(m)),
        res@.len() == messages@.len() - history_start(messages@.len(), limit),
        forall|i: int|
            0 <= i < res@.len() ==> {
                let m = messages@[history_start(messages@.len(), limit) + i];
                &&& (#[trigger] res@[i]).id == m.id
                &&& res@[i].sender_name == m.sender_name
                &&& res@[i].content == m.content
                &&& res@[i].is_from_bot == m.is_from_bot
                &&& res@[i].timestamp == m.timestamp
            },
{
    let n = messages.len();
    let start: usize = match limit {
        Some(l) => if n > l {
            n - l
        } else {
            0
        },
        None => 0,
    };
    let ghost tail = history_tail(messages@, limit);
    assert(tail =~= messages@.skip(start as int));
    let mut out: Vec<HistoryItem> = Vec::new();
    let mut i: usize = start;
    while i < n
        invariant
            n == messages@.len(),
            start <= i <= n,
            tail == messages@.skip(start as int),
            out@ =~= tail.take(i - start).map_values(|m: StoredMessage| history_item_of(m)),
        decreases n - i,
    {
        let item = history_item(&messages[i]);
        out.push(item);
        proof {
            assert(tail.take(i + 1 - start) =~= tail.take(i - start).push(messages@[i as int]));
        }
        i = i + 1;
    }
    assert(tail.take(n - start) =~= tail);
    out
}

/// The number of messages a fork copies: the requested fork point, capped
/// at the number of messages, or all of them.
pub fn fork_point(requested: Option<usize>, available: usize) -> (res: usize)
    ensures
        res == match requested {
            Some(p) => if p < available {
                p
            } else {
                available
            },
            None => available,
        },
{
    match requested {
        Some(p) => if p < available {
            p
        } else {
            available
        },
        None => available,
    }
}

/// A fork must go to another session: `400 Bad Request` when the target
/// session key is the source's.
pub fn check_fork_target(source_session_key: &String, target_session_key: &String) -> (res: Result<
    (),
    ApiError,
>)
    ensures
        res is Ok <==> source_session_key@ != target_session_key@,
        res matches Err(e) ==> api_error::error_view(e) == (
            BAD_REQUEST,
            "target_session_key must differ from source_session_key"@,
        ),
{
    if *source_session_key == *target_session_key {
        return Err(
            api_error(BAD_REQUEST, "target_session_key must differ from source_session_key"),
        );
    }
    Ok(())
}

/// A lower-case hexadecimal digit.
pub open spec fn is_lower_hex(c: char) -> bool {
    ('0' <= c && c <= '9') || ('a' <= c && c <= 'f')
}

/// The text of a UUID in its simple form: 32 lower-case hexadecimal digits.
pub open spec fn is_simple_uuid(s: Seq<char>) -> bool {
    &&& s.len() == 32
    &&& forall|i: int| 0 <= i < 32 ==> is_lower_hex(#[trigger] s[i])
}

/// The text of a UUID in its hyphenated form: 36 characters, `-` at
/// positions 8, 13, 18 and 23 and lower-case hexadecimal digits elsewhere.
pub open spec fn is_hyphenated_uuid(s: Seq<char>) -> bool {
    &&& s.len() == 36
    &&& forall|i: int|
        0 <= i < 36 ==> if i == 8 || i == 13 || i == 18 || i == 23 {
            #[trigger] s[i] == '-'
        } else {
            is_lower_hex(s[i])
        }
}

/// A fresh random UUID (version 4) in its simple form, as
/// `Uuid::new_v4().simple().to_string()` writes it.
#[verifier::external_body]
pub(crate) fn new_uuid_simple() -> (res: String)
    ensures
        is_simple_uuid(res@),
{
    uuid::Uuid::new_v4().simple().to_string()
}

/// A fresh random UUID (version 4) in its hyphenated form, as
/// `Uuid::new_v4().to_string()` writes it.
#[verifier::external_body]
fn new_uuid_hyphenated() -> (res: String)
    ensures
        is_hyphenated_uuid(res@),
{
    uuid::Uuid::new_v4().to_string()
}

/// A decimal digit.
pub open spec fn is_digit(c: char) -> bool {
    '0' <= c && c <= '9'
}

/// Every character of `s` is a decimal digit.
pub open spec fn all_digits(s: Seq<char>) -> bool {
    forall|i: int| 0 <= i < s.len() ==> is_digit(#[trigger] s[i])
}

/// A year as RFC 3339 text writes it: four digits, or, past 9999, `+` and
/// five or more digits.
pub open spec fn is_rfc3339_year(y: Seq<char>) -> bool {
    ||| y.len() == 4 && all_digits(y)
    ||| y.len() >= 6 && y[0] == '+' && all_digits(y.skip(1))
}

/// A fraction of a second: none, or `.` and 3, 6 or 9 digits.
pub open spec fn is_rfc3339_fraction(f: Seq<char>) -> bool {
    ||| f.len() == 0
    ||| (f.len() == 4 || f.len() == 7 || f.len() == 10) && f[0] == '.' && all_digits(f.skip(1))
}

/// `s` is a UTC time in RFC 3339 form: a year, then `-MM-DDTHH:MM:SS`, an
/// optional fraction of a second, and the offset `+00:00`.
pub open spec fn is_utc_rfc3339(s: Seq<char>) -> bool {
    exists|year_len: int|
        #![trigger s.take(year_len)]
        4 <= year_len && year_len + 21 <= s.len() && is_rfc3339_year(s.take(year_len)) && {
            let r = s.skip(year_len);
            &&& r[0] == '-' && is_digit(r[1]) && is_digit(r[2])
            &&& r[3] == '-' && is_digit(r[4]) && is_digit(r[5])
            &&& r[6] == 'T' && is_digit(r[7]) && is_digit(r[8])
            &&& r[9] == ':' && is_digit(r[10]) && is_digit(r[11])
            &&& r[12] == ':' && is_digit(r[13]) && is_digit(r[14])
            &&& is_rfc3339_fraction(r.subrange(15, r.len() - 6))
            &&& r.skip(r.len() - 6) == "+00:00"@
        }
}

/// The current UTC time in RFC 3339 form, as `Utc::now().to_rfc3339()`
/// writes it (`write_rfc3339` with automatic sub-second precision and the
/// offset written as `+00:00`). Which time it is, is the clock's.
#[verifier::external_body]
fn now_rfc3339() -> (res: String)
    ensures
        is_utc_rfc3339(res@),
{
    chrono::Utc::now().to_rfc3339()
}

/// The session key of a fork made without a target key: the source key,
/// `-fork-`, and the first 8 characters of `unique`.
pub fn fork_default_session_key(source_session_key: &String, unique: &String) -> (res: String)
    requires
        unique@.len() >= 8,
    ensures
        res@ == source_session_key@ + "-fork-"@ + unique@.take(8),
{
    let short = unique.as_str().substring_char(0, 8);
    source_session_key.clone().concat("-fork-").concat(short)
}

/// The session key a fork goes to: the requested one, or the source key
/// followed by `-fork-` and 8 random lower-case hexadecimal digits.
pub fn fork_target_session_key(source_session_key: &String, requested: Option<String>) -> (res:
    String)
    ensures
        match requested {
            Some(t) => res@ == t@,
            None => exists|u: Seq<char>|
                is_simple_uuid(u) && res@ == source_session_key@ + "-fork-"@ + u.take(8),
        },
{
    match requested {
        Some(t) => t,
        None => {
            let unique = new_uuid_simple();
            fork_default_session_key(source_session_key, &unique)
        },
    }
}

/// The copy of `m` that a fork stores in chat `target_chat_id`: the same
/// sender, content and origin, a new id and the current time.
pub open spec fn is_fork_copy(copy: StoredMessage, m: StoredMessage, target_chat_id: i64) -> bool {
    &&& copy.chat_id == target_chat_id
    &&& copy.sender_name == m.sender_name
    &&& copy.content == m.content
    &&& copy.is_from_bot == m.is_from_bot
    &&& is_hyphenated_uuid(copy.id@)
    &&& is_utc_rfc3339(copy.timestamp@)
}

/// A fork copy keeps the sender, content and origin of its message, lives
/// in the target chat, and has a UUID id and an RFC 3339 UTC timestamp.
pub proof fn law_fork_copy_fields(copy: StoredMessage, m: StoredMessage, target_chat_id: i64)
    requires
        is_fork_copy(copy, m, target_chat_id),
    ensures
        copy.chat_id == target_chat_id,
        copy.sender_name == m.sender_name,
        copy.content == m.content,
        copy.is_from_bot == m.is_from_bot,
        copy.id@.len() == 36,
        copy.id@[8] == '-' && copy.id@[13] == '-' && copy.id@[18] == '-' && copy.id@[23] == '-',
        copy.timestamp@.len() >= 25,
{
}

/// The messages a fork stores in its target chat: a copy of each of the
/// first `fork_point` source messages, in order, each under a fresh random id
/// and stamped with the current time.
pub fn fork_copies(source: &Vec<StoredMessage>, fork_point: usize, target_chat_id: i64) -> (res:
    Vec<StoredMessage>)
    requires
        fork_point <= source@.len(),
    ensures
        res@.len() == fork_point,
        forall|i: int|
            0 <= i < fork_point ==> is_fork_copy(#[trigger] res@[i], source@[i], target_chat_id),
{
    let mut out: Vec<StoredMessage> = Vec::new();
    let mut i: usize = 0;
    while i < fork_point
        invariant
            fork_point <= source@.len(),
            i <= fork_point,
            out@.len() == i,
            forall|j: int| 0 <= j < i ==> is_fork_copy(#[trigger] out@[j], source@[j], target_chat_id),
        decreases fork_point - i,
    {
        let m = &source[i];
        let copy = StoredMessage {
            id: new_uuid_hyphenated(),
            chat_id: target_chat_id,
            sender_name: m.sender_name.clone(),
            content: m.content.clone(),
            is_from_bot: m.is_from_bot,
            timestamp: now_rfc3339(),
        };
        out.push(copy);
        i = i + 1;
    }
    out
}

/// A reset wipes and recreates a chat routed to the web channel; any other
/// chat only loses its session.
pub fn reset_recreates_chat(routing_channel: &Option<String>) -> (res: bool)
    ensures
        res == (routing_channel matches Some(c) && c@ == "web"@),
{
    match routing_channel {
        Some(c) => {
            let web = String::from_str("web");
            *c == web
        },
        None => false,
    }
}

/// The channel whose TODO store a reset or delete clears: the chat's
/// channel, else `web`.
pub fn todo_channel(stored_channel: Option<String>) -> (res: String)
    ensures
        res@ == match stored_channel {
            Some(c) => c@,
            None => "web"@,
        },
{
    match stored_channel {
        Some(c) => c,
        None => String::from_str("web"),
    }
}

/// The outcome a reset or delete records in the audit log.
pub fn audit_outcome(deleted: bool) -> (res: String)
    ensures
        res@ == if deleted {
            "ok"@
        } else {
            "miss"@
        },
{
    if deleted {
        String::from_str("ok")
    } else {
        String::from_str("miss")
    }
}

/// The number of nodes the session tree lists: the requested number
/// (1000 when absent), kept within 1 to 5000.
pub fn tree_limit(requested: Option<usize>) -> (res: usize)
    ensures
        res == match requested {
            Some(l) => if l < 1 {
                1
            } else if l > 5000 {
                5000
            } else {
                l
            },
            None => 1000,
        },
{
    let l = match requested {
        Some(l) => l,
        None => 1000,
    };
    if l < 1 {
        1
    } else if l > 5000 {
        5000
    } else {
        l
    }
}

/// The session key a tree node shows: the chat's external id, else
/// `chat:` and the chat id in decimal.
pub fn tree_session_key(chat_id: i64, external_id: Option<String>) -> (res: String)
    ensures
        res@ == match external_id {
            Some(k) => k@,
            None => "chat:"@ + text::decimal_text(chat_id as int),
        },
{
    match external_id {
        Some(k) => k,
        None => String::from_str("chat:").concat(text::i64_to_decimal(chat_id).as_str()),
    }
}

} // verus!
