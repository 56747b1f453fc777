//! Agent-to-agent messaging: who may send, and what the request becomes.
use vstd::prelude::*;
use crate::api_error::{ApiError, BAD_REQUEST, FORBIDDEN, NOT_FOUND, UNAUTHORIZED, api_error};
use crate::api_error;
use crate::headers::HeaderFields;
use crate::headers;
use crate::text;

verus! {

/// The part of the configuration that agent-to-agent messaging reads.
pub struct A2AConfig {
    pub enabled: bool,
    /// Bearer tokens that peers may present.
    pub shared_tokens: Vec<String>,
}

impl A2AConfig {
    /// The shared tokens as contracts see them.
    pub open spec fn tokens(&self) -> Seq<Seq<char>> {
        self.shared_tokens@.map_values(|s: String| s@)
    }
}

/// A message sent by a peer agent.
pub struct A2AMessageRequest {
    pub session_key: Option<String>,
    pub sender_name: Option<String>,
    pub source_agent: Option<String>,
    pub source_url: Option<String>,
    pub message: String,
}

/// What an accepted peer message is delivered as.
pub struct A2ASendPlan {
    pub session_key: String,
    pub sender_name: String,
    pub message: String,
}

/// The reply to a peer message.
pub struct A2AMessageResponse {
    pub ok: bool,
    pub protocol_version: String,
    pub agent_name: String,
    pub session_key: String,
    pub response: String,
}

/// An optional string as contracts see it.
pub open spec fn opt_view(o: Option<String>) -> Option<Seq<char>> {
    match o {
        Some(s) => Some(s@),
        None => None,
    }
}

/// `i` is the position of the first white space character of `s`.
pub open spec fn is_first_white_space(s: Seq<char>, i: int) -> bool {
    &&& 0 <= i < s.len()
    &&& text::is_white_space(s[i])
    &&& forall|j: int| 0 <= j < i ==> !text::is_white_space(#[trigger] s[j])
}

/// The token of an `Authorization` value (already trimmed) of the form
/// `Bearer <token>`: the scheme is compared up to ASCII case and ends at the
/// first white space; the token is what follows, trimmed, and must not be empty.
pub open spec fn bearer_token(raw: Seq<char>) -> Option<Seq<char>> {
    if exists|i: int| is_first_white_space(raw, i) {
        let i = choose|i: int| is_first_white_space(raw, i);
        let token = text::trim(raw.skip(i + 1));
        if text::eq_ignore_ascii_case(raw.take(i), "bearer"@) && token.len() > 0 {
            Some(token)
        } else {
            None
        }
    } else {
        None
    }
}

/// The request carries an `Authorization: Bearer <token>` header whose token
/// is one of `tokens`.
pub open spec fn token_allowed(tokens: Seq<Seq<char>>, fields: Seq<(Seq<char>, Seq<u8>)>) -> bool {
    match headers::header_lookup(fields, "authorization"@) {
        None => false,
        Some(raw) => match text::header_text(raw) {
            None => false,
            Some(value) => match bearer_token(text::trim(value)) {
                None => false,
                Some(token) => tokens.contains(token),
            },
        },
    }
}

/// `o` trimmed, when it is present and not blank.
pub open spec fn non_blank(o: Option<Seq<char>>) -> Option<Seq<char>> {
    match o {
        Some(v) => if text::trim(v).len() > 0 {
            Some(text::trim(v))
        } else {
            None
        },
        None => None,
    }
}

/// The sender name that a peer message is delivered under: the sender name
/// it gives, else `a2a:` and its source agent, else `a2a-remote`.
pub open spec fn a2a_sender_name(sender_name: Option<Seq<char>>, source_agent: Option<Seq<char>>) -> Seq<
    char,
> {
    match non_blank(sender_name) {
        Some(s) => s,
        None => match non_blank(source_agent) {
            Some(a) => "a2a:"@ + a,
            None => "a2a-remote"@,
        },
    }
}

/// What `a2a_message_plan` answers.
pub open spec fn a2a_plan_outcome(
    enabled: bool,
    tokens: Seq<Seq<char>>,
    fields: Seq<(Seq<char>, Seq<u8>)>,
    session_key: Option<Seq<char>>,
    sender_name: Option<Seq<char>>,
    source_agent: Option<Seq<char>>,
    message: Seq<char>,
    default_session_key: Seq<char>,
) -> Result<(Seq<char>, Seq<char>, Seq<char>), (u16, Seq<char>)> {
    if !enabled {
        Err((NOT_FOUND, "A2A is disabled"@))
    } else if tokens.len() == 0 {
        Err((FORBIDDEN, "A2A inbound auth is not configured"@))
    } else if !token_allowed(tokens, fields) {
        Err((UNAUTHORIZED, "invalid A2A bearer token"@))
    } else if text::trim(message).len() == 0 {
        Err((BAD_REQUEST, "message is required"@))
    } else {
        Ok(
            (
                match non_blank(session_key) {
                    Some(k) => k,
                    None => default_session_key,
                },
                a2a_sender_name(sender_name, source_agent),
                text::trim(message),
            ),
        )
    }
}

fn first_white_space(s: &str) -> (res: Option<usize>)
    ensures
        match res {
            Some(i) => is_first_white_space(s@, i as int),
            None => forall|i: int| 0 <= i < s@.len() ==> !text::is_white_space(#[trigger] s@[i]),
        },
{
    let n = s.unicode_len();
    let mut i: usize = 0;
    while i < n
        invariant
            n == s@.len(),
            i <= n,
            forall|j: int| 0 <= j < i ==> !text::is_white_space(#[trigger] s@[j]),
        decreases n - i,
    {
        if text::is_whitespace(s.get_char(i)) {
            return Some(i);
        }
        i = i + 1;
    }
    None
}

fn bearer_token_of(raw: &str) -> (res: Option<String>)
    ensures
        opt_view(res) == bearer_token(raw@),
{
    match first_white_space(raw) {
        None => None,
        Some(i) => {
            proof {
                let k = choose|k: int| is_first_white_space(raw@, k);
                assert(k == i);
            }
            let n = raw.unicode_len();
            let scheme = raw.substring_char(0, i);
            let token = text::trimmed(raw.substring_char(i + 1, n));
            assert(scheme@ == raw@.take(i as int));
            assert(raw@.subrange(i + 1, n as int) == raw@.skip(i + 1));
            if text::eq_ignoring_ascii_case(scheme, "bearer") && token.as_str().unicode_len() > 0 {
                Some(token)
            } else {
                None
            }
        },
    }
}

/// The request carries `Authorization: Bearer <token>` with a token among
/// the configured shared tokens.
pub fn a2a_token_allowed(config: &A2AConfig, headers: &HeaderFields) -> (res: bool)
    ensures
        res == token_allowed(config.tokens(), headers@),
{
    let raw = match headers.get("authorization") {
        Some(raw) => raw,
        None => return false,
    };
    let value = match text::header_value_text(raw.as_slice()) {
        Some(v) => v,
        None => return false,
    };
    let trimmed = text::trimmed(value.as_str());
    let token = match bearer_token_of(trimmed.as_str()) {
        Some(t) => t,
        None => return false,
    };
    assert(token_allowed(config.tokens(), headers@) == config.tokens().contains(token@));
    let mut i: usize = 0;
    while i < config.shared_tokens.len()
        invariant
            token_allowed(config.tokens(), headers@) == config.tokens().contains(token@),
            i <= config.shared_tokens@.len(),
            forall|j: int| 0 <= j < i ==> config.shared_tokens@[j]@ != token@,
        decreases config.shared_tokens@.len() - i,
    {
        if config.shared_tokens[i] == token {
            assert(config.tokens()[i as int] == token@);
            assert(config.tokens().contains(token@));
            return true;
        }
        i = i + 1;
    }
    proof {
        if config.tokens().contains(token@) {
            let j = choose|j: int| 0 <= j < config.tokens().len() && config.tokens()[j] == token@;
            assert(config.shared_tokens@[j]@ == token@);
        }
    }
    false
}

/// Agent-to-agent endpoints answer `404 Not Found` while the feature is off.
pub fn a2a_enabled_check(config: &A2AConfig) -> (res: Result<(), ApiError>)
    ensures
        config.enabled <==> res is Ok,
        res matches Err(e) ==> api_error::error_view(e) == (NOT_FOUND, "A2A is disabled"@),
{
    if !config.enabled {
        return Err(api_error(NOT_FOUND, "A2A is disabled"));
    }
    Ok(())
}

fn non_blank_of(o: &Option<String>) -> (res: Option<String>)
    ensures
        opt_view(res) == non_blank(opt_view(*o)),
{
    match o {
        Some(v) => {
            let t = text::trimmed(v.as_str());
            if t.as_str().unicode_len() > 0 {
                Some(t)
            } else {
                None
            }
        },
        None => None,
    }
}

/// Decides whether a peer message is accepted and what it is delivered as.
///
/// Refused, in this order: `404` when messaging is off, `403` when no shared
/// token is configured, `401` when the bearer token is not one of them, `400`
/// when the message is blank. Otherwise the message is trimmed, the session
/// key is the given one trimmed (or `default_session_key` when it is blank
/// or absent), and the sender name is chosen as `a2a_sender_name` says.
pub fn a2a_message_plan(
    config: &A2AConfig,
    headers: &HeaderFields,
    request: &A2AMessageRequest,
    default_session_key: String,
) -> (res: Result<A2ASendPlan, ApiError>)
    ensures
        match res {
            Ok(p) => a2a_plan_outcome(
                config.enabled,
                config.tokens(),
                headers@,
                opt_view(request.session_key),
                opt_view(request.sender_name),
                opt_view(request.source_agent),
                request.message@,
                default_session_key@,
            ) == Ok::<(Seq<char>, Seq<char>, Seq<char>), (u16, Seq<char>)>(
                (p.session_key@, p.sender_name@, p.message@),
            ),
            Err(e) => a2a_plan_outcome(
                config.enabled,
                config.tokens(),
                headers@,
                opt_view(request.session_key),
                opt_view(request.sender_name),
                opt_view(request.source_agent),
                request.message@,
                default_session_key@,
            ) == Err::<(Seq<char>, Seq<char>, Seq<char>), (u16, Seq<char>)>(
                api_error::error_view(e),
            ),
        },
        res matches Ok(p) ==> {
            &&& p.message@ == text::trim(request.message@)
            &&& p.message@.len() > 0
            &&& p.session_key@ == if request.session_key is Some && text::trim(
                request.session_key->0@,
            ).len() > 0 {
                text::trim(request.session_key->0@)
            } else {
                default_session_key@
            }
            &&& p.sender_name@ == if request.sender_name is Some && text::trim(
                request.sender_name->0@,
            ).len() > 0 {
                text::trim(request.sender_name->0@)
            } else if request.source_agent is Some && text::trim(request.source_agent->0@).len() > 0 {
                "a2a:"@ + text::trim(request.source_agent->0@)
            } else {
                "a2a-remote"@
            }
        },
{
    a2a_enabled_check(config)?;
    if config.shared_tokens.len() == 0 {
        return Err(api_error(FORBIDDEN, "A2A inbound auth is not configured"));
    }
    if !a2a_token_allowed(config, headers) {
        return Err(api_error(UNAUTHORIZED, "invalid A2A bearer token"));
    }
    let message = text::trimmed(request.message.as_str());
    if message.as_str().unicode_len() == 0 {
        return Err(api_error(BAD_REQUEST, "message is required"));
    }
    let session_key = match non_blank_of(&request.session_key) {
        Some(k) => k,
        None => default_session_key,
    };
    let sender_name = match non_blank_of(&request.sender_name) {
        Some(s) => s,
        None => match non_blank_of(&request.source_agent) {
            Some(a) => String::from_str("a2a:").concat(a.as_str()),
            None => String::from_str("a2a-remote"),
        },
    };
    Ok(A2ASendPlan { session_key, sender_name, message })
}

/// The reply to an accepted peer message, from what the chat answered: its
/// `response` text (empty when absent) and the session key it resolved to
/// (the requested key when absent).
pub fn a2a_message_response(
    protocol_version: String,
    agent_name: String,
    requested_session_key: &String,
    reply_response: Option<String>,
    reply_session_key: Option<String>,
) -> (res: A2AMessageResponse)
    ensures
        res.ok,
        res.protocol_version@ == protocol_version@,
        res.agent_name@ == agent_name@,
        res.response@ == match opt_view(reply_response) {
            Some(r) => r,
            None => Seq::<char>::empty(),
        },
        res.session_key@ == match opt_view(reply_session_key) {
            Some(k) => k,
            None => requested_session_key@,
        },
{
    let response = match reply_response {
        Some(r) => r,
        None => String::new(),
    };
    let session_key = match reply_session_key {
        Some(k) => k,
        None => requested_session_key.clone(),
    };
    A2AMessageResponse { ok: true, protocol_version, agent_name, session_key, response }
}

/// The actor that the audit log records for a peer message: its source
/// agent, else `a2a-peer`.
pub fn a2a_audit_actor(source_agent: &Option<String>) -> (res: String)
    ensures
        res@ == match opt_view(*source_agent) {
            Some(a) => a,
            None => "a2a-peer"@,
        },
{
    match source_agent {
        Some(a) => a.clone(),
        None => String::from_str("a2a-peer"),
    }
}


/// A peer message is accepted only while messaging is on, with at least one
/// shared token configured, a bearer token among them, and a message that
/// is not blank; the message delivered is never blank.
pub proof fn law_a2a_accepts_only_authorized(
    enabled: bool,
    tokens: Seq<Seq<char>>,
    fields: Seq<(Seq<char>, Seq<u8>)>,
    session_key: Option<Seq<char>>,
    sender_name: Option<Seq<char>>,
    source_agent: Option<Seq<char>>,
    message: Seq<char>,
    default_session_key: Seq<char>,
)
    ensures
        a2a_plan_outcome(
            enabled,
            tokens,
            fields,
            session_key,
            sender_name,
            source_agent,
            message,
            default_session_key,
        ) is Ok ==> {
            &&& enabled
            &&& tokens.len() > 0
            &&& token_allowed(tokens, fields)
            &&& text::trim(message).len() > 0
        },
        token_allowed(tokens, fields) ==> tokens.len() > 0,
{
}

/// An accepted peer message is delivered trimmed, under the session key it
/// names (trimmed) or else the default, and under the sender name it gives
/// (trimmed) whatever its source agent; only without a sender name does the
/// source agent name it (`a2a:` and the agent), and only without both is it
/// `a2a-remote`.
pub proof fn law_a2a_plan_names(
    enabled: bool,
    tokens: Seq<Seq<char>>,
    fields: Seq<(Seq<char>, Seq<u8>)>,
    session_key: Option<Seq<char>>,
    sender_name: Option<Seq<char>>,
    source_agent: Option<Seq<char>>,
    message: Seq<char>,
    default_session_key: Seq<char>,
)
    ensures
        a2a_plan_outcome(
            enabled,
            tokens,
            fields,
            session_key,
            sender_name,
            source_agent,
            message,
            default_session_key,
        ) matches Ok(p) ==> {
            &&& p.2 == text::trim(message)
            &&& (session_key is Some && text::trim(session_key->0).len() > 0 ==> p.0 == text::trim(
                session_key->0,
            ))
            &&& (!(session_key is Some && text::trim(session_key->0).len() > 0) ==> p.0
                == default_session_key)
            &&& (sender_name is Some && text::trim(sender_name->0).len() > 0 ==> p.1 == text::trim(
                sender_name->0,
            ))
            &&& (!(sender_name is Some && text::trim(sender_name->0).len() > 0) && source_agent is Some
                && text::trim(source_agent->0).len() > 0 ==> p.1 == "a2a:"@ + text::trim(
                source_agent->0,
            ))
            &&& (!(sender_name is Some && text::trim(sender_name->0).len() > 0) && !(source_agent is Some
                && text::trim(source_agent->0).len() > 0) ==> p.1 == "a2a-remote"@)
        },
        enabled && tokens.len() > 0 && token_allowed(tokens, fields) && text::trim(message).len() > 0
            ==> a2a_plan_outcome(
            enabled,
            tokens,
            fields,
            session_key,
            sender_name,
            source_agent,
            message,
            default_session_key,
        ) is Ok,
{
}

/// Refusals come in a fixed order: `404` while messaging is off, then `403`
/// without shared tokens, then `401` without a matching bearer token, then
/// `400` for a blank message.
pub proof fn law_a2a_refusal_order(
    enabled: bool,
    tokens: Seq<Seq<char>>,
    fields: Seq<(Seq<char>, Seq<u8>)>,
    session_key: Option<Seq<char>>,
    sender_name: Option<Seq<char>>,
    source_agent: Option<Seq<char>>,
    message: Seq<char>,
    default_session_key: Seq<char>,
)
    ensures
        ({
            let r = a2a_plan_outcome(
                enabled,
                tokens,
                fields,
                session_key,
                sender_name,
                source_agent,
                message,
                default_session_key,
            );
            &&& !enabled ==> r == Err::<(Seq<char>, Seq<char>, Seq<char>), (u16, Seq<char>)>(
                (404, "A2A is disabled"@),
            )
            &&& enabled && tokens.len() == 0 ==> r == Err::<
                (Seq<char>, Seq<char>, Seq<char>),
                (u16, Seq<char>),
            >((403, "A2A inbound auth is not configured"@))
            &&& enabled && tokens.len() > 0 && !token_allowed(tokens, fields) ==> r == Err::<
                (Seq<char>, Seq<char>, Seq<char>),
                (u16, Seq<char>),
            >((401, "invalid A2A bearer token"@))
            &&& enabled && tokens.len() > 0 && token_allowed(tokens, fields) && text::trim(
                message,
            ).len() == 0 ==> r == Err::<(Seq<char>, Seq<char>, Seq<char>), (u16, Seq<char>)>(
                (400, "message is required"@),
            )
        }),
{
}

/// A request is let through only with an `Authorization` value whose text,
/// trimmed, is `bearer` in any ASCII case, one white space character, and a
/// token that, trimmed, is not empty and is one of the shared tokens.
pub proof fn law_token_allowed_sound(tokens: Seq<Seq<char>>, fields: Seq<(Seq<char>, Seq<u8>)>)
    requires
        token_allowed(tokens, fields),
    ensures
        headers::header_lookup(fields, "authorization"@) is Some,
        text::header_text(headers::header_lookup(fields, "authorization"@)->0) is Some,
        ({
            let r = text::trim(text::header_text(headers::header_lookup(fields, "authorization"@)->0)->0);
            &&& r.len() >= 8
            &&& text::eq_ignore_ascii_case(r.take(6), "bearer"@)
            &&& text::is_white_space(r[6])
            &&& text::trim(r.skip(7)).len() > 0
            &&& tokens.contains(text::trim(r.skip(7)))
        }),
{
    reveal_strlit("bearer");
    let r = text::trim(text::header_text(headers::header_lookup(fields, "authorization"@)->0)->0);
    let i = choose|i: int| is_first_white_space(r, i);
    assert(r.take(i).len() == 6);
    assert(i == 6);
}

/// Every request with such an `Authorization` value is let through: its
/// text, trimmed, is `bearer` in any ASCII case, a white space character,
/// and one of the shared tokens that neither starts nor ends with white
/// space.
pub proof fn law_token_allowed_complete(
    tokens: Seq<Seq<char>>,
    fields: Seq<(Seq<char>, Seq<u8>)>,
    value: Seq<char>,
    scheme: Seq<char>,
    sep: char,
    token: Seq<char>,
)
    requires
        headers::header_lookup(fields, "authorization"@) matches Some(raw) && text::header_text(raw)
            == Some(value),
        text::trim(value) == scheme + seq![sep] + token,
        text::eq_ignore_ascii_case(scheme, "bearer"@),
        text::is_white_space(sep),
        token.len() > 0,
        !text::is_white_space(token[0]),
        !text::is_white_space(token.last()),
        tokens.contains(token),
    ensures
        token_allowed(tokens, fields),
{
    reveal_strlit("bearer");
    let r = text::trim(value);
    assert(scheme.len() == 6);
    assert forall|j: int| 0 <= j < 6 implies !text::is_white_space(#[trigger] r[j]) by {
        assert(r[j] == scheme[j]);
        assert(text::ascii_lower(scheme[j]) == text::ascii_lower("bearer"@[j]));
    }
    assert(r[6] == sep);
    assert(is_first_white_space(r, 6));
    let i = choose|i: int| is_first_white_space(r, i);
    assert(i == 6);
    assert(r.take(6) =~= scheme);
    assert(r.skip(7) =~= token);
    assert(text::trim_start(token) == token);
    assert(text::trim_end(token) == token);
}

} // verus!


