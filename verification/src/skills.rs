//! The decisions of the skill endpoints: listing skills and switching one
//! on or off.
use vstd::prelude::*;
use crate::api_error::{ApiError, INTERNAL_SERVER_ERROR, NOT_FOUND, api_error};
use crate::api_error;

verus! {

/// A skill as the skill manager reports it.
pub struct DiscoveredSkill {
    pub name: String,
    pub description: String,
    pub source: String,
    pub version: Option<String>,
    pub platforms: Vec<String>,
    pub available: bool,
    pub reason: Option<String>,
}

/// A skill as the skill list shows it.
pub struct SkillStatus {
    pub name: String,
    pub description: String,
    pub enabled: bool,
    pub source: String,
    pub version: Option<String>,
    pub platforms: Vec<String>,
    pub reason: Option<String>,
}

pub struct SkillsListResponse {
    pub ok: bool,
    pub skills: Vec<SkillStatus>,
}

pub struct SkillToggleResponse {
    pub ok: bool,
    pub message: String,
}

/// The status shown for skill `d`: a skill is enabled when it is available.
pub open spec fn skill_status_of(d: DiscoveredSkill) -> SkillStatus {
    SkillStatus {
        name: d.name,
        description: d.description,
        enabled: d.available,
        source: d.source,
        version: d.version,
        platforms: d.platforms,
        reason: d.reason,
    }
}

/// The status listed for a skill keeps its name, description, source,
/// version, platforms and reason, and is enabled exactly when the skill is
/// available.
pub proof fn law_skill_status_keeps_fields(d: DiscoveredSkill)
    ensures
        skill_status_of(d).name == d.name,
        skill_status_of(d).description == d.description,
        skill_status_of(d).source == d.source,
        skill_status_of(d).version == d.version,
        skill_status_of(d).platforms == d.platforms,
        skill_status_of(d).reason == d.reason,
        skill_status_of(d).enabled == d.available,
{
}

/// The skill list: one status per discovered skill, in the same order.
pub fn skills_list_response(skills: Vec<DiscoveredSkill>) -> (res: SkillsListResponse)
    ensures
        res.ok,
        res.skills@ == skills@.map_values(|d: DiscoveredSkill| skill_status_of(d)),
        res.skills@.len() == skills@.len(),
        forall|i: int|
            0 <= i < skills@.len() ==> {
                let d = skills@[i];
                &&& (#[trigger] res.skills@[i]).name == d.name
                &&& res.skills@[i].description == d.description
                &&& res.skills@[i].enabled == d.available
                &&& res.skills@[i].source == d.source
                &&& res.skills@[i].version == d.version
                &&& res.skills@[i].platforms == d.platforms
                &&& res.skills@[i].reason == d.reason
            },
{
    let ghost orig = skills@;
    let n = skills.len();
    let mut rest = skills;
    let mut reversed: Vec<DiscoveredSkill> = Vec::new();
    while rest.len() > 0
        invariant
            n == orig.len(),
            rest@ == orig.take(rest@.len() as int),
            reversed@.len() + rest@.len() == n,
            forall|j: int| 0 <= j < reversed@.len() ==> #[trigger] reversed@[j] == orig[n - 1 - j],
        decreases rest@.len(),
    {
        let ghost r = rest@.len();
        match rest.pop() {
            Some(d) => {
                reversed.push(d);
                assert(rest@ =~= orig.take(rest@.len() as int));
            },
            None => {},
        }
    }
    let mut out: Vec<SkillStatus> = Vec::new();
    while reversed.len() > 0
        invariant
            n == orig.len(),
            reversed@.len() + out@.len() == n,
            forall|j: int| 0 <= j < reversed@.len() ==> #[trigger] reversed@[j] == orig[n - 1 - j],
            out@ =~= orig.take(out@.len() as int).map_values(|d: DiscoveredSkill| skill_status_of(d)),
        decreases reversed@.len(),
    {
        let ghost k = out@.len();
        match reversed.pop() {
            Some(d) => {
                assert(d == orig[k as int]);
                out.push(
                    SkillStatus {
                        name: d.name,
                        description: d.description,
                        enabled: d.available,
                        source: d.source,
                        version: d.version,
                        platforms: d.platforms,
                        reason: d.reason,
                    },
                );
                assert(orig.take(k + 1 as int) =~= orig.take(k as int).push(orig[k as int]));
            },
            None => {},
        }
    }
    assert(orig.take(n as int) =~= orig);
    SkillsListResponse { ok: true, skills: out }
}

/// Switching an unknown skill on or off is answered with `404 Not Found`.
pub fn skill_toggle_check(found: bool) -> (res: Result<(), ApiError>)
    ensures
        res is Ok <==> found,
        res matches Err(e) ==> api_error::error_view(e) == (NOT_FOUND, "Skill not found"@),
{
    if !found {
        return Err(api_error(NOT_FOUND, "Skill not found"));
    }
    Ok(())
}

/// The answer once the skill manager has switched a skill on (`enable`) or
/// off: its error as `500 Internal Server Error`, else a confirmation.
pub fn skill_toggle_response(enable: bool, set_result: Result<(), String>) -> (res: Result<
    SkillToggleResponse,
    ApiError,
>)
    ensures
        match set_result {
            Err(m) => res matches Err(e) && api_error::error_view(e) == (INTERNAL_SERVER_ERROR, m@),
            Ok(()) => res matches Ok(r) && r.ok && r.message@ == if enable {
                "Skill enabled"@
            } else {
                "Skill disabled"@
            },
        },
{
    match set_result {
        Err(m) => Err((INTERNAL_SERVER_ERROR, m)),
        Ok(()) => {
            let message = if enable {
                String::from_str("Skill enabled")
            } else {
                String::from_str("Skill disabled")
            };
            Ok(SkillToggleResponse { ok: true, message })
        },
    }
}

} // verus!
