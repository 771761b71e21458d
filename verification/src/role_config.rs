//! Node role configuration: the roles a node can take and the check of a
//! role assignment.

use vstd::prelude::*;
use crate::text::{extend_str, join, str_eq, string_of};

verus! {

/// Body of `POST /api/mesh/config/role`.
#[derive(Debug, Clone)]
pub struct SetRoleRequest {
    pub peer_name: String,
    pub role: String,
}

/// The role of a node that has no assignment.
pub const DEFAULT_ROLE: &'static str = "all";

pub open spec fn valid_roles() -> Seq<Seq<char>> {
    seq!["all"@, "orchestrator"@, "kernel"@, "voice"@, "worker"@, "nightagent"@]
}

pub open spec fn invalid_role_message(role: Seq<char>) -> Seq<char> {
    "invalid role '"@ + role + "'; valid: "@ + join(valid_roles(), ", "@)
}

/// Accepts a known role; otherwise the error names the role and lists the
/// valid ones.
pub fn validate_role(role: &str) -> (r: Result<(), String>)
    ensures
        valid_roles().contains(role@) ==> r is Ok,
        !valid_roles().contains(role@) ==> r is Err && r->Err_0@ == invalid_role_message(role@),
{
    let names = ["all", "orchestrator", "kernel", "voice", "worker", "nightagent"];
    proof {
        reveal_strlit("all");
        reveal_strlit("orchestrator");
        reveal_strlit("kernel");
        reveal_strlit("voice");
        reveal_strlit("worker");
        reveal_strlit("nightagent");
    }
    let mut i: usize = 0;
    while i < 6
        invariant
            i <= 6,
            names@ == seq!["all", "orchestrator", "kernel", "voice", "worker", "nightagent"],
            forall|k: int| 0 <= k < i ==> valid_roles()[k] != role@,
        decreases 6 - i,
    {
        assert(names@[i as int]@ == valid_roles()[i as int]);
        if str_eq(names[i], role) {
            assert(valid_roles()[i as int] == role@);
            return Ok(());
        }
        i = i + 1;
    }
    assert(!valid_roles().contains(role@));
    let mut out: Vec<char> = Vec::new();
    extend_str(&mut out, "invalid role '");
    extend_str(&mut out, role);
    extend_str(&mut out, "'; valid: all, orchestrator, kernel, voice, worker, nightagent");
    proof {
        reveal_strlit("'; valid: all, orchestrator, kernel, voice, worker, nightagent");
        reveal_strlit("invalid role '");
        lemma_roles_joined();
        reveal_strlit("'; valid: ");
        reveal_strlit("all, orchestrator, kernel, voice, worker, nightagent");
        assert("'; valid: "@ + join(valid_roles(), ", "@)
            =~= "'; valid: all, orchestrator, kernel, voice, worker, nightagent"@);
        assert(out@ =~= invalid_role_message(role@));
    }
    Err(string_of(&out))
}

proof fn lemma_roles_joined()
    ensures
        join(valid_roles(), ", "@) == "all, orchestrator, kernel, voice, worker, nightagent"@,
{
    reveal_strlit("all");
    reveal_strlit("orchestrator");
    reveal_strlit("kernel");
    reveal_strlit("voice");
    reveal_strlit("worker");
    reveal_strlit("nightagent");
    reveal_strlit(", ");
    reveal_strlit("all, orchestrator, kernel, voice, worker, nightagent");
    let v = valid_roles();
    let sep = ", "@;
    assert(v.take(1).drop_last() =~= v.take(0));
    assert(join(v.take(1), sep) == "all"@);
    assert(v.take(2).drop_last() =~= v.take(1));
    assert(join(v.take(2), sep) == join(v.take(1), sep) + sep + "orchestrator"@);
    assert(v.take(3).drop_last() =~= v.take(2));
    assert(join(v.take(3), sep) == join(v.take(2), sep) + sep + "kernel"@);
    assert(v.take(4).drop_last() =~= v.take(3));
    assert(join(v.take(4), sep) == join(v.take(3), sep) + sep + "voice"@);
    assert(v.take(5).drop_last() =~= v.take(4));
    assert(join(v.take(5), sep) == join(v.take(4), sep) + sep + "worker"@);
    assert(v.take(6).drop_last() =~= v.take(5));
    assert(join(v.take(6), sep) == join(v.take(5), sep) + sep + "nightagent"@);
    assert(v.take(6) =~= v);
    assert(join(v, sep) =~= "all, orchestrator, kernel, voice, worker, nightagent"@);
}

pub open spec fn role_catalog() -> Seq<(Seq<char>, Seq<char>)> {
    seq![
        ("all"@, "All extensions loaded (single-node default)"@),
        ("orchestrator"@, "Plans DB, platform services, worker coordination"@),
        ("kernel"@, "Local AI kernel, Telegram, voice"@),
        ("voice"@, "Voice I/O only"@),
        ("worker"@, "Receives delegated tasks, runs agents"@),
        ("nightagent"@, "Night agent workloads (knowledge sync, nightly jobs)"@),
    ]
}

/// The valid node roles with their descriptions.
pub fn available_roles() -> (r: Vec<(String, String)>)
    ensures
        crate::transport::pairs_view(r@) == role_catalog(),
{
    let mut out: Vec<(String, String)> = Vec::new();
    out.push(("all".to_owned(), "All extensions loaded (single-node default)".to_owned()));
    out.push(("orchestrator".to_owned(), "Plans DB, platform services, worker coordination".to_owned()));
    out.push(("kernel".to_owned(), "Local AI kernel, Telegram, voice".to_owned()));
    out.push(("voice".to_owned(), "Voice I/O only".to_owned()));
    out.push(("worker".to_owned(), "Receives delegated tasks, runs agents".to_owned()));
    out.push(("nightagent".to_owned(), "Night agent workloads (knowledge sync, nightly jobs)".to_owned()));
    assert(crate::transport::pairs_view(out@) =~= role_catalog());
    out
}

} // verus!
