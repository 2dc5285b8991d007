//! The device-name resolver: the same ordered fallback shape as the
//! identity chain, but total. Two platform queries are tried in order, then
//! a named environment value, and finally an unconditional sentinel, so a
//! non-empty name always comes back. The name is for display only and is
//! never hashed.

use vstd::prelude::*;

use crate::query::QueryOutput;
use crate::text::{
    copy_bytes, first_line_with_prefix, second_field, spec_first_with_prefix, spec_lines,
    spec_second_field, spec_trim, split_lines, trim,
};

verus! {

/// The "Name=" prefix of the secondary query's key=value output.
pub open spec fn name_field_prefix() -> Seq<u8> {
    seq![78u8, 97u8, 109u8, 101u8, 61u8]
}

/// The sentinel "Unknown Device", returned when every other tier fails.
pub open spec fn sentinel_name() -> Seq<u8> {
    seq![
        85u8,
        110u8,
        107u8,
        110u8,
        111u8,
        119u8,
        110u8,
        32u8,
        68u8,
        101u8,
        118u8,
        105u8,
        99u8,
        101u8,
    ]
}

fn name_field_prefix_bytes() -> (r: Vec<u8>)
    ensures
        r@ == name_field_prefix(),
{
    let mut v: Vec<u8> = Vec::new();
    v.push(78);
    v.push(97);
    v.push(109);
    v.push(101);
    v.push(61);
    assert(v@ =~= name_field_prefix());
    v
}

/// Builds the sentinel name, for callers that need to display it.
pub fn sentinel_name_bytes() -> (r: Vec<u8>)
    ensures
        r@ == sentinel_name(),
{
    let mut v: Vec<u8> = Vec::new();
    v.push(85);
    v.push(110);
    v.push(107);
    v.push(110);
    v.push(111);
    v.push(119);
    v.push(110);
    v.push(32);
    v.push(68);
    v.push(101);
    v.push(118);
    v.push(105);
    v.push(99);
    v.push(101);
    assert(v@ =~= sentinel_name());
    v
}

/// The primary tier's name: the whole output trimmed, accepted when the
/// query succeeded and something is left.
pub open spec fn spec_name_primary(success: bool, out: Seq<u8>) -> Option<Seq<u8>> {
    if success {
        let t = spec_trim(out);
        if t.len() > 0 {
            Some(t)
        } else {
            None
        }
    } else {
        None
    }
}

/// The secondary tier's name: the value of the first `Name=value` line,
/// trimmed, accepted when non-empty.
pub open spec fn spec_name_secondary(success: bool, out: Seq<u8>) -> Option<Seq<u8>> {
    if success {
        match spec_first_with_prefix(spec_lines(out), name_field_prefix()) {
            Some(line) => match spec_second_field(line, 61) {
                Some(f) => {
                    let t = spec_trim(f);
                    if t.len() > 0 {
                        Some(t)
                    } else {
                        None
                    }
                },
                None => None,
            },
            None => None,
        }
    } else {
        None
    }
}

/// The environment tier: a configured machine name, accepted only when it
/// is set and non-empty, so that the resolved name is never empty.
pub open spec fn spec_env_name(env: Option<Seq<u8>>) -> Option<Seq<u8>> {
    match env {
        Some(e) => if e.len() > 0 {
            Some(e)
        } else {
            None
        },
        None => None,
    }
}

/// The view of an optional byte vector.
pub open spec fn opt_bytes_view(o: Option<Vec<u8>>) -> Option<Seq<u8>> {
    match o {
        Some(v) => Some(v@),
        None => None,
    }
}

/// The name the whole chain settles on: first query, second query, the
/// environment value, and finally the sentinel.
pub open spec fn spec_resolved_name(
    p_ok: bool,
    p_out: Seq<u8>,
    s_ok: bool,
    s_out: Seq<u8>,
    env: Option<Seq<u8>>,
) -> Seq<u8> {
    match spec_name_primary(p_ok, p_out) {
        Some(n) => n,
        None => match spec_name_secondary(s_ok, s_out) {
            Some(n) => n,
            None => match spec_env_name(env) {
                Some(n) => n,
                None => sentinel_name(),
            },
        },
    }
}

/// Resolves the display name of this machine from the two queries' outcomes
/// and the environment value. Total: every tier may fail and a non-empty
/// name still comes back.
pub fn resolve_name(primary: &QueryOutput, secondary: &QueryOutput, env_name: &Option<Vec<u8>>) -> (r:
    Vec<u8>)
    ensures
        r@ == spec_resolved_name(
            primary.success,
            primary.stdout@,
            secondary.success,
            secondary.stdout@,
            opt_bytes_view(*env_name),
        ),
        r@.len() > 0,
{
    if primary.success {
        let t = trim(&primary.stdout);
        if t.len() > 0 {
            return t;
        }
    }
    if secondary.success {
        let lines = split_lines(&secondary.stdout);
        let prefix = name_field_prefix_bytes();
        match first_line_with_prefix(&lines, &prefix) {
            Some(line) => {
                match second_field(&line, 61) {
                    Some(f) => {
                        let t = trim(&f);
                        if t.len() > 0 {
                            return t;
                        }
                    },
                    None => {},
                }
            },
            None => {},
        }
    }
    match env_name {
        Some(e) => {
            if e.len() > 0 {
                return copy_bytes(e);
            }
        },
        None => {},
    }
    let s = sentinel_name_bytes();
    assert(s@.len() > 0);
    s
}

} // verus!
