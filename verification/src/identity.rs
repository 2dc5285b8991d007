//! The identity resolver: an ordered chain of three platform-query
//! strategies. The first tier whose output validates supplies the raw
//! sample; its trimmed text is hashed into the machine fingerprint. Later
//! tiers are never consulted once an earlier one succeeds, and only the
//! exhaustion of all three surfaces an error.

use vstd::prelude::*;

use crate::hasher::{hash_hex, is_lower_hex_char, sha256_hex};
use crate::query::{MethodTag, QueryFailure, QueryOutput, RawSample};
use crate::text::{
    bytes_eq, contains_seq, first_line_containing, first_line_with_prefix, has_prefix,
    second_field, spec_first_containing, spec_first_with_prefix, spec_last_token, spec_lines,
    spec_second_field, spec_trim, split_lines, last_token, lemma_last_token_trimmed,
    lemma_trim_idempotent, trim,
};

verus! {

/// The header artifact "UUID" that a malformed primary query echoes back.
pub open spec fn uuid_header() -> Seq<u8> {
    seq![85u8, 85u8, 73u8, 68u8]
}

/// The "UUID=" prefix of the secondary query's key=value output.
pub open spec fn uuid_field_prefix() -> Seq<u8> {
    seq![85u8, 85u8, 73u8, 68u8, 61u8]
}

/// The "MachineGuid" marker of the tertiary query's registry output.
pub open spec fn machine_guid_marker() -> Seq<u8> {
    seq![77u8, 97u8, 99u8, 104u8, 105u8, 110u8, 101u8, 71u8, 117u8, 105u8, 100u8]
}

fn uuid_header_bytes() -> (r: Vec<u8>)
    ensures
        r@ == uuid_header(),
{
    let mut v: Vec<u8> = Vec::new();
    v.push(85);
    v.push(85);
    v.push(73);
    v.push(68);
    assert(v@ =~= uuid_header());
    v
}

fn uuid_field_prefix_bytes() -> (r: Vec<u8>)
    ensures
        r@ == uuid_field_prefix(),
{
    let mut v: Vec<u8> = Vec::new();
    v.push(85);
    v.push(85);
    v.push(73);
    v.push(68);
    v.push(61);
    assert(v@ =~= uuid_field_prefix());
    v
}

fn machine_guid_marker_bytes() -> (r: Vec<u8>)
    ensures
        r@ == machine_guid_marker(),
{
    let mut v: Vec<u8> = Vec::new();
    v.push(77);
    v.push(97);
    v.push(99);
    v.push(104);
    v.push(105);
    v.push(110);
    v.push(101);
    v.push(71);
    v.push(117);
    v.push(105);
    v.push(100);
    assert(v@ =~= machine_guid_marker());
    v
}

/// The primary tier's validated sample: the whole output trimmed, accepted
/// when the query succeeded and the text is neither empty nor the echoed
/// "UUID" header.
pub open spec fn spec_primary_candidate(success: bool, out: Seq<u8>) -> Option<Seq<u8>> {
    if success {
        let t = spec_trim(out);
        if t.len() > 0 && t != uuid_header() {
            Some(t)
        } else {
            None
        }
    } else {
        None
    }
}

/// The secondary tier's validated sample: the value of the first
/// `UUID=value` line, trimmed, accepted when non-empty.
pub open spec fn spec_secondary_candidate(success: bool, out: Seq<u8>) -> Option<Seq<u8>> {
    if success {
        match spec_first_with_prefix(spec_lines(out), uuid_field_prefix()) {
            Some(line) => match spec_second_field(line, 61) {
                Some(f) => {
                    let t = spec_trim(f);
                    if t.len() > 0 {
                        Some(t)
                    } else {
                        None
                    }
                },
                None => None,
            },
            None => None,
        }
    } else {
        None
    }
}

/// The tertiary tier's validated sample: the last token of the first line
/// that mentions the machine GUID value name.
pub open spec fn spec_tertiary_candidate(success: bool, out: Seq<u8>) -> Option<Seq<u8>> {
    if success {
        match spec_first_containing(spec_lines(out), machine_guid_marker()) {
            Some(line) => spec_last_token(line),
            None => None,
        }
    } else {
        None
    }
}

/// What one tier makes of its query outcome.
pub open spec fn spec_candidate(tag: MethodTag, success: bool, out: Seq<u8>) -> Option<Seq<u8>> {
    match tag {
        MethodTag::Primary => spec_primary_candidate(success, out),
        MethodTag::Secondary => spec_secondary_candidate(success, out),
        MethodTag::Tertiary => spec_tertiary_candidate(success, out),
    }
}

/// The sample the whole chain settles on: the first tier, in order, whose
/// output validates. A strict priority fallback — no vote, no merge.
pub open spec fn spec_chosen_sample(
    p_ok: bool,
    p_out: Seq<u8>,
    s_ok: bool,
    s_out: Seq<u8>,
    t_ok: bool,
    t_out: Seq<u8>,
) -> Option<(MethodTag, Seq<u8>)> {
    match spec_primary_candidate(p_ok, p_out) {
        Some(c) => Some((MethodTag::Primary, c)),
        None => match spec_secondary_candidate(s_ok, s_out) {
            Some(c) => Some((MethodTag::Secondary, c)),
            None => match spec_tertiary_candidate(t_ok, t_out) {
                Some(c) => Some((MethodTag::Tertiary, c)),
                None => None,
            },
        },
    }
}

/// Whatever tier a candidate comes from, it carries no surrounding
/// whitespace: trimming it again changes nothing.
pub proof fn lemma_candidate_trimmed(tag: MethodTag, success: bool, out: Seq<u8>)
    ensures
        match spec_candidate(tag, success, out) {
            Some(c) => spec_trim(c) == c,
            None => true,
        },
{
    if success {
        match tag {
            MethodTag::Primary => {
                lemma_trim_idempotent(out);
            },
            MethodTag::Secondary => {
                match spec_first_with_prefix(spec_lines(out), uuid_field_prefix()) {
                    Some(line) => match spec_second_field(line, 61) {
                        Some(f) => {
                            lemma_trim_idempotent(f);
                        },
                        None => {},
                    },
                    None => {},
                }
            },
            MethodTag::Tertiary => {
                match spec_first_containing(spec_lines(out), machine_guid_marker()) {
                    Some(line) => {
                        lemma_last_token_trimmed(line);
                    },
                    None => {},
                }
            },
        }
    }
}

/// Runs one tier of the chain on its observed query outcome: parse the
/// expected structure, extract the candidate, validate it.
pub fn attempt(tag: MethodTag, out: &QueryOutput) -> (r: Result<RawSample, QueryFailure>)
    ensures
        match spec_candidate(tag, out.success, out.stdout@) {
            Some(c) => r matches Ok(s) && s.method == tag && s.text@ == c,
            None => r == Err::<RawSample, QueryFailure>(QueryFailure),
        },
{
    match tag {
        MethodTag::Primary => {
            if !out.success {
                return Err(QueryFailure);
            }
            let t = trim(&out.stdout);
            if t.len() == 0 {
                return Err(QueryFailure);
            }
            let header = uuid_header_bytes();
            if bytes_eq(&t, &header) {
                return Err(QueryFailure);
            }
            Ok(RawSample { method: tag, text: t })
        },
        MethodTag::Secondary => {
            if !out.success {
                return Err(QueryFailure);
            }
            let lines = split_lines(&out.stdout);
            let prefix = uuid_field_prefix_bytes();
            match first_line_with_prefix(&lines, &prefix) {
                None => Err(QueryFailure),
                Some(line) => match second_field(&line, 61) {
                    None => Err(QueryFailure),
                    Some(f) => {
                        let t = trim(&f);
                        if t.len() == 0 {
                            Err(QueryFailure)
                        } else {
                            Ok(RawSample { method: tag, text: t })
                        }
                    },
                },
            }
        },
        MethodTag::Tertiary => {
            if !out.success {
                return Err(QueryFailure);
            }
            let lines = split_lines(&out.stdout);
            let marker = machine_guid_marker_bytes();
            match first_line_containing(&lines, &marker) {
                None => Err(QueryFailure),
                Some(line) => match last_token(&line) {
                    None => Err(QueryFailure),
                    Some(tok) => Ok(RawSample { method: tag, text: tok }),
                },
            }
        },
    }
}

/// The stable machine identity: the fingerprint hash of the one sample the
/// chain settled on.
#[derive(Clone, Debug, PartialEq, Eq)]
pub struct ResolvedIdentity {
    pub hash: String,
}

/// Resolution fails only once every tier of the chain is exhausted.
#[derive(Clone, Copy, Debug, PartialEq, Eq, Structural)]
pub enum IdentityError {
    TotalResolutionFailure,
}

/// Resolves the machine identity from the three tiers' query outcomes.
/// The first tier whose output validates wins outright, and its trimmed
/// sample text is hashed into a 64-digit lowercase hexadecimal fingerprint;
/// only when all three fail does the aggregate error surface.
pub fn resolve(primary: &QueryOutput, secondary: &QueryOutput, tertiary: &QueryOutput) -> (r:
    Result<ResolvedIdentity, IdentityError>)
    ensures
        match spec_chosen_sample(
            primary.success,
            primary.stdout@,
            secondary.success,
            secondary.stdout@,
            tertiary.success,
            tertiary.stdout@,
        ) {
            Some(chosen) => r matches Ok(id) && id.hash@ == sha256_hex(spec_trim(chosen.1))
                && id.hash@.len() == 64 && (forall|i: int|
                0 <= i < id.hash@.len() ==> is_lower_hex_char(id.hash@[i])),
            None => r == Err::<ResolvedIdentity, IdentityError>(
                IdentityError::TotalResolutionFailure,
            ),
        },
{
    proof {
        lemma_candidate_trimmed(MethodTag::Primary, primary.success, primary.stdout@);
        lemma_candidate_trimmed(MethodTag::Secondary, secondary.success, secondary.stdout@);
        lemma_candidate_trimmed(MethodTag::Tertiary, tertiary.success, tertiary.stdout@);
    }
    match attempt(MethodTag::Primary, primary) {
        Ok(sample) => {
            let hash = hash_hex(&sample.text);
            return Ok(ResolvedIdentity { hash });
        },
        Err(_) => {},
    }
    match attempt(MethodTag::Secondary, secondary) {
        Ok(sample) => {
            let hash = hash_hex(&sample.text);
            return Ok(ResolvedIdentity { hash });
        },
        Err(_) => {},
    }
    match attempt(MethodTag::Tertiary, tertiary) {
        Ok(sample) => {
            let hash = hash_hex(&sample.text);
            return Ok(ResolvedIdentity { hash });
        },
        Err(_) => {},
    }
    Err(IdentityError::TotalResolutionFailure)
}

/// Law: the chain short-circuits. Once the primary tier yields a valid
/// sample the other tiers' outcomes cannot affect the result, and once the
/// secondary tier yields one the tertiary outcome cannot.
pub proof fn lemma_resolution_short_circuits(
    p_ok: bool,
    p_out: Seq<u8>,
    s_ok: bool,
    s_out: Seq<u8>,
    s_ok2: bool,
    s_out2: Seq<u8>,
    t_ok: bool,
    t_out: Seq<u8>,
    t_ok2: bool,
    t_out2: Seq<u8>,
)
    ensures
        spec_primary_candidate(p_ok, p_out) is Some ==> spec_chosen_sample(
            p_ok,
            p_out,
            s_ok,
            s_out,
            t_ok,
            t_out,
        ) == spec_chosen_sample(p_ok, p_out, s_ok2, s_out2, t_ok2, t_out2),
        spec_secondary_candidate(s_ok, s_out) is Some ==> spec_chosen_sample(
            p_ok,
            p_out,
            s_ok,
            s_out,
            t_ok,
            t_out,
        ) == spec_chosen_sample(p_ok, p_out, s_ok, s_out, t_ok2, t_out2),
{
}

} // verus!
