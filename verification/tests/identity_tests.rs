use paira_shell::hasher::hash_hex;
use paira_shell::identity::{attempt, resolve, IdentityError};
use paira_shell::query::{MethodTag, QueryOutput};
use sha2::{Digest, Sha256};

fn sha_hex(data: &[u8]) -> String {
    let digest = Sha256::digest(data);
    let mut out = String::new();
    for byte in digest {
        out.push_str(&format!("{:02x}", byte));
    }
    out
}

fn ok(stdout: &[u8]) -> QueryOutput {
    QueryOutput { success: true, stdout: stdout.to_vec() }
}

fn failed() -> QueryOutput {
    QueryOutput { success: false, stdout: Vec::new() }
}

#[test]
fn primary_success_hashes_trimmed_output() {
    let r = resolve(&ok(b" 4C4C4544-0042-3010-8047-B4C04F564433 \r\n"), &failed(), &failed());
    let id = r.expect("primary sample should resolve");
    assert_eq!(id.hash, sha_hex(b"4C4C4544-0042-3010-8047-B4C04F564433"));
    assert_eq!(id.hash.len(), 64);
}

#[test]
fn second_tier_wins_and_third_is_never_consulted() {
    // Outcomes [fail, success("ABC-123"), -]: the secondary value is
    // hashed, and whatever the tertiary query would have said cannot
    // matter.
    let secondary = ok(b"\r\nUUID=ABC-123\r\n\r\n");
    let tertiary_a = ok(b"    MachineGuid    REG_SZ    11111111-aaaa\r\n");
    let tertiary_b = ok(b"    MachineGuid    REG_SZ    22222222-bbbb\r\n");
    let ra = resolve(&failed(), &secondary, &tertiary_a).expect("secondary should resolve");
    let rb = resolve(&failed(), &secondary, &tertiary_b).expect("secondary should resolve");
    assert_eq!(ra.hash, sha_hex(b"ABC-123"));
    assert_eq!(ra, rb);
}

#[test]
fn all_tiers_failing_is_total_resolution_failure() {
    let r = resolve(&failed(), &failed(), &failed());
    assert_eq!(r, Err(IdentityError::TotalResolutionFailure));
}

#[test]
fn unusable_outputs_also_exhaust_the_chain() {
    // All three queries ran, but none produced a valid sample: an echoed
    // header, a line without the UUID= key, and no MachineGuid line.
    let r = resolve(&ok(b"UUID\r\n"), &ok(b"no key here\r\n"), &ok(b"nothing relevant\r\n"));
    assert_eq!(r, Err(IdentityError::TotalResolutionFailure));
}

#[test]
fn header_artifact_falls_through_to_secondary() {
    let r = resolve(&ok(b"UUID\r\n"), &ok(b"UUID=DEF-456\r\n"), &failed());
    assert_eq!(r.expect("secondary should resolve").hash, sha_hex(b"DEF-456"));
}

#[test]
fn tertiary_takes_last_token_of_machine_guid_line() {
    let reg = b"\r\nHKEY_LOCAL_MACHINE\\SOFTWARE\\Microsoft\\Cryptography\r\n    MachineGuid    REG_SZ    f1e2d3c4-5678-90ab-cdef-111213141516\r\n\r\n";
    let r = resolve(&failed(), &failed(), &ok(reg));
    assert_eq!(
        r.expect("tertiary should resolve").hash,
        sha_hex(b"f1e2d3c4-5678-90ab-cdef-111213141516")
    );
}

#[test]
fn attempt_primary_trims_and_validates() {
    let s = attempt(MethodTag::Primary, &ok(b"  sample-id  \r\n")).expect("should validate");
    assert_eq!(s.method, MethodTag::Primary);
    assert_eq!(s.text, b"sample-id".to_vec());
}

#[test]
fn attempt_rejects_failed_query_and_empty_output() {
    assert!(attempt(MethodTag::Primary, &failed()).is_err());
    assert!(attempt(MethodTag::Primary, &ok(b"   \r\n")).is_err());
    assert!(attempt(MethodTag::Secondary, &ok(b"UUID=   \r\n")).is_err());
    assert!(attempt(MethodTag::Tertiary, &ok(b"unrelated\r\n")).is_err());
}

#[test]
fn secondary_value_stops_at_next_separator() {
    // The second `=`-separated field of the matching line, as a key=value
    // parse reads it.
    let s = attempt(MethodTag::Secondary, &ok(b"UUID=A=B\r\n")).expect("should validate");
    assert_eq!(s.text, b"A".to_vec());
}

#[test]
fn hasher_is_deterministic_and_transforms_its_input() {
    let input = b"ABC-123".to_vec();
    let h1 = hash_hex(&input);
    let h2 = hash_hex(&input);
    assert_eq!(h1, h2);
    let other = hash_hex(&b"ABC-124".to_vec());
    assert_ne!(h1, other);
    // A known digest: the wrapper really hashes, it does not echo.
    assert_eq!(
        hash_hex(&b"abc".to_vec()),
        "ba7816bf8f01cfea414140de5dae2223b00361a396177a9cb410ff61f20015ad"
    );
    assert_eq!(hash_hex(&b"abc".to_vec()), sha_hex(b"abc"));
}
