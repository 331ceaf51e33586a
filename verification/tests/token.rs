use timetrial::model::Role;
use timetrial::token::TokenService;

fn service() -> TokenService {
    TokenService::new(b"a process-wide signing secret".to_vec())
}

#[test]
fn issue_then_verify_returns_same_claims() {
    let svc = service();
    let now = 1_700_000_000;
    let token = svc.issue(42, Role::User, now);
    let claims = svc.verify(&token, now).expect("a fresh token must verify");
    assert_eq!(claims.sub, 42);
    assert_eq!(claims.role, Role::User);
    assert_eq!(claims.exp, now + 86400);

    let admin_token = svc.issue(7, Role::Admin, now);
    let admin_claims = svc.verify(&admin_token, now + 86399).expect("still unexpired");
    assert_eq!(admin_claims.sub, 7);
    assert_eq!(admin_claims.role, Role::Admin);
}

#[test]
fn expired_token_fails_verification() {
    let svc = service();
    let now = 1_700_000_000;
    let token = svc.issue(42, Role::User, now);
    // exp == now + 86400 and verification demands exp > now.
    assert!(svc.verify(&token, now + 86400).is_err());
    assert!(svc.verify(&token, now + 86399).is_ok());
}

#[test]
fn tampered_signature_fails_verification() {
    let svc = service();
    let now = 1_700_000_000;
    let token = svc.issue(42, Role::User, now);
    // The signature segment is the 64 hex bytes after the second dot; flip
    // each of its bytes in turn.
    let sig_start = token.len() - 64;
    assert_eq!(token[sig_start - 1], b'.');
    for i in sig_start..token.len() {
        let mut tampered = token.clone();
        tampered[i] = if tampered[i] == b'0' { b'1' } else { b'0' };
        if tampered[i] == token[i] {
            continue;
        }
        assert!(svc.verify(&tampered, now).is_err(), "byte {} tampered", i);
    }
}

#[test]
fn token_of_other_secret_fails_verification() {
    let svc = service();
    let other = TokenService::new(b"another secret entirely".to_vec());
    let now = 1_700_000_000;
    let token = other.issue(42, Role::User, now);
    assert!(svc.verify(&token, now).is_err());
    assert!(other.verify(&token, now).is_ok());
}

#[test]
fn malformed_tokens_fail_verification() {
    let svc = service();
    let now = 1_700_000_000;
    for bad in [
        &b""[..],
        &b"HS256"[..],
        &b"HS256."[..],
        &b"HS256..deadbeef"[..],
        &b"RS256.00.00"[..],
        &b"HS256.zz.00"[..],
        &b"not a token at all"[..],
    ] {
        assert!(svc.verify(bad, now).is_err());
    }
}

#[test]
fn token_wire_format_is_three_hex_segments() {
    let svc = service();
    let token = svc.issue(3, Role::User, 100);
    let text: Vec<u8> = token.clone();
    assert!(text.starts_with(b"HS256."));
    let dots: Vec<usize> = text
        .iter()
        .enumerate()
        .filter_map(|(i, b)| if *b == b'.' { Some(i) } else { None })
        .collect();
    assert_eq!(dots.len(), 2);
    // Payload is `3:user:86500` hex-encoded.
    let payload_hex: Vec<u8> = text[6..dots[1]].to_vec();
    let mut expected = Vec::new();
    for b in b"3:user:86500" {
        expected.push(b"0123456789abcdef"[(b >> 4) as usize]);
        expected.push(b"0123456789abcdef"[(b & 0x0f) as usize]);
    }
    assert_eq!(payload_hex, expected);
    // The signature is 32 bytes of HMAC-SHA256, so 64 hex digits.
    assert_eq!(text.len() - dots[1] - 1, 64);
}
