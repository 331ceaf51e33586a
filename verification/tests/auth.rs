use timetrial::auth::{authenticate, extract_bearer, require_role};
use timetrial::model::{AuthenticatedUser, Role};
use timetrial::token::TokenService;

fn service() -> TokenService {
    TokenService::new(b"a process-wide signing secret".to_vec())
}

fn bearer(token: &[u8]) -> Vec<u8> {
    let mut h = b"Bearer ".to_vec();
    h.extend_from_slice(token);
    h
}

#[test]
fn extract_bearer_returns_the_token() {
    let header = b"Bearer abc.def.ghi".to_vec();
    let token = extract_bearer(Some(&header)).expect("well-formed header");
    assert_eq!(token, b"abc.def.ghi");
}

#[test]
fn missing_header_is_unauthenticated() {
    let e = extract_bearer(None).expect_err("no header, no identity");
    assert_eq!(e.status_code(), 401);
}

#[test]
fn malformed_scheme_is_unauthenticated() {
    for bad in [&b"bearer x"[..], &b"Basic x"[..], &b"Bearer"[..], &b""[..], &b"BearerX"[..]] {
        let owned = bad.to_vec();
        let e = extract_bearer(Some(&owned)).expect_err("scheme must be `Bearer `");
        assert_eq!(e.status_code(), 401);
    }
}

#[test]
fn authenticate_attaches_the_token_identity() {
    let svc = service();
    let now = 1_700_000_000;
    let token = svc.issue(42, Role::User, now);
    let header = bearer(&token);
    let identity = authenticate(&svc, Some(&header), now).expect("valid bearer token");
    assert_eq!(identity.id, 42);
    assert_eq!(identity.role, Role::User);
}

#[test]
fn authenticate_rejects_bad_or_expired_tokens_uniformly() {
    let svc = service();
    let now = 1_700_000_000;
    let token = svc.issue(42, Role::User, now);

    let no_scheme = token.clone();
    let e1 = authenticate(&svc, Some(&no_scheme), now).expect_err("no scheme");
    let expired = bearer(&token);
    let e2 = authenticate(&svc, Some(&expired), now + 86400).expect_err("expired");
    let garbled = bearer(b"HS256.zz.zz");
    let e3 = authenticate(&svc, Some(&garbled), now).expect_err("garbled");
    let e4 = authenticate(&svc, None, now).expect_err("absent");
    for e in [e1, e2, e3, e4] {
        assert_eq!(e.status_code(), 401, "every cause collapses to Unauthorized");
    }
}

#[test]
fn user_hitting_admin_gate_is_forbidden() {
    let u = AuthenticatedUser { id: 42, role: Role::User };
    let e = require_role(Some(&u), Role::Admin).expect_err("user is not admin");
    assert_eq!(e.status_code(), 403);
}

#[test]
fn admin_passes_admin_gate() {
    let a = AuthenticatedUser { id: 7, role: Role::Admin };
    assert!(require_role(Some(&a), Role::Admin).is_ok());
    assert!(require_role(Some(&a), Role::User).is_err());
}

#[test]
fn role_gate_without_identity_is_an_internal_error() {
    let e = require_role(None, Role::Admin).expect_err("stage B needs stage A");
    assert_eq!(e.status_code(), 500);
}

#[test]
fn full_pipeline_gates_admin_route() {
    let svc = service();
    let now = 1_700_000_000;

    let user_header = bearer(&svc.issue(1, Role::User, now));
    let user = authenticate(&svc, Some(&user_header), now).unwrap();
    assert_eq!(require_role(Some(&user), Role::Admin).unwrap_err().status_code(), 403);

    let admin_header = bearer(&svc.issue(2, Role::Admin, now));
    let admin = authenticate(&svc, Some(&admin_header), now).unwrap();
    assert!(require_role(Some(&admin), Role::Admin).is_ok());
}
