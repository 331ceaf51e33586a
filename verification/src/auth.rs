//! Auth middleware, as an explicit two-stage pipeline: stage A extracts the
//! bearer token and verifies it, handing downstream code an authenticated
//! identity; stage B restricts to one role. Neither stage touches the store,
//! and all verification failures collapse into the one uniform
//! `Unauthorized` outcome, so a caller cannot tell a missing token from a
//! bad one.

use vstd::prelude::*;
use crate::model::{AuthenticatedUser, Claims, Role};
use crate::response::ApiError;
use crate::token::{TokenService, token_accepts, unauthorized};

verus! {

/// The ASCII of `Bearer ` (with the trailing space).
pub open spec fn bearer_prefix() -> Seq<u8> {
    seq![0x42u8, 0x65u8, 0x61u8, 0x72u8, 0x65u8, 0x72u8, 0x20u8]
}

/// Whether a header value carries the bearer scheme.
pub open spec fn has_bearer_scheme(h: Seq<u8>) -> bool {
    h.len() >= 7 && h.subrange(0, 7) == bearer_prefix()
}

/// The token carried by a header with the bearer scheme.
pub open spec fn bearer_token(h: Seq<u8>) -> Seq<u8> {
    h.skip(7)
}

/// Extract the token from an `Authorization` header value. A missing header
/// or one without the `Bearer ` scheme short-circuits before the token
/// service is consulted.
pub fn extract_bearer<'a>(header: Option<&'a [u8]>) -> (r: Result<&'a [u8], ApiError>)
    ensures
        match r {
            Ok(t) => header matches Some(h) && has_bearer_scheme(h@) && t@ == bearer_token(h@),
            Err(e) => e is Unauthorized && (header matches Some(h) ==> !has_bearer_scheme(h@)),
        },
{
    let h = match header {
        Some(h) => h,
        None => {
            return Err(unauthorized());
        },
    };
    if h.len() < 7 {
        return Err(unauthorized());
    }
    if h[0] != 0x42 || h[1] != 0x65 || h[2] != 0x61 || h[3] != 0x72 || h[4] != 0x65 || h[5] != 0x72
        || h[6] != 0x20 {
        proof {
            if has_bearer_scheme(h@) {
                assert(h@.subrange(0, 7)[0] == 0x42);
                assert(h@.subrange(0, 7)[1] == 0x65);
                assert(h@.subrange(0, 7)[2] == 0x61);
                assert(h@.subrange(0, 7)[3] == 0x72);
                assert(h@.subrange(0, 7)[4] == 0x65);
                assert(h@.subrange(0, 7)[5] == 0x72);
                assert(h@.subrange(0, 7)[6] == 0x20);
            }
        }
        return Err(unauthorized());
    }
    let t = vstd::slice::slice_subrange(h, 7, h.len());
    proof {
        assert(h@.subrange(0, 7) =~= bearer_prefix());
        assert(t@ =~= bearer_token(h@));
    }
    Ok(t)
}

/// Stage A: read the `Authorization` header, require the bearer scheme,
/// verify the token, and make the request-scoped identity for downstream
/// stages. Succeeds exactly on a well-formed header whose token the service
/// accepts at `now`; every failure is the uniform `Unauthorized`.
pub fn authenticate(
    service: &TokenService,
    header: Option<&[u8]>,
    now: u64,
) -> (r: Result<AuthenticatedUser, ApiError>)
    ensures
        match r {
            Ok(u) => header matches Some(h) && has_bearer_scheme(h@) && exists|c: Claims|
                token_accepts(service.secret@, bearer_token(h@), now, c) && u.id == c.sub
                    && u.role == c.role,
            Err(e) => e is Unauthorized && (header matches Some(h) ==> has_bearer_scheme(h@)
                ==> forall|c: Claims| !token_accepts(service.secret@, bearer_token(h@), now, c)),
        },
{
    let token = match extract_bearer(header) {
        Ok(t) => t,
        Err(e) => {
            return Err(e);
        },
    };
    match service.verify(token, now) {
        Ok(c) => Ok(AuthenticatedUser { id: c.sub, role: c.role }),
        Err(e) => Err(e),
    }
}

/// Stage B: restrict to one role. `Forbidden` exactly on a role mismatch; a
/// missing identity is an internal-consistency error, since this stage must
/// never run without stage A before it.
pub fn require_role(identity: Option<&AuthenticatedUser>, role: Role) -> (r: Result<
    (),
    ApiError,
>)
    ensures
        match r {
            Ok(_) => identity matches Some(u) && u.role == role,
            Err(e) => match identity {
                Some(u) => u.role != role && e is Forbidden,
                None => e is InternalServerError,
            },
        },
{
    match identity {
        None => Err(
            ApiError::InternalServerError(
                "role gate reached with no authenticated identity".to_owned(),
            ),
        ),
        Some(u) => {
            if u.role == role {
                Ok(())
            } else {
                Err(ApiError::Forbidden("insufficient role".to_owned()))
            }
        },
    }
}

} // verus!
