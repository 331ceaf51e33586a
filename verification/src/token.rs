//! Token service: stateless, signed, time-bound identity assertions.
//!
//! A token is a compact three-segment byte string
//! `HS256.<hex payload>.<hex signature>`, where the payload is
//! `<sub>:<role>:<exp>` (canonical decimals and the role word) and the
//! signature is the HMAC-SHA256 tag of the payload under the process-wide
//! secret. Expired or mis-signed tokens are rejected uniformly: one
//! `Unauthorized` outcome, whatever the cause.

use vstd::prelude::*;
use crate::codec::{
    dec_encode, dec_int, dec_of, dec_parse, dec_val, hex_decode, hex_encode, hex_of,
    is_dec_digit, is_hex_digit, lemma_canon_is_dec_of, lemma_dec_of_canon,
    lemma_dec_of_injective, lemma_hex_of_all_hex, lemma_hex_of_injective, lemma_hex_of_len,
};
use crate::model::{Claims, Role};
use crate::response::ApiError;
use hmac::Mac;

verus! {

// --- wire format, as mathematics --------------------------------------------

/// What `hmac::Hmac<sha2::Sha256>` computes over a key and a message: a
/// function of the two arguments alone.
pub uninterp spec fn hmac_sha256(key: Seq<u8>, msg: Seq<u8>) -> Seq<u8>;

/// The role word carried in a payload: `user` or `admin`.
pub open spec fn role_bytes(r: Role) -> Seq<u8> {
    match r {
        Role::User => seq![0x75u8, 0x73u8, 0x65u8, 0x72u8],
        Role::Admin => seq![0x61u8, 0x64u8, 0x6du8, 0x69u8, 0x6eu8],
    }
}

/// The payload of a claims value: `<sub>:<role>:<exp>` with canonical
/// decimals, `0x3a` the colon.
pub open spec fn payload_of(c: Claims) -> Seq<u8> {
    dec_of(c.sub as nat) + seq![0x3au8] + role_bytes(c.role) + seq![0x3au8] + dec_of(
        c.exp as nat,
    )
}

/// The constant header segment, the ASCII of `HS256`.
pub open spec fn header_bytes() -> Seq<u8> {
    seq![0x48u8, 0x53u8, 0x32u8, 0x35u8, 0x36u8]
}

/// The complete wire form of a token for claims `c` under `key`, `0x2e` the
/// separating dot.
pub open spec fn token_of(key: Seq<u8>, c: Claims) -> Seq<u8> {
    header_bytes() + seq![0x2eu8] + hex_of(payload_of(c)) + seq![0x2eu8] + hex_of(
        hmac_sha256(key, payload_of(c)),
    )
}

/// Acceptance: `token` is the well-signed wire form of `c` and `c` has not
/// expired at instant `now`.
pub open spec fn token_accepts(key: Seq<u8>, token: Seq<u8>, now: u64, c: Claims) -> bool {
    token_of(key, c) == token && c.exp > now
}

// --- structural lemmas -------------------------------------------------------

/// Splitting at a separator that occurs in neither left part is unambiguous.
proof fn lemma_sep_split(a1: Seq<u8>, b1: Seq<u8>, a2: Seq<u8>, b2: Seq<u8>, sep: u8)
    requires
        a1 + seq![sep] + b1 == a2 + seq![sep] + b2,
        forall|k: int| 0 <= k < a1.len() ==> a1[k] != sep,
        forall|k: int| 0 <= k < a2.len() ==> a2[k] != sep,
    ensures
        a1 == a2,
        b1 == b2,
{
    let s1 = a1 + seq![sep] + b1;
    let s2 = a2 + seq![sep] + b2;
    if a1.len() < a2.len() {
        assert(s1[a1.len() as int] == sep);
        assert(s2[a1.len() as int] == a2[a1.len() as int]);
        assert(false);
    }
    if a2.len() < a1.len() {
        assert(s2[a2.len() as int] == sep);
        assert(s1[a2.len() as int] == a1[a2.len() as int]);
        assert(false);
    }
    assert forall|k: int| 0 <= k < a1.len() implies a1[k] == a2[k] by {
        assert(s1[k] == a1[k]);
        assert(s2[k] == a2[k]);
    }
    assert(a1 =~= a2);
    assert(s1.len() == s2.len());
    assert(b1.len() == b2.len());
    assert forall|k: int| 0 <= k < b1.len() implies b1[k] == b2[k] by {
        let i = a1.len() + 1 + k;
        assert(s1[i] == b1[k]);
        assert(i == a2.len() + 1 + k);
        assert(s2[i] == b2[k]);
    }
    assert(b1 =~= b2);
}

/// Canonical decimals consist of digits, so they contain no colon and no dot.
proof fn lemma_dec_of_no_sep(n: nat)
    ensures
        forall|k: int| 0 <= k < dec_of(n).len() ==> dec_of(n)[k] != 0x3a,
        forall|k: int| 0 <= k < dec_of(n).len() ==> dec_of(n)[k] != 0x2e,
{
    lemma_dec_of_canon(n);
    assert forall|k: int| 0 <= k < dec_of(n).len() implies dec_of(n)[k] != 0x3a && dec_of(n)[k]
        != 0x2e by {
        assert(is_dec_digit(dec_of(n)[k]));
    }
}

/// Role words contain no colon.
proof fn lemma_role_bytes_no_colon(r: Role)
    ensures
        forall|k: int| 0 <= k < role_bytes(r).len() ==> role_bytes(r)[k] != 0x3a,
{
    match r {
        Role::User => {
            assert forall|k: int| 0 <= k < role_bytes(r).len() implies role_bytes(r)[k] != 0x3a by {
                assert(role_bytes(r) =~= seq![0x75u8, 0x73u8, 0x65u8, 0x72u8]);
            }
        },
        Role::Admin => {
            assert forall|k: int| 0 <= k < role_bytes(r).len() implies role_bytes(r)[k] != 0x3a by {
                assert(role_bytes(r) =~= seq![0x61u8, 0x64u8, 0x6du8, 0x69u8, 0x6eu8]);
            }
        },
    }
}

/// Distinct roles have distinct words.
proof fn lemma_role_bytes_injective(r1: Role, r2: Role)
    requires
        role_bytes(r1) == role_bytes(r2),
    ensures
        r1 == r2,
{
    if r1 != r2 {
        assert(role_bytes(Role::User).len() == 4);
        assert(role_bytes(Role::Admin).len() == 5);
    }
}

/// Two claims with the same payload are the same claims.
pub proof fn lemma_payload_of_injective(c1: Claims, c2: Claims)
    requires
        payload_of(c1) == payload_of(c2),
    ensures
        c1 == c2,
{
    let tail1 = role_bytes(c1.role) + seq![0x3au8] + dec_of(c1.exp as nat);
    let tail2 = role_bytes(c2.role) + seq![0x3au8] + dec_of(c2.exp as nat);
    assert(payload_of(c1) =~= dec_of(c1.sub as nat) + seq![0x3au8] + tail1);
    assert(payload_of(c2) =~= dec_of(c2.sub as nat) + seq![0x3au8] + tail2);
    lemma_dec_of_no_sep(c1.sub as nat);
    lemma_dec_of_no_sep(c2.sub as nat);
    lemma_sep_split(dec_of(c1.sub as nat), tail1, dec_of(c2.sub as nat), tail2, 0x3a);
    lemma_dec_of_injective(c1.sub as nat, c2.sub as nat);
    lemma_role_bytes_no_colon(c1.role);
    lemma_role_bytes_no_colon(c2.role);
    lemma_sep_split(
        role_bytes(c1.role),
        dec_of(c1.exp as nat),
        role_bytes(c2.role),
        dec_of(c2.exp as nat),
        0x3a,
    );
    lemma_role_bytes_injective(c1.role, c2.role);
    lemma_dec_of_injective(c1.exp as nat, c2.exp as nat);
}

/// Where each piece of a token lies in the whole byte string.
pub proof fn lemma_token_layout(key: Seq<u8>, c: Claims)
    ensures
        token_of(key, c).len() == 7 + 2 * payload_of(c).len() + 2 * hmac_sha256(
            key,
            payload_of(c),
        ).len(),
        token_of(key, c).subrange(0, 5) == header_bytes(),
        token_of(key, c)[0] == 0x48 && token_of(key, c)[1] == 0x53 && token_of(key, c)[2] == 0x32
            && token_of(key, c)[3] == 0x35 && token_of(key, c)[4] == 0x36,
        token_of(key, c)[5] == 0x2e,
        token_of(key, c)[6 + 2 * payload_of(c).len() as int] == 0x2e,
        token_of(key, c).subrange(6, 6 + 2 * payload_of(c).len() as int) == hex_of(payload_of(c)),
        token_of(key, c).subrange(
            7 + 2 * payload_of(c).len() as int,
            token_of(key, c).len() as int,
        ) == hex_of(hmac_sha256(key, payload_of(c))),
{
    let p = payload_of(c);
    let m = hmac_sha256(key, p);
    lemma_hex_of_len(p);
    lemma_hex_of_len(m);
    let t = token_of(key, c);
    assert(t.subrange(0, 5) =~= header_bytes());
    assert(t.subrange(6, 6 + 2 * p.len() as int) =~= hex_of(p));
    assert(t.subrange(7 + 2 * p.len() as int, t.len() as int) =~= hex_of(m));
}

/// Where each piece of a payload lies in the whole byte string, and that the
/// two colons written by `payload_of` are its first two.
proof fn lemma_payload_layout(c: Claims)
    ensures
        ({
            let ds = dec_of(c.sub as nat);
            let rb = role_bytes(c.role);
            let de = dec_of(c.exp as nat);
            let p = payload_of(c);
            &&& p.len() == ds.len() + 1 + rb.len() + 1 + de.len()
            &&& p.subrange(0, ds.len() as int) == ds
            &&& p[ds.len() as int] == 0x3a
            &&& p.subrange(ds.len() as int + 1, ds.len() + 1 + rb.len() as int) == rb
            &&& p[ds.len() + 1 + rb.len() as int] == 0x3a
            &&& p.subrange(ds.len() + 2 + rb.len() as int, p.len() as int) == de
            &&& (forall|k: int| 0 <= k < ds.len() ==> p[k] != 0x3a)
            &&& (forall|k: int|
                ds.len() < k < ds.len() + 1 + rb.len() ==> p[k] != 0x3a)
        }),
{
    let ds = dec_of(c.sub as nat);
    let rb = role_bytes(c.role);
    let de = dec_of(c.exp as nat);
    let p = payload_of(c);
    lemma_dec_of_no_sep(c.sub as nat);
    lemma_dec_of_no_sep(c.exp as nat);
    lemma_role_bytes_no_colon(c.role);
    assert(p.subrange(0, ds.len() as int) =~= ds);
    assert(p.subrange(ds.len() as int + 1, ds.len() + 1 + rb.len() as int) =~= rb);
    assert(p.subrange(ds.len() + 2 + rb.len() as int, p.len() as int) =~= de);
    assert forall|k: int| 0 <= k < ds.len() implies p[k] != 0x3a by {
        assert(p[k] == ds[k]);
    }
    assert forall|k: int| ds.len() < k < ds.len() + 1 + rb.len() implies p[k] != 0x3a by {
        assert(p[k] == rb[k - (ds.len() + 1)]);
    }
}

/// For a fixed key, distinct claims have distinct tokens.
pub proof fn lemma_token_of_injective(key: Seq<u8>, c1: Claims, c2: Claims)
    requires
        token_of(key, c1) == token_of(key, c2),
    ensures
        c1 == c2,
{
    lemma_token_layout(key, c1);
    lemma_token_layout(key, c2);
    let p1 = payload_of(c1);
    let p2 = payload_of(c2);
    lemma_hex_of_all_hex(p1);
    lemma_hex_of_all_hex(p2);
    if p1.len() < p2.len() {
        let k = 6 + 2 * p1.len();
        assert(token_of(key, c1)[k as int] == 0x2e);
        assert(token_of(key, c2)[k as int] == hex_of(p2)[k - 6]);
        assert(is_hex_digit(hex_of(p2)[k - 6]));
        assert(false);
    }
    if p2.len() < p1.len() {
        let k = 6 + 2 * p2.len();
        assert(token_of(key, c2)[k as int] == 0x2e);
        assert(token_of(key, c1)[k as int] == hex_of(p1)[k - 6]);
        assert(is_hex_digit(hex_of(p1)[k - 6]));
        assert(false);
    }
    assert(token_of(key, c1).subrange(6, 6 + 2 * p1.len() as int) == token_of(key, c2).subrange(
        6,
        6 + 2 * p2.len() as int,
    ));
    lemma_hex_of_injective(p1, p2);
    lemma_payload_of_injective(c1, c2);
}

// --- the signing primitive ---------------------------------------------------

/// Relies on `hmac::Hmac::<sha2::Sha256>` (`new_from_slice`, `update`,
/// `finalize`): the tag is a function of key and message alone and is the
/// 32-byte SHA-256 output. `new_from_slice` accepts a key of any length for
/// HMAC, so it never fails here.
#[verifier::external_body]
fn mac_bytes(key: &[u8], msg: &[u8]) -> (r: Vec<u8>)
    ensures
        r@ == hmac_sha256(key@, msg@),
        r@.len() == 32,
{
    let mut m = <hmac::Hmac<sha2::Sha256> as Mac>::new_from_slice(key)
        .expect("HMAC takes keys of any length");
    m.update(msg);
    m.finalize().into_bytes().to_vec()
}

// --- the service ---------------------------------------------------------------

/// The token service, holding the process-wide signing secret as an explicit
/// dependency (resolved once at startup, immutable thereafter).
pub struct TokenService {
    pub secret: Vec<u8>,
}

fn role_encode(role: Role) -> (r: Vec<u8>)
    ensures
        r@ == role_bytes(role),
{
    let mut out: Vec<u8> = Vec::new();
    match role {
        Role::User => {
            out.push(0x75);
            out.push(0x73);
            out.push(0x65);
            out.push(0x72);
            proof {
                assert(out@ =~= role_bytes(role));
            }
        },
        Role::Admin => {
            out.push(0x61);
            out.push(0x64);
            out.push(0x6d);
            out.push(0x69);
            out.push(0x6e);
            proof {
                assert(out@ =~= role_bytes(role));
            }
        },
    }
    out
}

impl TokenService {
    pub fn new(secret: Vec<u8>) -> (s: Self)
        ensures
            s.secret == secret,
    {
        TokenService { secret }
    }

    /// Issue a signed token whose claims carry `sub` and `role` and expire
    /// 24 hours after the caller's clock reading `now`.
    pub fn issue(&self, sub: u64, role: Role, now: u64) -> (r: Vec<u8>)
        requires
            now + 86400 <= u64::MAX,
        ensures
            r@ == token_of(
                self.secret@,
                Claims { sub, role, exp: (now + 86400) as u64 },
            ),
    {
        let exp: u64 = now + 86400;
        let ghost c = Claims { sub, role, exp };

        let mut payload = dec_encode(sub);
        payload.push(0x3a);
        let mut role_part = role_encode(role);
        payload.append(&mut role_part);
        payload.push(0x3a);
        let mut exp_part = dec_encode(exp);
        payload.append(&mut exp_part);
        proof {
            assert(payload@ =~= payload_of(c));
        }

        let mac = mac_bytes(self.secret.as_slice(), payload.as_slice());

        let mut out: Vec<u8> = Vec::new();
        out.push(0x48);
        out.push(0x53);
        out.push(0x32);
        out.push(0x35);
        out.push(0x36);
        out.push(0x2e);
        let mut payload_hex = hex_encode(payload.as_slice());
        out.append(&mut payload_hex);
        out.push(0x2e);
        let mut sig_hex = hex_encode(mac.as_slice());
        out.append(&mut sig_hex);
        proof {
            assert(out@ =~= token_of(self.secret@, c));
        }
        out
    }

    /// Verify a token against the secret at clock reading `now`: layout,
    /// payload, signature, expiry. A token is returned as claims exactly when
    /// it is the well-signed, unexpired wire form of those claims; every
    /// failure is the one uniform `Unauthorized` outcome.
    pub fn verify(&self, token: &[u8], now: u64) -> (r: Result<Claims, ApiError>)
        ensures
            match r {
                Ok(c) => token_accepts(self.secret@, token@, now, c),
                Err(e) => e is Unauthorized && (forall|c: Claims|
                    !token_accepts(self.secret@, token@, now, c)),
            },
    {
        let ghost key = self.secret@;
        let n = token.len();
        if n < 6 {
            proof {
                assert forall|c: Claims| !token_accepts(key, token@, now, c) by {
                    lemma_token_layout(key, c);
                }
            }
            return Err(unauthorized());
        }
        if token[0] != 0x48 || token[1] != 0x53 || token[2] != 0x32 || token[3] != 0x35 || token[4]
            != 0x36 || token[5] != 0x2e {
            proof {
                assert forall|c: Claims| !token_accepts(key, token@, now, c) by {
                    lemma_token_layout(key, c);
                }
            }
            return Err(unauthorized());
        }
        let j = match find_byte(token, 6, 0x2e) {
            Some(j) => j,
            None => {
                proof {
                    assert forall|c: Claims| !token_accepts(key, token@, now, c) by {
                        if token_of(key, c) == token@ {
                            lemma_token_layout(key, c);
                            assert(token@[6 + 2 * payload_of(c).len() as int] == 0x2e);
                        }
                    }
                }
                return Err(unauthorized());
            },
        };
        let payload_hex = vstd::slice::slice_subrange(token, 6, j);
        let p = match hex_decode(payload_hex) {
            Some(p) => p,
            None => {
                proof {
                    assert forall|c: Claims| !token_accepts(key, token@, now, c) by {
                        if token_of(key, c) == token@ {
                            lemma_second_dot(key, c, token@, j as int);
                        }
                    }
                }
                return Err(unauthorized());
            },
        };
        let c = match parse_claims(p.as_slice()) {
            Some(c) => c,
            None => {
                proof {
                    assert forall|c2: Claims| !token_accepts(key, token@, now, c2) by {
                        if token_of(key, c2) == token@ {
                            lemma_second_dot(key, c2, token@, j as int);
                            lemma_hex_of_injective(payload_of(c2), p@);
                        }
                    }
                }
                return Err(unauthorized());
            },
        };
        let sig_hex = vstd::slice::slice_subrange(token, j + 1, n);
        let sig = match hex_decode(sig_hex) {
            Some(s) => s,
            None => {
                proof {
                    assert forall|c2: Claims| !token_accepts(key, token@, now, c2) by {
                        if token_of(key, c2) == token@ {
                            lemma_second_dot(key, c2, token@, j as int);
                        }
                    }
                }
                return Err(unauthorized());
            },
        };
        let mac = mac_bytes(self.secret.as_slice(), p.as_slice());
        if !bytes_eq(sig.as_slice(), mac.as_slice()) {
            proof {
                assert forall|c2: Claims| !token_accepts(key, token@, now, c2) by {
                    if token_of(key, c2) == token@ {
                        lemma_second_dot(key, c2, token@, j as int);
                        lemma_hex_of_injective(payload_of(c2), p@);
                        lemma_hex_of_injective(hmac_sha256(key, payload_of(c2)), sig@);
                    }
                }
            }
            return Err(unauthorized());
        }
        if c.exp <= now {
            proof {
                assert forall|c2: Claims| !token_accepts(key, token@, now, c2) by {
                    if token_of(key, c2) == token@ {
                        lemma_second_dot(key, c2, token@, j as int);
                        lemma_hex_of_injective(payload_of(c2), p@);
                        lemma_payload_of_injective(c2, c);
                    }
                }
            }
            return Err(unauthorized());
        }
        proof {
            assert(token@.subrange(0, 5) =~= header_bytes());
            assert(token@ =~= token@.subrange(0, 5) + seq![0x2eu8] + token@.subrange(6, j as int)
                + seq![0x2eu8] + token@.subrange(j as int + 1, n as int));
            assert(token@.subrange(6, j as int) == hex_of(payload_of(c)));
            assert(token@.subrange(j as int + 1, n as int) == hex_of(
                hmac_sha256(key, payload_of(c)),
            ));
            assert(token@ == token_of(key, c));
        }
        Ok(c)
    }
}

// --- laws ----------------------------------------------------------------------

/// Law: a token issued for claims `c` and verified against the same secret
/// before its expiry is accepted, and accepted as exactly `c`.
pub proof fn lemma_issue_verify_round_trip(key: Seq<u8>, c: Claims, now: u64)
    requires
        c.exp > now,
    ensures
        token_accepts(key, token_of(key, c), now, c),
        forall|c2: Claims| token_accepts(key, token_of(key, c), now, c2) ==> c2 == c,
{
    assert forall|c2: Claims| token_accepts(key, token_of(key, c), now, c2) implies c2 == c by {
        lemma_token_of_injective(key, c2, c);
    }
}

/// Law: changing one byte inside the signature segment of a token leaves a
/// byte string that is the token of no claims at all, so verification
/// rejects it at every instant.
pub proof fn lemma_signature_tamper(key: Seq<u8>, c: Claims, t2: Seq<u8>, i: int)
    requires
        t2.len() == token_of(key, c).len(),
        6 + 2 * payload_of(c).len() < i < t2.len(),
        t2[i] != token_of(key, c)[i],
        forall|k: int| 0 <= k < t2.len() && k != i ==> t2[k] == token_of(key, c)[k],
    ensures
        forall|c2: Claims| token_of(key, c2) != t2,
{
    let t = token_of(key, c);
    let p = payload_of(c);
    lemma_token_layout(key, c);
    lemma_hex_of_all_hex(p);
    assert forall|c2: Claims| token_of(key, c2) != t2 by {
        if token_of(key, c2) == t2 {
            let p2 = payload_of(c2);
            lemma_token_layout(key, c2);
            lemma_hex_of_all_hex(p2);
            if p2.len() < p.len() {
                let k = 6 + 2 * p2.len() as int;
                assert(t2[k] == 0x2e);
                assert(t2[k] == t[k]);
                assert(t[k] == t.subrange(6, 6 + 2 * p.len() as int)[k - 6]);
                assert(is_hex_digit(hex_of(p)[k - 6]));
                assert(false);
            }
            if p2.len() > p.len() {
                let k = 6 + 2 * p.len() as int;
                assert(t[k] == 0x2e);
                assert(t2[k] == t[k]);
                assert(t2[k] == t2.subrange(6, 6 + 2 * p2.len() as int)[k - 6]);
                assert(is_hex_digit(hex_of(p2)[k - 6]));
                assert(false);
            }
            assert(p2.len() == p.len());
            assert forall|m: int| 0 <= m < 2 * p.len() implies hex_of(p2)[m] == hex_of(p)[m] by {
                assert(t2.subrange(6, 6 + 2 * p2.len() as int)[m] == t2[6 + m]);
                assert(t.subrange(6, 6 + 2 * p.len() as int)[m] == t[6 + m]);
                assert(t2[6 + m] == t[6 + m]);
            }
            lemma_hex_of_len(p);
            lemma_hex_of_len(p2);
            assert(hex_of(p2) =~= hex_of(p));
            lemma_hex_of_injective(p2, p);
            lemma_payload_of_injective(c2, c);
            assert(token_of(key, c2) == t);
            assert(t2[i] == t[i]);
            assert(false);
        }
    }
}

/// The uniform rejection: one outcome for a missing, malformed, mis-signed
/// or expired token, deliberately indistinguishable to the caller.
pub fn unauthorized() -> (e: ApiError)
    ensures
        e is Unauthorized,
{
    ApiError::Unauthorized("invalid or missing token".to_owned())
}

/// If `t` is the token of `c` and its first dot after the header stands at
/// `j`, that `j` is the end of the payload segment, and the two hex segments
/// read back as payload and signature.
proof fn lemma_second_dot(key: Seq<u8>, c: Claims, t: Seq<u8>, j: int)
    requires
        token_of(key, c) == t,
        6 <= j < t.len(),
        t[j] == 0x2e,
        forall|k: int| 6 <= k < j ==> t[k] != 0x2e,
    ensures
        j == 6 + 2 * payload_of(c).len(),
        t.subrange(6, j) == hex_of(payload_of(c)),
        t.subrange(j + 1, t.len() as int) == hex_of(hmac_sha256(key, payload_of(c))),
{
    lemma_token_layout(key, c);
    lemma_hex_of_all_hex(payload_of(c));
    let d = 6 + 2 * payload_of(c).len();
    if j < d {
        assert(t[j] == t.subrange(6, d as int)[j - 6]);
        assert(is_hex_digit(hex_of(payload_of(c))[j - 6]));
        assert(false);
    }
    if j > d {
        assert(t[d as int] == 0x2e);
        assert(false);
    }
}

// --- parsing -----------------------------------------------------------------

/// The first occurrence of `target` in `s` at or after `from`, if any.
fn find_byte(s: &[u8], from: usize, target: u8) -> (r: Option<usize>)
    requires
        from <= s@.len(),
    ensures
        match r {
            Some(j) => from <= j < s@.len() && s@[j as int] == target && forall|k: int|
                from <= k < j ==> s@[k] != target,
            None => forall|k: int| from <= k < s@.len() ==> s@[k] != target,
        },
{
    let mut i: usize = from;
    while i < s.len()
        invariant
            from <= i <= s@.len(),
            forall|k: int| from <= k < i ==> s@[k] != target,
        decreases s@.len() - i,
    {
        if s[i] == target {
            return Some(i);
        }
        i += 1;
    }
    None
}

/// Byte-for-byte equality of two byte strings.
fn bytes_eq(a: &[u8], b: &[u8]) -> (r: bool)
    ensures
        r == (a@ == b@),
{
    if a.len() != b.len() {
        return false;
    }
    let mut i: usize = 0;
    while i < a.len()
        invariant
            i <= a@.len(),
            a@.len() == b@.len(),
            forall|k: int| 0 <= k < i ==> a@[k] == b@[k],
        decreases a@.len() - i,
    {
        if a[i] != b[i] {
            return false;
        }
        i += 1;
    }
    proof {
        assert(a@ =~= b@);
    }
    true
}

/// Parse a payload back into the claims it encodes. Returns `None` exactly
/// when the input is the payload of no claims value.
pub fn parse_claims(p: &[u8]) -> (r: Option<Claims>)
    ensures
        match r {
            Some(c) => payload_of(c) == p@,
            None => forall|c: Claims| payload_of(c) != p@,
        },
{
    let n = p.len();
    let i = match find_byte(p, 0, 0x3a) {
        Some(i) => i,
        None => {
            proof {
                assert forall|c: Claims| payload_of(c) != p@ by {
                    if payload_of(c) == p@ {
                        lemma_payload_layout(c);
                        assert(p@[dec_of(c.sub as nat).len() as int] == 0x3a);
                    }
                }
            }
            return None;
        },
    };
    let sub_part = vstd::slice::slice_subrange(p, 0, i);
    let sub = match dec_parse(sub_part) {
        Some(v) => v,
        None => {
            proof {
                assert forall|c: Claims| payload_of(c) != p@ by {
                    if payload_of(c) == p@ {
                        lemma_first_colon_is_sub(c, p@, i as int);
                        lemma_dec_of_canon(c.sub as nat);
                    }
                }
            }
            return None;
        },
    };
    let j = match find_byte(p, i + 1, 0x3a) {
        Some(j) => j,
        None => {
            proof {
                assert forall|c: Claims| payload_of(c) != p@ by {
                    if payload_of(c) == p@ {
                        lemma_first_colon_is_sub(c, p@, i as int);
                        lemma_payload_layout(c);
                    }
                }
            }
            return None;
        },
    };
    let role_part = vstd::slice::slice_subrange(p, i + 1, j);
    let user_word = role_encode(Role::User);
    let admin_word = role_encode(Role::Admin);
    let role = if bytes_eq(role_part, user_word.as_slice()) {
        Role::User
    } else if bytes_eq(role_part, admin_word.as_slice()) {
        Role::Admin
    } else {
        proof {
            assert forall|c: Claims| payload_of(c) != p@ by {
                if payload_of(c) == p@ {
                    lemma_second_colon_is_role(c, p@, i as int, j as int);
                    assert(role_part@ == role_bytes(c.role));
                    assert(role_bytes(Role::User) =~= seq![0x75u8, 0x73u8, 0x65u8, 0x72u8]);
                    assert(role_bytes(Role::Admin) =~= seq![
                        0x61u8,
                        0x64u8,
                        0x6du8,
                        0x69u8,
                        0x6eu8,
                    ]);
                }
            }
        }
        return None;
    };
    let exp_part = vstd::slice::slice_subrange(p, j + 1, n);
    let exp = match dec_parse(exp_part) {
        Some(v) => v,
        None => {
            proof {
                assert forall|c: Claims| payload_of(c) != p@ by {
                    if payload_of(c) == p@ {
                        lemma_second_colon_is_role(c, p@, i as int, j as int);
                        lemma_payload_layout(c);
                        lemma_dec_of_canon(c.exp as nat);
                    }
                }
            }
            return None;
        },
    };
    let c = Claims { sub, role, exp };
    proof {
        lemma_canon_is_dec_of(sub_part@);
        lemma_canon_is_dec_of(exp_part@);
        assert(sub_part@ == dec_of(sub as nat));
        assert(exp_part@ == dec_of(exp as nat));
        assert(role_part@ == role_bytes(role));
        assert(payload_of(c) =~= p@);
    }
    Some(c)
}

/// If `p` is the payload of `c` and its first colon stands at `i`, that `i`
/// is the end of the subject digits, which `p` carries verbatim.
proof fn lemma_first_colon_is_sub(c: Claims, p: Seq<u8>, i: int)
    requires
        payload_of(c) == p,
        0 <= i < p.len(),
        p[i] == 0x3a,
        forall|k: int| 0 <= k < i ==> p[k] != 0x3a,
    ensures
        i == dec_of(c.sub as nat).len(),
        p.subrange(0, i) == dec_of(c.sub as nat),
        dec_val(p.subrange(0, i)) == Some(c.sub),
{
    lemma_payload_layout(c);
    let ds = dec_of(c.sub as nat);
    if i < ds.len() {
        assert(p[i] != 0x3a);
    }
    if i > ds.len() {
        assert(p[ds.len() as int] == 0x3a);
    }
    assert(i == ds.len());
    lemma_dec_of_canon(c.sub as nat);
    assert(dec_int(ds) == c.sub as nat);
}

/// If `p` is the payload of `c`, its first colon at `i` and the next at `j`,
/// then between them stands the role word and after `j` the expiry digits.
proof fn lemma_second_colon_is_role(c: Claims, p: Seq<u8>, i: int, j: int)
    requires
        payload_of(c) == p,
        0 <= i < p.len(),
        p[i] == 0x3a,
        forall|k: int| 0 <= k < i ==> p[k] != 0x3a,
        i < j < p.len(),
        p[j] == 0x3a,
        forall|k: int| i + 1 <= k < j ==> p[k] != 0x3a,
    ensures
        j == i + 1 + role_bytes(c.role).len(),
        p.subrange(i + 1, j) == role_bytes(c.role),
        p.subrange(j + 1, p.len() as int) == dec_of(c.exp as nat),
        dec_val(p.subrange(j + 1, p.len() as int)) == Some(c.exp),
{
    lemma_first_colon_is_sub(c, p, i);
    lemma_payload_layout(c);
    let ds = dec_of(c.sub as nat);
    let rb = role_bytes(c.role);
    if j < i + 1 + rb.len() {
        assert(p[j] != 0x3a);
    }
    if j > i + 1 + rb.len() {
        assert(p[i + 1 + rb.len() as int] == 0x3a);
    }
    assert(j == i + 1 + rb.len());
    lemma_dec_of_canon(c.exp as nat);
    assert(dec_int(dec_of(c.exp as nat)) == c.exp as nat);
}

} // verus!
