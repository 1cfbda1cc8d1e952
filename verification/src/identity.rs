//! Identity extraction: turn the certificate-verification headers a
//! TLS-terminating reverse proxy injects into an authenticated user, or a
//! precise rejection. The subject DN is scanned for a `UID` attribute: the
//! key matched without regard to case, one optional space on either side
//! of the equals sign, then the token - a maximal run of one or more ASCII
//! alphanumeric characters. The token is resolved against the credential
//! store. This is a pragmatic attribute scan, not a general RFC 4514
//! parser; earlier deployments matched only three-letter lowercase
//! tokens, a narrowing this scan deliberately lifts.

use vstd::prelude::*;
use vstd::string::StringExecFns;

use crate::store::{user_for_name, MigrationsDone, Service, User};
use crate::text::str_eq;

verus! {

/// The fixed diagnostic body sent when the reverse proxy forwards neither
/// identity header: the deployment is broken, not the client.
pub const ERROR_MESSAGE_TLS_PROXY_MISCONFIGURED: &'static str =
    "TLS-terminating reverse proxy is misconfigured: required headers not found.\n\nHint: if you use nginx, use:\n    proxy_set_header X-SSL-Verify $ssl_client_verify;\n    proxy_set_header X-SSL-Client-Dn $ssl_client_s_dn;\nto provide the necessary headers.\n";

/// The token alphabet of UID attributes: ASCII alphanumeric characters.
pub open spec fn is_uid_token_char(c: char) -> bool {
    ||| 'a' as int <= c as int <= 'z' as int
    ||| 'A' as int <= c as int <= 'Z' as int
    ||| '0' as int <= c as int <= '9' as int
}

/// The three characters of the `UID` attribute key start at `i`, matched
/// without regard to case.
pub open spec fn is_uid_key(s: Seq<char>, i: int) -> bool {
    &&& 0 <= i && i + 3 <= s.len()
    &&& (s[i] == 'U' || s[i] == 'u')
    &&& (s[i + 1] == 'I' || s[i + 1] == 'i')
    &&& (s[i + 2] == 'D' || s[i + 2] == 'd')
}

/// A token (at least one character from the token alphabet) starts at `t`.
pub open spec fn is_uid_token(s: Seq<char>, t: int) -> bool {
    0 <= t < s.len() && is_uid_token_char(s[t])
}

/// Where the token that starts at `t` ends: the first position at or after
/// `t` that carries no token character.
pub open spec fn uid_token_end(s: Seq<char>, t: int) -> int
    decreases s.len() - t,
{
    if t < 0 || t >= s.len() || !is_uid_token_char(s[t]) {
        t
    } else {
        uid_token_end(s, t + 1)
    }
}

/// Where the equals sign of a UID attribute written at `i` stands: right
/// after the key, or after one space.
pub open spec fn uid_eq_pos(s: Seq<char>, i: int) -> int {
    if i + 3 < s.len() && s[i + 3] == ' ' {
        i + 4
    } else {
        i + 3
    }
}

/// Where the token of a UID attribute written at `i` starts: right after
/// the equals sign, or after one space.
pub open spec fn uid_token_pos(s: Seq<char>, i: int) -> int {
    let e = uid_eq_pos(s, i);
    if e + 1 < s.len() && s[e + 1] == ' ' {
        e + 2
    } else {
        e + 1
    }
}

/// A UID attribute is written at `i`: the key, an optional space, an
/// equals sign, an optional space, and a nonempty token.
pub open spec fn uid_match_at(s: Seq<char>, i: int) -> bool {
    &&& is_uid_key(s, i)
    &&& uid_eq_pos(s, i) < s.len() && s[uid_eq_pos(s, i)] == '='
    &&& is_uid_token(s, uid_token_pos(s, i))
}

/// The token of the UID attribute written at `i`: the maximal run of token
/// characters after the equals sign.
pub open spec fn uid_token_at(s: Seq<char>, i: int) -> Seq<char> {
    s.subrange(uid_token_pos(s, i), uid_token_end(s, uid_token_pos(s, i)))
}

/// The subject DN of a validated client certificate, as the reverse proxy
/// forwarded it.
#[derive(Debug)]
pub struct CertDn(String);

impl View for CertDn {
    type V = Seq<char>;

    closed spec fn view(&self) -> Seq<char> {
        self.0@
    }
}

/// Checks for a UID attribute written at `i` and hands back the position
/// of its token.
fn uid_match_pos(s: &str, slen: usize, i: usize) -> (r: Option<usize>)
    requires
        slen == s@.len(),
        i < slen,
    ensures
        r is Some <==> uid_match_at(s@, i as int),
        r matches Some(t) ==> t as int == uid_token_pos(s@, i as int) && t < slen,
{
    if slen - i < 3 {
        return None;
    }
    let c0 = s.get_char(i);
    if !(c0 == 'U' || c0 == 'u') {
        return None;
    }
    let c1 = s.get_char(i + 1);
    if !(c1 == 'I' || c1 == 'i') {
        return None;
    }
    let c2 = s.get_char(i + 2);
    if !(c2 == 'D' || c2 == 'd') {
        return None;
    }
    let e: usize = if slen - i > 3 && s.get_char(i + 3) == ' ' {
        i + 4
    } else {
        i + 3
    };
    assert(e as int == uid_eq_pos(s@, i as int));
    if e >= slen {
        return None;
    }
    if s.get_char(e) != '=' {
        return None;
    }
    let t: usize = if slen - e > 1 && s.get_char(e + 1) == ' ' {
        e + 2
    } else {
        e + 1
    };
    assert(t as int == uid_token_pos(s@, i as int));
    if t >= slen {
        assert(!is_uid_token(s@, t as int));
        return None;
    }
    if check_token_char(s.get_char(t)) {
        Some(t)
    } else {
        None
    }
}

/// Whether the character belongs to the UID token alphabet.
fn check_token_char(c: char) -> (r: bool)
    ensures
        r == is_uid_token_char(c),
{
    ((c as u32) >= 97 && (c as u32) <= 122) || ((c as u32) >= 65 && (c as u32) <= 90) || ((
    c as u32) >= 48 && (c as u32) <= 57)
}

/// Scan to the end of the token that starts at `t`.
fn scan_token_end(s: &str, slen: usize, t: usize) -> (r: usize)
    requires
        slen == s@.len(),
        t <= slen,
    ensures
        r as int == uid_token_end(s@, t as int),
        t <= r <= slen,
{
    let mut e: usize = t;
    while e < slen
        invariant
            t <= e <= slen,
            slen == s@.len(),
            uid_token_end(s@, t as int) == uid_token_end(s@, e as int),
        decreases slen - e,
    {
        if !check_token_char(s.get_char(e)) {
            return e;
        }
        e = e + 1;
    }
    e
}

impl CertDn {
    /// Wrap a forwarded subject DN string.
    pub fn new(dn: String) -> (r: Self)
        ensures
            r@ == dn@,
    {
        CertDn(dn)
    }

    /// Parse the UID out of a client certificate DN: the token of the
    /// leftmost UID attribute - the maximal alphanumeric run after its
    /// equals sign - or nothing when no attribute matches.
    pub fn uid(&self) -> (r: Option<String>)
        ensures
            r is None <==> (forall|i: int| !uid_match_at(self@, i)),
            r matches Some(u) ==> exists|i: int|
                (#[trigger] uid_match_at(self@, i)) && (forall|j: int|
                    0 <= j < i ==> !uid_match_at(self@, j)) && u@ == uid_token_at(self@, i),
    {
        let s = self.0.as_str();
        let slen = s.unicode_len();
        let mut i: usize = 0;
        while i < slen
            invariant
                slen == s@.len(),
                i <= slen,
                s@ == self@,
                forall|j: int| 0 <= j < i ==> !uid_match_at(s@, j),
            decreases slen - i,
        {
            match uid_match_pos(s, slen, i) {
                Some(t) => {
                    let e = scan_token_end(s, slen, t);
                    let tok = s.substring_char(t, e).to_owned();
                    proof {
                        assert(uid_match_at(self@, i as int));
                        assert(tok@ == uid_token_at(self@, i as int));
                    }
                    return Some(tok);
                },
                None => {},
            }
            i = i + 1;
        }
        proof {
            assert forall|j: int| !uid_match_at(self@, j) by {
                if 0 <= j < slen {
                } else {
                    assert(!is_uid_key(self@, j));
                }
            }
        }
        None
    }
}

/// Why no certificate identity could be read from the headers.
#[derive(Debug)]
pub enum CertDnExtractionError {
    /// The proxy reported that no client certificate was presented.
    NoTlsCert,
    /// Certificate validation failed; the proxy's reason is carried along.
    CertValidationFailed(String),
    /// The proxy forwarded no verification headers at all: a deployment
    /// defect, distinct from a client without a certificate.
    ReverseProxyMisconfigured,
}

impl CertDnExtractionError {
    /// The plain-text response body each rejection carries: the fixed
    /// operator-facing diagnostic for a misconfigured proxy, the
    /// validator's reason for a failed validation, and a short sentence
    /// for a missing certificate.
    pub fn response_body(&self) -> (r: String)
        ensures
            r@ == (match self {
                CertDnExtractionError::NoTlsCert => "No TLS client certificate was provided"@,
                CertDnExtractionError::CertValidationFailed(m) => "Certificate validation "@ + m@,
                CertDnExtractionError::ReverseProxyMisconfigured
                    => ERROR_MESSAGE_TLS_PROXY_MISCONFIGURED@,
            }),
    {
        match self {
            CertDnExtractionError::NoTlsCert => "No TLS client certificate was provided".to_owned(),
            CertDnExtractionError::CertValidationFailed(m) => "Certificate validation ".to_owned()
                .concat(m.as_str()),
            CertDnExtractionError::ReverseProxyMisconfigured
                => ERROR_MESSAGE_TLS_PROXY_MISCONFIGURED.to_owned(),
        }
    }

    /// The transport status each rejection maps to. The mapping is part of
    /// the contract: no certificate is unauthorized, a failed validation
    /// is forbidden, a misconfigured proxy is an internal error.
    pub fn status_code(&self) -> (r: u16)
        ensures
            r == (match self {
                CertDnExtractionError::NoTlsCert => 401u16,
                CertDnExtractionError::CertValidationFailed(_) => 403u16,
                CertDnExtractionError::ReverseProxyMisconfigured => 500u16,
            }),
    {
        match self {
            CertDnExtractionError::NoTlsCert => 401,
            CertDnExtractionError::CertValidationFailed(_) => 403,
            CertDnExtractionError::ReverseProxyMisconfigured => 500,
        }
    }
}

/// Read the proxy's verification headers into a certificate DN, or a
/// precise rejection. `verify` and `dn` carry the values of the
/// verification-status and subject-DN headers, absent when the proxy did
/// not send them.
pub fn extract_cert_dn(verify: Option<&str>, dn: Option<&str>) -> (r: Result<
    CertDn,
    CertDnExtractionError,
>)
    ensures
        verify is None ==> r == Err::<CertDn, CertDnExtractionError>(
            CertDnExtractionError::ReverseProxyMisconfigured,
        ),
        verify is Some && verify->0@ == "NONE"@ ==> r == Err::<CertDn, CertDnExtractionError>(
            CertDnExtractionError::NoTlsCert,
        ),
        verify is Some && verify->0@ != "SUCCESS"@ && verify->0@ != "NONE"@ ==> (r matches Err(e) && e
            matches CertDnExtractionError::CertValidationFailed(m) && m@ == verify->0@),
        verify is Some && verify->0@ == "SUCCESS"@ && dn is None ==> r == Err::<
            CertDn,
            CertDnExtractionError,
        >(CertDnExtractionError::ReverseProxyMisconfigured),
        verify is Some && verify->0@ == "SUCCESS"@ && dn is Some ==> (r matches Ok(c) && c@
            == dn->0@),
{
    proof {
        reveal_strlit("SUCCESS");
        reveal_strlit("NONE");
        assert("SUCCESS"@.len() == 7);
        assert("NONE"@.len() == 4);
        assert("SUCCESS"@ != "NONE"@);
    }
    let v = match verify {
        None => {
            return Err(CertDnExtractionError::ReverseProxyMisconfigured);
        },
        Some(v) => v,
    };
    if str_eq(v, "SUCCESS") {
        match dn {
            Some(d) => Ok(CertDn(d.to_owned())),
            None => Err(CertDnExtractionError::ReverseProxyMisconfigured),
        }
    } else if str_eq(v, "NONE") {
        Err(CertDnExtractionError::NoTlsCert)
    } else {
        Err(CertDnExtractionError::CertValidationFailed(v.to_owned()))
    }
}

/// Why no user record could be derived from the request.
#[derive(Debug)]
pub enum UserExtractionError {
    /// The certificate identified a UID unknown to the store.
    UserNotFound,
    /// The certificate's subject DN carries no UID attribute.
    NoUidFieldInCert,
    /// No certificate identity could be read at all.
    Certificate(CertDnExtractionError),
}

impl UserExtractionError {
    /// The plain-text response body each rejection carries. A
    /// certificate-layer rejection keeps its own body, so the fixed
    /// misconfiguration diagnostic reaches the operator on this path too.
    pub fn response_body(&self) -> (r: String)
        ensures
            r@ == (match self {
                UserExtractionError::UserNotFound => "User not found in database"@,
                UserExtractionError::NoUidFieldInCert
                    => "No UID field in TLS client certificate's Subject DN"@,
                UserExtractionError::Certificate(e) => match e {
                    CertDnExtractionError::NoTlsCert
                        => "No TLS client certificate was provided"@,
                    CertDnExtractionError::CertValidationFailed(m)
                        => "Certificate validation "@ + m@,
                    CertDnExtractionError::ReverseProxyMisconfigured
                        => ERROR_MESSAGE_TLS_PROXY_MISCONFIGURED@,
                },
            }),
    {
        match self {
            UserExtractionError::UserNotFound => "User not found in database".to_owned(),
            UserExtractionError::NoUidFieldInCert =>
                "No UID field in TLS client certificate's Subject DN".to_owned(),
            UserExtractionError::Certificate(e) => e.response_body(),
        }
    }

    /// The transport status each rejection maps to: an unknown user is
    /// unauthorized, a DN without a UID is a client error, and a
    /// certificate-layer rejection keeps its own status.
    pub fn status_code(&self) -> (r: u16)
        ensures
            r == (match self {
                UserExtractionError::UserNotFound => 401u16,
                UserExtractionError::NoUidFieldInCert => 400u16,
                UserExtractionError::Certificate(e) => match e {
                    CertDnExtractionError::NoTlsCert => 401u16,
                    CertDnExtractionError::CertValidationFailed(_) => 403u16,
                    CertDnExtractionError::ReverseProxyMisconfigured => 500u16,
                },
            }),
    {
        match self {
            UserExtractionError::UserNotFound => 401,
            UserExtractionError::NoUidFieldInCert => 400,
            UserExtractionError::Certificate(e) => e.status_code(),
        }
    }
}

/// Derive the authenticated user from the proxy's headers: validate the
/// verification status, extract the UID from the subject DN, and resolve
/// it against the store by username.
pub fn extract_user(
    verify: Option<&str>,
    dn: Option<&str>,
    store: &Service<MigrationsDone>,
) -> (r: Result<User, UserExtractionError>)
    ensures
        verify is None ==> r == Err::<User, UserExtractionError>(
            UserExtractionError::Certificate(CertDnExtractionError::ReverseProxyMisconfigured),
        ),
        verify is Some && verify->0@ == "NONE"@ ==> r == Err::<User, UserExtractionError>(
            UserExtractionError::Certificate(CertDnExtractionError::NoTlsCert),
        ),
        verify is Some && verify->0@ != "SUCCESS"@ && verify->0@ != "NONE"@ ==> (r matches Err(e) && e
            matches UserExtractionError::Certificate(ce) && ce matches
            CertDnExtractionError::CertValidationFailed(m) && m@ == verify->0@),
        verify is Some && verify->0@ == "SUCCESS"@ && dn is None ==> r == Err::<
            User,
            UserExtractionError,
        >(UserExtractionError::Certificate(CertDnExtractionError::ReverseProxyMisconfigured)),
        verify is Some && verify->0@ == "SUCCESS"@ && dn is Some && (forall|i: int|
            !uid_match_at(dn->0@, i)) ==> r == Err::<User, UserExtractionError>(
            UserExtractionError::NoUidFieldInCert,
        ),
        verify is Some && verify->0@ == "SUCCESS"@ && dn is Some ==> forall|i: int|
            #[trigger] uid_match_at(dn->0@, i) && (forall|j: int|
                0 <= j < i ==> !uid_match_at(dn->0@, j)) ==> (match user_for_name(
                store.users(),
                uid_token_at(dn->0@, i),
            ) {
                None => r == Err::<User, UserExtractionError>(UserExtractionError::UserNotFound),
                Some(u) => r == Ok::<User, UserExtractionError>(u),
            }),
{
    let cert_dn = match extract_cert_dn(verify, dn) {
        Ok(c) => c,
        Err(e) => {
            return Err(UserExtractionError::Certificate(e));
        },
    };
    let uid = match cert_dn.uid() {
        Some(uid) => uid,
        None => {
            return Err(UserExtractionError::NoUidFieldInCert);
        },
    };
    match store.find_user_by_name(uid.as_str()) {
        Some(user) => Ok(user),
        None => Err(UserExtractionError::UserNotFound),
    }
}

/// Proof of administrative capability: the UID extracted from the client
/// certificate, found in the configured allow-list.
#[derive(Debug)]
pub struct Admin(String);

impl View for Admin {
    type V = Seq<char>;

    closed spec fn view(&self) -> Seq<char> {
        self.0@
    }
}

impl Admin {
    /// The UID this capability was granted for.
    pub fn uid(&self) -> (r: &str)
        ensures
            r@ == self@,
    {
        self.0.as_str()
    }
}

/// The allow-list contains the UID.
pub open spec fn is_admin_uid(admins: Seq<String>, uid: Seq<char>) -> bool {
    exists|k: int| 0 <= k < admins.len() && (#[trigger] admins[k])@ == uid
}

/// Why administrative capability was refused.
#[derive(Debug)]
pub enum AdminRejection {
    /// The certificate's UID is not in the allow-list.
    NotAnAdmin,
    /// The certificate's subject DN carries no UID attribute.
    NoUidInCert,
    /// No certificate identity could be read at all.
    Certificate(CertDnExtractionError),
}

impl AdminRejection {
    /// The plain-text response body each rejection carries. A
    /// certificate-layer rejection keeps its own body, so the fixed
    /// misconfiguration diagnostic reaches the operator on this path too.
    pub fn response_body(&self) -> (r: String)
        ensures
            r@ == (match self {
                AdminRejection::NotAnAdmin => "Not an administrator"@,
                AdminRejection::NoUidInCert => "No UID in certificate"@,
                AdminRejection::Certificate(e) => match e {
                    CertDnExtractionError::NoTlsCert
                        => "No TLS client certificate was provided"@,
                    CertDnExtractionError::CertValidationFailed(m)
                        => "Certificate validation "@ + m@,
                    CertDnExtractionError::ReverseProxyMisconfigured
                        => ERROR_MESSAGE_TLS_PROXY_MISCONFIGURED@,
                },
            }),
    {
        match self {
            AdminRejection::NotAnAdmin => "Not an administrator".to_owned(),
            AdminRejection::NoUidInCert => "No UID in certificate".to_owned(),
            AdminRejection::Certificate(e) => e.response_body(),
        }
    }

    /// The transport status each rejection maps to: a known identity
    /// outside the allow-list is forbidden, a certificate without a UID is
    /// unauthorized, and a certificate-layer rejection keeps its own
    /// status.
    pub fn status_code(&self) -> (r: u16)
        ensures
            r == (match self {
                AdminRejection::NotAnAdmin => 403u16,
                AdminRejection::NoUidInCert => 401u16,
                AdminRejection::Certificate(e) => match e {
                    CertDnExtractionError::NoTlsCert => 401u16,
                    CertDnExtractionError::CertValidationFailed(_) => 403u16,
                    CertDnExtractionError::ReverseProxyMisconfigured => 500u16,
                },
            }),
    {
        match self {
            AdminRejection::NotAnAdmin => 403,
            AdminRejection::NoUidInCert => 401,
            AdminRejection::Certificate(e) => e.status_code(),
        }
    }
}

/// Decide administrative capability from the proxy's headers and the
/// configured allow-list of administrator UIDs.
pub fn authorize_admin(verify: Option<&str>, dn: Option<&str>, admins: &Vec<String>) -> (r: Result<
    Admin,
    AdminRejection,
>)
    ensures
        verify is None ==> r == Err::<Admin, AdminRejection>(
            AdminRejection::Certificate(CertDnExtractionError::ReverseProxyMisconfigured),
        ),
        verify is Some && verify->0@ == "NONE"@ ==> r == Err::<Admin, AdminRejection>(
            AdminRejection::Certificate(CertDnExtractionError::NoTlsCert),
        ),
        verify is Some && verify->0@ != "SUCCESS"@ && verify->0@ != "NONE"@ ==> (r matches Err(e) && e
            matches AdminRejection::Certificate(ce) && ce matches
            CertDnExtractionError::CertValidationFailed(m) && m@ == verify->0@),
        verify is Some && verify->0@ == "SUCCESS"@ && dn is None ==> r == Err::<
            Admin,
            AdminRejection,
        >(AdminRejection::Certificate(CertDnExtractionError::ReverseProxyMisconfigured)),
        verify is Some && verify->0@ == "SUCCESS"@ && dn is Some && (forall|i: int|
            !uid_match_at(dn->0@, i)) ==> r == Err::<Admin, AdminRejection>(
            AdminRejection::NoUidInCert,
        ),
        verify is Some && verify->0@ == "SUCCESS"@ && dn is Some ==> forall|i: int|
            #[trigger] uid_match_at(dn->0@, i) && (forall|j: int|
                0 <= j < i ==> !uid_match_at(dn->0@, j)) ==> (if is_admin_uid(
                admins@,
                uid_token_at(dn->0@, i),
            ) {
                r matches Ok(a) && a@ == uid_token_at(dn->0@, i)
            } else {
                r == Err::<Admin, AdminRejection>(AdminRejection::NotAnAdmin)
            }),
{
    let cert_dn = match extract_cert_dn(verify, dn) {
        Ok(c) => c,
        Err(e) => {
            return Err(AdminRejection::Certificate(e));
        },
    };
    let uid = match cert_dn.uid() {
        Some(uid) => uid,
        None => {
            return Err(AdminRejection::NoUidInCert);
        },
    };
    if allow_list_holds(admins, uid.as_str()) {
        Ok(Admin(uid))
    } else {
        Err(AdminRejection::NotAnAdmin)
    }
}

/// Scan the allow-list for the UID.
fn allow_list_holds(admins: &Vec<String>, uid: &str) -> (r: bool)
    ensures
        r == is_admin_uid(admins@, uid@),
{
    let n = admins.len();
    let mut k: usize = 0;
    while k < n
        invariant
            n == admins@.len(),
            k <= n,
            forall|h: int| 0 <= h < k ==> (#[trigger] admins@[h])@ != uid@,
        decreases n - k,
    {
        if str_eq(admins[k].as_str(), uid) {
            assert(is_admin_uid(admins@, uid@));
            return true;
        }
        k = k + 1;
    }
    false
}

} // verus!
