//! Session and account-request types of the authentication boundary.
//!
//! Token exchange and cookie handling live outside this crate; what is
//! verified here is the pure conversion from decoded token claims to an
//! account request.

use vstd::prelude::*;

verus! {

/// An authenticated session: the identity token and when it expires.
pub struct AuthSession {
    pub id_token: String,
    pub expires_at: i64,
}

impl AuthSession {
    pub fn new(id_token: String, expires_at: i64) -> (r: AuthSession)
        ensures
            r.id_token@ == id_token@,
            r.expires_at == expires_at,
    {
        AuthSession { id_token, expires_at }
    }

    pub fn get_expires_at(&self) -> (r: i64)
        ensures
            r == self.expires_at,
    {
        self.expires_at
    }
}

/// The claims of a decoded identity token.
pub struct IdInfo {
    pub iss: String,
    pub sub: String,
    pub azp: String,
    pub aud: String,
    pub iat: String,
    pub exp: String,
    pub hd: Option<String>,
    pub email: Option<String>,
    pub email_verified: Option<String>,
    pub name: Option<String>,
    pub picture: Option<String>,
    pub given_name: Option<String>,
    pub family_name: Option<String>,
    pub locale: Option<String>,
}

/// Index of the first `@` in a character sequence, or its length when none
/// occurs.
pub open spec fn first_at_idx(s: Seq<char>) -> int
    decreases s.len(),
{
    if s.len() == 0 {
        0
    } else if s[0] == '@' {
        0
    } else {
        1 + first_at_idx(s.skip(1))
    }
}

/// A prefix free of `@` that ends at `@` or at the end of the sequence is
/// exactly the prefix the first `@` bounds.
pub proof fn lemma_first_at_idx(s: Seq<char>, i: int)
    requires
        0 <= i <= s.len(),
        forall|j: int| 0 <= j < i ==> s[j] != '@',
        i < s.len() ==> s[i] == '@',
    ensures
        first_at_idx(s) == i,
    decreases s.len(),
{
    if s.len() == 0 {
    } else if i == 0 {
    } else {
        assert(s[0] != '@');
        lemma_first_at_idx(s.skip(1), i - 1);
    }
}

/// Why decoded claims cannot form an account request.
#[derive(Debug)]
pub enum AccountConvertError {
    /// The token carries no email address.
    EmailMissing,
    /// The token's email address is not marked verified.
    EmailNotVerified,
    /// No username could be read out of the email address.
    EmailParsingFailed,
}

/// A request to create or look up an account, derived from token claims.
pub struct AccountReq {
    pub googleid: String,
    pub username: String,
    pub email: String,
}

impl AccountReq {
    /// Converts decoded token claims: fails when the email is missing or
    /// unverified; otherwise the username is the part of the email before
    /// its first `@`.
    pub fn try_from(id_info: IdInfo) -> (r: Result<AccountReq, AccountConvertError>)
        ensures
            (match r {
                Ok(a) => {
                    &&& id_info.email is Some
                    &&& id_info.email_verified is Some
                    &&& id_info.email_verified.unwrap()@ == "true"@
                    &&& a.googleid@ == id_info.sub@
                    &&& a.email@ == id_info.email.unwrap()@
                    &&& a.username@ == id_info.email.unwrap()@.take(
                        first_at_idx(id_info.email.unwrap()@),
                    )
                },
                Err(AccountConvertError::EmailMissing) => id_info.email is None,
                Err(AccountConvertError::EmailNotVerified) => id_info.email is Some && (
                id_info.email_verified is None || id_info.email_verified.unwrap()@ != "true"@),
                Err(AccountConvertError::EmailParsingFailed) => false,
            }),
    {
        let email = match id_info.email {
            Some(e) => e,
            None => {
                return Err(AccountConvertError::EmailMissing);
            },
        };
        let email_verified = match id_info.email_verified {
            Some(v) => v,
            None => {
                return Err(AccountConvertError::EmailNotVerified);
            },
        };
        if !(email_verified == "true".to_owned()) {
            return Err(AccountConvertError::EmailNotVerified);
        }
        let username = prefix_before_at(&email);
        Ok(AccountReq { googleid: id_info.sub, username, email })
    }
}

/// The part of a string before its first `@`, or the whole string.
fn prefix_before_at(s: &String) -> (r: String)
    ensures
        r@ == s@.take(first_at_idx(s@)),
{
    let st = s.as_str();
    let n = st.unicode_len();
    let mut i: usize = 0;
    while i < n
        invariant
            i <= n,
            n == s@.len(),
            st@ == s@,
            forall|j: int| 0 <= j < i ==> s@[j] != '@',
        decreases n - i,
    {
        if st.get_char(i) == '@' {
            proof {
                lemma_first_at_idx(s@, i as int);
            }
            let pre = st.substring_char(0, i);
            return pre.to_owned();
        }
        i = i + 1;
    }
    proof {
        lemma_first_at_idx(s@, n as int);
    }
    let pre = st.substring_char(0, n);
    pre.to_owned()
}

} // verus!
