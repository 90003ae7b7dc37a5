//! Password hashing, random identifiers and the text of session tokens and
//! API keys.

use vstd::prelude::*;
use crate::models::LoginRequest;
use crate::text::{trim, trimmed};

verus! {

/// What `bcrypt::verify` returns for a password and a stored hash: `None`
/// for a hash it cannot read, otherwise whether the password matches. The
/// Blowfish-based computation behind it takes pages to state.
pub uninterp spec fn bcrypt_verify_outcome(password: Seq<char>, hash: Seq<char>) -> Option<bool>;

/// `bcrypt::hash` at `bcrypt::DEFAULT_COST`. The salt is random, so the hash
/// text is not stated; `None` when the system gives no randomness. A hash
/// that it returns verifies against the same password: `bcrypt::verify`
/// re-hashes the password with the salt and cost read back from that text.
#[verifier::external_body]
pub(crate) fn bcrypt_hash(password: &str) -> (r: Option<String>)
    ensures
        r matches Some(h) ==> bcrypt_verify_outcome(password@, h@) == Some(true),
{
    bcrypt::hash(password, bcrypt::DEFAULT_COST).ok()
}

/// `bcrypt::verify`: its result is `bcrypt_verify_outcome` of the arguments,
/// with an error read as `None`.
#[verifier::external_body]
pub(crate) fn bcrypt_verify(password: &str, hash: &str) -> (r: Option<bool>)
    ensures
        r == bcrypt_verify_outcome(password@, hash@),
{
    bcrypt::verify(password, hash).ok()
}

/// `uuid::Uuid::new_v4`, taken as its 128-bit value (`as_u128`). The value
/// is random: nothing is stated of it.
#[verifier::external_body]
pub(crate) fn new_uuid_value() -> (r: u128) {
    uuid::Uuid::new_v4().as_u128()
}

/// The lower-case hexadecimal digit for `d < 16`.
pub open spec fn hex_char(d: nat) -> char {
    if d < 10 {
        crate::text::digit_char(d)
    } else if d == 10 { 'a' } else if d == 11 { 'b' } else if d == 12 { 'c' }
    else if d == 13 { 'd' } else if d == 14 { 'e' } else { 'f' }
}

/// The last `width` hexadecimal digits of `n`, most significant first.
pub open spec fn hex_digits(n: nat, width: nat) -> Seq<char>
    decreases width,
{
    if width == 0 {
        seq![]
    } else {
        hex_digits(n / 16, (width - 1) as nat) + seq![hex_char(n % 16)]
    }
}

pub proof fn lemma_hex_digits_len(n: nat, width: nat)
    ensures
        hex_digits(n, width).len() == width,
    decreases width,
{
    if width > 0 {
        lemma_hex_digits_len(n / 16, (width - 1) as nat);
    }
}

/// The simple form of a UUID: its 32 hexadecimal digits.
pub open spec fn uuid_simple_text(u: u128) -> Seq<char> {
    hex_digits(u as nat, 32)
}

/// The hyphenated form of a UUID: 8-4-4-4-12 hexadecimal digits.
pub open spec fn uuid_hyphenated_text(u: u128) -> Seq<char> {
    let h = hex_digits(u as nat, 32);
    h.subrange(0, 8) + seq!['-'] + h.subrange(8, 12) + seq!['-'] + h.subrange(12, 16) + seq!['-']
        + h.subrange(16, 20) + seq!['-'] + h.subrange(20, 32)
}

pub(crate) fn hex_str(d: u128) -> (r: &'static str)
    requires
        d < 16,
    ensures
        r@ == seq![hex_char(d as nat)],
{
    proof {
        reveal_strlit("0");
        reveal_strlit("1");
        reveal_strlit("2");
        reveal_strlit("3");
        reveal_strlit("4");
        reveal_strlit("5");
        reveal_strlit("6");
        reveal_strlit("7");
        reveal_strlit("8");
        reveal_strlit("9");
        reveal_strlit("a");
        reveal_strlit("b");
        reveal_strlit("c");
        reveal_strlit("d");
        reveal_strlit("e");
        reveal_strlit("f");
    }
    if d == 0 {
        "0"
    } else if d == 1 {
        "1"
    } else if d == 2 {
        "2"
    } else if d == 3 {
        "3"
    } else if d == 4 {
        "4"
    } else if d == 5 {
        "5"
    } else if d == 6 {
        "6"
    } else if d == 7 {
        "7"
    } else if d == 8 {
        "8"
    } else if d == 9 {
        "9"
    } else if d == 10 {
        "a"
    } else if d == 11 {
        "b"
    } else if d == 12 {
        "c"
    } else if d == 13 {
        "d"
    } else if d == 14 {
        "e"
    } else {
        "f"
    }
}

/// The last `width` hexadecimal digits of `n`.
fn hex_fixed(n: u128, width: usize) -> (r: String)
    ensures
        r@ == hex_digits(n as nat, width as nat),
    decreases width,
{
    if width == 0 {
        String::new()
    } else {
        let mut s = hex_fixed(n / 16, width - 1);
        s.append(hex_str(n % 16));
        s
    }
}

/// The simple text form of a UUID value.
pub fn uuid_simple(u: u128) -> (r: String)
    ensures
        r@ == uuid_simple_text(u),
{
    hex_fixed(u, 32)
}

/// The hyphenated text form of a UUID value.
pub fn uuid_hyphenated(u: u128) -> (r: String)
    ensures
        r@ == uuid_hyphenated_text(u),
{
    let h = hex_fixed(u, 32);
    proof {
        lemma_hex_digits_len(u as nat, 32);
        reveal_strlit("-");
    }
    let hs = h.as_str();
    let mut out = hs.substring_char(0, 8).to_owned();
    out.append("-");
    out.append(hs.substring_char(8, 12));
    out.append("-");
    out.append(hs.substring_char(12, 16));
    out.append("-");
    out.append(hs.substring_char(16, 20));
    out.append("-");
    out.append(hs.substring_char(20, 32));
    out
}

/// The text of a session token for a UUID value.
pub open spec fn session_token_text(u: u128) -> Seq<char> {
    "zephost-token-"@ + uuid_hyphenated_text(u)
}

/// The text of an API key for a UUID value.
pub open spec fn api_key_text(u: u128) -> Seq<char> {
    "zpk_"@ + uuid_simple_text(u)
}

/// A fresh session token: `zephost-token-` and a random hyphenated UUID.
pub fn new_session_token() -> (r: String)
    ensures
        exists|u: u128| r@ == session_token_text(u),
{
    let u = new_uuid_value();
    let mut t = "zephost-token-".to_owned();
    let id = uuid_hyphenated(u);
    t.append(id.as_str());
    assert(t@ == session_token_text(u));
    t
}

/// A fresh API key: `zpk_` and a random UUID in simple form.
pub fn new_api_key_text() -> (r: String)
    ensures
        exists|u: u128| r@ == api_key_text(u),
{
    let u = new_uuid_value();
    let mut t = "zpk_".to_owned();
    let id = uuid_simple(u);
    t.append(id.as_str());
    assert(t@ == api_key_text(u));
    t
}

/// The token an `Authorization` header carries: the text after `Bearer `,
/// trimmed; nothing when the header is missing or of another scheme.
pub open spec fn bearer_token_of(header: Option<Seq<char>>) -> Option<Seq<char>> {
    match header {
        Some(h) => if h.len() >= 7 && h.take(7) == "Bearer "@ {
            Some(crate::text::trimmed(h.skip(7)))
        } else {
            None
        },
        None => None,
    }
}

/// Reads the bearer token from the value of an `Authorization` header.
pub fn bearer_token(header: Option<&str>) -> (r: Option<String>)
    ensures
        crate::text::opt_view(r) == bearer_token_of(match header {
            Some(h) => Some(h@),
            None => None,
        }),
{
    let h = match header {
        Some(h) => h,
        None => {
            return None;
        },
    };
    let n = h.unicode_len();
    if n < 7 || !crate::text::str_eq(h.substring_char(0, 7), "Bearer ") {
        return None;
    }
    let rest = h.substring_char(7, n);
    assert(rest@ =~= h@.skip(7));
    Some(crate::text::trim(rest).to_owned())
}

/// Hashes a password for storage. The hash verifies against the same
/// password; `None` when hashing fails.
pub fn hash_password(password: &str) -> (r: Option<String>)
    ensures
        r matches Some(h) ==> bcrypt_verify_outcome(password@, h@) == Some(true),
{
    bcrypt_hash(password)
}

/// Whether a login request leaves the user name or the password blank.
pub open spec fn login_blank(username: Seq<char>, password: Seq<char>) -> bool {
    trimmed(username).len() == 0 || trimmed(password).len() == 0
}

/// The account a login request names: its trimmed user name, or the error
/// for a blank user name or password.
pub fn sign_in_name(request: &LoginRequest) -> (r: Result<String, String>)
    ensures
        login_blank(request.username@, request.password@) <==> r is Err,
        r matches Err(e) ==> e@ == "username and password are required"@,
        r matches Ok(u) ==> u@ == trimmed(request.username@),
{
    let username = trim(request.username.as_str());
    if username.is_empty() || trim(request.password.as_str()).is_empty() {
        return Err("username and password are required".to_owned());
    }
    Ok(username.to_owned())
}

/// How a sign-in that was let through went: the stored hash matched, or a
/// new account was opened with the hash to store for it.
pub enum SignIn {
    Accepted,
    SignedUp(String),
}

/// Decides a sign-in against the password hash stored for the account, if
/// there is one. A known user is let in when the password verifies against
/// the stored hash; an unknown one is signed up, with a fresh hash, only
/// when `public_signup` is on.
pub fn sign_in_with(request: &LoginRequest, stored: Option<String>, public_signup: bool) -> (r: Result<
    SignIn,
    String,
>)
    ensures
        ({
            let password = request.password@;
            let blank = login_blank(request.username@, password);
            &&& blank ==> (r matches Err(e) && e@ == "username and password are required"@)
            &&& !blank && stored is None && !public_signup ==> (r matches Err(e) && e@ == "invite required"@)
            &&& !blank && stored is Some ==> {
                &&& r is Ok <==> bcrypt_verify_outcome(password, stored->0@) == Some(true)
                &&& r is Ok ==> r == Ok::<SignIn, String>(SignIn::Accepted)
                &&& (r matches Err(e) ==> e@ == "invalid credentials"@)
            }
            &&& !blank && stored is None && public_signup ==> {
                &&& (r matches Ok(SignIn::SignedUp(h)) ==> bcrypt_verify_outcome(password, h@) == Some(true))
                &&& r is Ok ==> (r matches Ok(SignIn::SignedUp(_)))
                &&& (r matches Err(e) ==> e@ == "could not hash password"@)
            }
        }),
{
    if let Err(e) = sign_in_name(request) {
        return Err(e);
    }
    match stored {
        Some(h) => match bcrypt_verify(request.password.as_str(), h.as_str()) {
            Some(true) => Ok(SignIn::Accepted),
            _ => Err("invalid credentials".to_owned()),
        },
        None => {
            if !public_signup {
                return Err("invite required".to_owned());
            }
            match hash_password(request.password.as_str()) {
                Some(h) => Ok(SignIn::SignedUp(h)),
                None => Err("could not hash password".to_owned()),
            }
        },
    }
}

} // verus!
