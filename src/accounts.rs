//! Account rules: what a valid email, username and password look like, the
//! order in which a registration is checked, and one-time codes.
use argon2::password_hash::rand_core::OsRng;
use argon2::password_hash::{PasswordHash, PasswordHasher, PasswordVerifier, SaltString};
use argon2::Argon2;
use rand::Rng;
use vstd::prelude::*;
use vstd::utf8::encode_utf8;

verus! {

/// How long an emailed verification or reset code stays valid, in seconds.
pub const CODE_VALIDITY_SECONDS: i64 = 86_400;

/// How long a login session lasts, in seconds (1000 days).
pub const SESSION_VALIDITY_SECONDS: i64 = 86_400_000;

/// Errors that the account rules report to a user.
#[derive(Debug, Clone, Copy, PartialEq, Eq, Structural)]
pub enum ErrorList {
    InvalidEmail,
    InvalidPassword,
    InvalidUsername,
    NonMatchingPasswords,
    EmailAlreadyRegistered,
    UsernameAlreadyRegistered,
    IncorrectPassword,
    IncorrectUsername,
    InvalidVerificationCode,
    Unauthorised,
}

/// What a one-time code is for.
#[derive(Debug, Clone, Copy, PartialEq, Eq, Structural)]
pub enum CodeType {
    EmailVerification,
    PasswordReset,
}

/// The name under which a code type is stored.
pub open spec fn code_type_label(c: CodeType) -> Seq<char> {
    match c {
        CodeType::EmailVerification => "EmailVerification"@,
        CodeType::PasswordReset => "PasswordReset"@,
    }
}

impl CodeType {
    /// The name under which this code type is stored.
    pub fn label(&self) -> (r: String)
        ensures
            r@ == code_type_label(*self),
    {
        match self {
            CodeType::EmailVerification => "EmailVerification".to_owned(),
            CodeType::PasswordReset => "PasswordReset".to_owned(),
        }
    }
}

impl From<CodeType> for String {
    fn from(val: CodeType) -> String {
        val.label()
    }
}

impl vstd::std_specs::convert::FromSpecImpl<CodeType> for String {
    open spec fn obeys_from_spec() -> bool {
        false
    }

    open spec fn from_spec(v: CodeType) -> String {
        arbitrary()
    }
}

/// The length of a text in bytes, as UTF-8 (what `str::len` returns).
pub open spec fn byte_len(s: Seq<char>) -> usize {
    encode_utf8(s).len() as usize
}

pub open spec fn valid_email(s: Seq<char>) -> bool {
    s.contains('@') && byte_len(s) > 3
}

pub open spec fn valid_password(s: Seq<char>) -> bool {
    8 <= byte_len(s) < 100
}

pub open spec fn valid_username(s: Seq<char>) -> bool {
    3 <= byte_len(s) < 100
}

/// Whether `s` holds the character `c`.
fn has_char(s: &str, c: char) -> (r: bool)
    ensures
        r == s@.contains(c),
{
    let n = s.unicode_len();
    let mut i: usize = 0;
    while i < n
        invariant
            n == s@.len(),
            i <= n,
            forall|k: int| 0 <= k < i ==> s@[k] != c,
        decreases n - i,
    {
        if s.get_char(i) == c {
            return true;
        }
        i = i + 1;
    }
    false
}

/// An email address must hold an `@` and be longer than three bytes.
pub fn validate_email(email: &str) -> (r: Result<bool, ErrorList>)
    ensures
        valid_email(email@) ==> r == Ok::<bool, ErrorList>(true),
        !valid_email(email@) ==> r == Err::<bool, ErrorList>(ErrorList::InvalidEmail),
{
    if has_char(email, '@') && email.len() > 3 {
        return Ok(true);
    }
    Err(ErrorList::InvalidEmail)
}

/// A password must be at least 8 and fewer than 100 bytes long.
pub fn validate_password(password: &str) -> (r: Result<bool, ErrorList>)
    ensures
        valid_password(password@) ==> r == Ok::<bool, ErrorList>(true),
        !valid_password(password@) ==> r == Err::<bool, ErrorList>(ErrorList::InvalidPassword),
{
    if password.len() >= 8 && password.len() < 100 {
        return Ok(true);
    }
    Err(ErrorList::InvalidPassword)
}

/// A username must be at least 3 and fewer than 100 bytes long.
pub fn validate_username(username: &str) -> (r: Result<bool, ErrorList>)
    ensures
        valid_username(username@) ==> r == Ok::<bool, ErrorList>(true),
        !valid_username(username@) ==> r == Err::<bool, ErrorList>(ErrorList::InvalidUsername),
{
    if username.len() >= 3 && username.len() < 100 {
        return Ok(true);
    }
    Err(ErrorList::InvalidUsername)
}


/// What a user submits to register.
pub struct RegistrationDetails {
    pub username: String,
    pub email: String,
    pub password: String,
    pub confirm_password: String,
}

/// A registered user.
pub struct User {
    pub username: String,
    pub email: String,
    pub hashed_password: String,
}

/// What a user submits to log in.
pub struct LoginDetails {
    pub email: String,
    pub password: String,
}

/// What a logged-in user submits to change their password.
pub struct ChangePassword {
    pub password: String,
    pub confirm_password: String,
}

/// What a user submits to verify their email address.
pub struct VerificationDetails {
    pub email: String,
    pub code: String,
}

/// The username that a session belongs to.
pub struct Username(pub String);

/// A stored one-time code and the email address it was sent to.
pub struct CodeAndEmail(pub String, pub String);

/// A request to reset the password of the account with this email address.
pub struct PasswordResetInitiateRequest(pub String);

/// A password reset: the emailed code and the new password, twice.
pub struct PasswordResetCompleteRequest {
    pub code: String,
    pub password: String,
    pub confirm_password: String,
}

/// An email to be sent.
pub struct Email<'a> {
    pub from: &'a str,
    pub reply_to: Option<&'a str>,
    pub to: &'a str,
    pub subject: String,
    pub body: String,
}

/// A new account's username and email must both be unused; the username
/// is checked first.
pub fn is_unique(username_taken: bool, email_taken: bool) -> (r: Result<bool, ErrorList>)
    ensures
        username_taken ==> r == Err::<bool, ErrorList>(ErrorList::UsernameAlreadyRegistered),
        !username_taken && email_taken ==> r == Err::<bool, ErrorList>(
            ErrorList::EmailAlreadyRegistered,
        ),
        !username_taken && !email_taken ==> r == Ok::<bool, ErrorList>(true),
{
    if username_taken {
        return Err(ErrorList::UsernameAlreadyRegistered);
    }
    if email_taken {
        return Err(ErrorList::EmailAlreadyRegistered);
    }
    Ok(true)
}

/// A new password must be typed the same way twice.
pub fn passwords_match(password: &String, confirm_password: &String) -> (r: Result<
    bool,
    ErrorList,
>)
    ensures
        password@ == confirm_password@ ==> r == Ok::<bool, ErrorList>(true),
        password@ != confirm_password@ ==> r == Err::<bool, ErrorList>(
            ErrorList::NonMatchingPasswords,
        ),
{
    if *password != *confirm_password {
        return Err(ErrorList::NonMatchingPasswords);
    }
    Ok(true)
}

/// The outcome of checking a registration: the email, username and password
/// in that order, then that the username and the email are unused, then
/// that the password was typed the same way twice.
pub open spec fn registration_outcome(
    d: RegistrationDetails,
    username_taken: bool,
    email_taken: bool,
) -> Result<bool, ErrorList> {
    if !valid_email(d.email@) {
        Err(ErrorList::InvalidEmail)
    } else if !valid_username(d.username@) {
        Err(ErrorList::InvalidUsername)
    } else if !valid_password(d.password@) {
        Err(ErrorList::InvalidPassword)
    } else if username_taken {
        Err(ErrorList::UsernameAlreadyRegistered)
    } else if email_taken {
        Err(ErrorList::EmailAlreadyRegistered)
    } else if d.password@ != d.confirm_password@ {
        Err(ErrorList::NonMatchingPasswords)
    } else {
        Ok(true)
    }
}

/// Checks a registration, given whether its username and its email are
/// already registered.
pub fn validate_registration(
    details: &RegistrationDetails,
    username_taken: bool,
    email_taken: bool,
) -> (r: Result<bool, ErrorList>)
    ensures
        r == registration_outcome(*details, username_taken, email_taken),
{
    if let Err(e) = validate_email(details.email.as_str()) {
        return Err(e);
    }
    if let Err(e) = validate_username(details.username.as_str()) {
        return Err(e);
    }
    if let Err(e) = validate_password(details.password.as_str()) {
        return Err(e);
    }
    if let Err(e) = is_unique(username_taken, email_taken) {
        return Err(e);
    }
    passwords_match(&details.password, &details.confirm_password)
}

/// Checks a password change: the new password must be valid, then typed the
/// same way twice.
pub fn validate_password_change(details: &ChangePassword) -> (r: Result<bool, ErrorList>)
    ensures
        !valid_password(details.password@) ==> r == Err::<bool, ErrorList>(
            ErrorList::InvalidPassword,
        ),
        valid_password(details.password@) && details.password@ != details.confirm_password@
            ==> r == Err::<bool, ErrorList>(ErrorList::NonMatchingPasswords),
        valid_password(details.password@) && details.password@ == details.confirm_password@
            ==> r == Ok::<bool, ErrorList>(true),
{
    if let Err(e) = validate_password(details.password.as_str()) {
        return Err(e);
    }
    passwords_match(&details.password, &details.confirm_password)
}

/// When a code created at `created_ts` (seconds) stops being valid.
pub fn code_expiry(created_ts: i64) -> (r: i64)
    requires
        created_ts <= i64::MAX - CODE_VALIDITY_SECONDS,
    ensures
        r == created_ts + CODE_VALIDITY_SECONDS,
{
    created_ts + CODE_VALIDITY_SECONDS
}

/// When a session opened at `now` (seconds) ends.
pub fn session_expiry(now: i64) -> (r: i64)
    requires
        now <= i64::MAX - SESSION_VALIDITY_SECONDS,
    ensures
        r == now + SESSION_VALIDITY_SECONDS,
{
    now + SESSION_VALIDITY_SECONDS
}

/// The characters that one-time codes and session keys are drawn from.
pub open spec fn id_alphabet() -> Seq<char> {
    "ABCDEFGHIJKLMNOPQRSTUVWXYZ0123456789"@
}

/// Relies on rand's `thread_rng` and `Rng::gen_range`, which returns a number
/// drawn from `0..bound` and panics on an empty range.
#[verifier::external_body]
fn random_below(bound: usize) -> (r: usize)
    requires
        bound > 0,
    ensures
        r < bound,
{
    rand::thread_rng().gen_range(0..bound)
}

/// A random identifier of `length` characters, each an upper-case ASCII
/// letter or a digit.
pub fn generate_unique_id(length: u8) -> (r: String)
    ensures
        r@.len() == length,
        forall|i: int| 0 <= i < r@.len() ==> id_alphabet().contains(#[trigger] r@[i]),
{
    let alphabet = "ABCDEFGHIJKLMNOPQRSTUVWXYZ0123456789";
    proof {
        reveal_strlit("ABCDEFGHIJKLMNOPQRSTUVWXYZ0123456789");
    }
    let n = alphabet.unicode_len();
    let mut id = String::new();
    let mut i: u8 = 0;
    while i < length
        invariant
            alphabet@ == id_alphabet(),
            n == alphabet@.len(),
            n == 36,
            i <= length,
            id@.len() == i,
            forall|k: int| 0 <= k < id@.len() ==> id_alphabet().contains(#[trigger] id@[k]),
        decreases length - i,
    {
        let k = random_below(n);
        let ghost before = id@;
        id.append(alphabet.substring_char(k, k + 1));
        proof {
            assert(id@[i as int] == alphabet@[k as int]);
            assert forall|j: int| 0 <= j < id@.len() implies id_alphabet().contains(
                #[trigger] id@[j],
            ) by {
                if j < i {
                    assert(id@[j] == before[j]);
                }
            }
        }
        i = i + 1;
    }
    id
}


/// Whether argon2 accepts `password` for the stored `hash`, a PHC string
/// that carries its own parameters and salt; a hash that cannot be read
/// accepts no password.
pub uninterp spec fn argon2_accepts(hash: Seq<char>, password: Seq<char>) -> bool;

/// Relies on argon2's `PasswordHasher::hash_password`, with
/// `Argon2::default()` and a salt from `SaltString::generate(&mut OsRng)`,
/// which fails only for a password longer than `u32::MAX` bytes. The salt is
/// random, so nothing is claimed of the resulting PHC string.
#[verifier::external_body]
pub fn hash_password(password: &str) -> (r: String)
    requires
        byte_len(password@) <= 0xffff_ffff,
{
    let salt = SaltString::generate(&mut OsRng);
    Argon2::default().hash_password(password.as_bytes(), &salt).expect(
        "a password within argon2's length limit hashes",
    ).to_string()
}

/// Relies on argon2's `PasswordHash::new` and
/// `PasswordVerifier::verify_password` with `Argon2::default()`: whether
/// `password` hashes to `hash` under the parameters and salt that `hash`
/// records.
#[verifier::external_body]
pub fn verify_password(hash: &str, password: &str) -> (r: bool)
    ensures
        r == argon2_accepts(hash@, password@),
{
    match PasswordHash::new(hash) {
        Ok(parsed) => Argon2::default().verify_password(password.as_bytes(), &parsed).is_ok(),
        Err(_) => false,
    }
}

/// The account to create for a registration, given whether its username and
/// its email are already registered: the registration is checked as
/// `registration_outcome` describes, and the password is stored hashed.
pub fn new_user(details: &RegistrationDetails, username_taken: bool, email_taken: bool) -> (r:
    Result<User, ErrorList>)
    ensures
        match r {
            Ok(user) => {
                &&& registration_outcome(*details, username_taken, email_taken) == Ok::<
                    bool,
                    ErrorList,
                >(true)
                &&& user.username@ == details.username@
                &&& user.email@ == details.email@
            },
            Err(e) => registration_outcome(*details, username_taken, email_taken) == Err::<
                bool,
                ErrorList,
            >(e),
        },
{
    if let Err(e) = validate_registration(details, username_taken, email_taken) {
        return Err(e);
    }
    let hashed_password = hash_password(details.password.as_str());
    Ok(
        User {
            username: details.username.clone(),
            email: details.email.clone(),
            hashed_password,
        },
    )
}

/// Checks a login: the account found for the email (if any) must accept the
/// password.
pub fn authenticate(user: Option<User>, password: &str) -> (r: Result<User, ErrorList>)
    ensures
        user is None ==> r == Err::<User, ErrorList>(ErrorList::IncorrectUsername),
        user matches Some(u) && argon2_accepts(u.hashed_password@, password@) ==> r == Ok::<
            User,
            ErrorList,
        >(user->0),
        user matches Some(u) && !argon2_accepts(u.hashed_password@, password@) ==> r == Err::<
            User,
            ErrorList,
        >(ErrorList::IncorrectPassword),
{
    match user {
        None => Err(ErrorList::IncorrectUsername),
        Some(u) => {
            if verify_password(u.hashed_password.as_str(), password) {
                Ok(u)
            } else {
                Err(ErrorList::IncorrectPassword)
            }
        },
    }
}

} // verus!
